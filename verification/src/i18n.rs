//! Interface languages: which language a locale tag selects.
use vstd::prelude::*;
use crate::text::{ascii_lower, chars_of, chars_start_with, has_prefix, starts_with};

verus! {

/// The language a locale tag selects: the first of Chinese, Spanish,
/// German, Japanese, French, Portuguese and Russian whose code begins the
/// tag, and English otherwise.
pub open spec fn language_of(tag: Seq<char>) -> Seq<char> {
    if has_prefix(tag, "zh"@) {
        "zh"@
    } else if has_prefix(tag, "es"@) {
        "es"@
    } else if has_prefix(tag, "de"@) {
        "de"@
    } else if has_prefix(tag, "ja"@) {
        "ja"@
    } else if has_prefix(tag, "fr"@) {
        "fr"@
    } else if has_prefix(tag, "pt"@) {
        "pt"@
    } else if has_prefix(tag, "ru"@) {
        "ru"@
    } else {
        "en"@
    }
}

/// The language whose texts are shown for the locale `lang`.
pub fn display_language(lang: &str) -> (r: &'static str)
    ensures
        r@ == language_of(lang@),
{
    if starts_with(lang, "zh") {
        "zh"
    } else if starts_with(lang, "es") {
        "es"
    } else if starts_with(lang, "de") {
        "de"
    } else if starts_with(lang, "ja") {
        "ja"
    } else if starts_with(lang, "fr") {
        "fr"
    } else if starts_with(lang, "pt") {
        "pt"
    } else if starts_with(lang, "ru") {
        "ru"
    } else {
        "en"
    }
}

/// `s` with its ASCII upper-case letters lower-cased.
pub open spec fn lowered(s: Seq<char>) -> Seq<char> {
    s.map_values(|c: char| ascii_lower(c))
}

/// The language of the browser locale tag `tag`, compared without regard
/// to case. Lower-casing only turns ASCII upper-case letters into the
/// letters of the language codes (the other characters that lower-case to
/// ASCII letters become `i` or `k`, which start no code and end none), so
/// the ASCII lower-case form decides as the full lower-case form does.
pub open spec fn browser_language_of(tag: Seq<char>) -> Seq<char> {
    language_of(lowered(tag))
}

/// The interface language for the browser locale `tag`.
pub fn browser_language(tag: &str) -> (r: &'static str)
    ensures
        r@ == browser_language_of(tag@),
{
    let v = chars_of(tag);
    let mut low: Vec<char> = Vec::new();
    let mut i: usize = 0;
    while i < v.len()
        invariant
            v@ == tag@,
            i <= v.len(),
            low@ == lowered(tag@).take(i as int),
        decreases v.len() - i,
    {
        let c = v[i];
        let l = if 'A' <= c && c <= 'Z' {
            char_lower(c)
        } else {
            c
        };
        low.push(l);
        assert(low@ =~= lowered(tag@).take(i + 1));
        i = i + 1;
    }
    assert(low@ =~= lowered(tag@));
    let zh = chars_of("zh");
    let es = chars_of("es");
    let de = chars_of("de");
    let ja = chars_of("ja");
    let fr = chars_of("fr");
    let pt = chars_of("pt");
    let ru = chars_of("ru");
    if chars_start_with(&low, &zh) {
        "zh"
    } else if chars_start_with(&low, &es) {
        "es"
    } else if chars_start_with(&low, &de) {
        "de"
    } else if chars_start_with(&low, &ja) {
        "ja"
    } else if chars_start_with(&low, &fr) {
        "fr"
    } else if chars_start_with(&low, &pt) {
        "pt"
    } else if chars_start_with(&low, &ru) {
        "ru"
    } else {
        "en"
    }
}

/// The lower-case form of the ASCII upper-case letter `c`.
fn char_lower(c: char) -> (r: char)
    requires
        'A' <= c && c <= 'Z',
    ensures
        r == ascii_lower(c),
{
    let code: u32 = c as u32;
    assert(code == c as u32);
    let lower: u8 = (code + 32) as u8;
    lower as char
}

/// The supported interface languages.
pub open spec fn is_supported_language(code: Seq<char>) -> bool {
    code == "en"@ || code == "zh"@ || code == "es"@ || code == "de"@ || code == "ja"@ || code
        == "fr"@ || code == "pt"@ || code == "ru"@
}

/// Every locale tag selects a supported language, and a language code
/// selects itself.
pub proof fn lemma_language_of_supported(tag: Seq<char>)
    ensures
        is_supported_language(language_of(tag)),
        language_of(language_of(tag)) == language_of(tag),
        is_supported_language(browser_language_of(tag)),
{
    reveal_strlit("en");
    reveal_strlit("zh");
    reveal_strlit("es");
    reveal_strlit("de");
    reveal_strlit("ja");
    reveal_strlit("fr");
    reveal_strlit("pt");
    reveal_strlit("ru");
    let l = language_of(tag);
    assert(l.subrange(0, 2) =~= l);
}

/// Whether `tag` begins with the letters `a` then `b`, each in either of
/// the given forms.
pub open spec fn begins_with_pair(tag: Seq<char>, a: char, a_up: char, b: char, b_up: char) -> bool {
    tag.len() >= 2 && (tag[0] == a || tag[0] == a_up) && (tag[1] == b || tag[1] == b_up)
}

/// Whether `tag` begins with a supported code other than `en`, in any
/// ASCII case.
pub open spec fn begins_with_any_code(tag: Seq<char>) -> bool {
    ||| begins_with_pair(tag, 'z', 'Z', 'h', 'H')
    ||| begins_with_pair(tag, 'e', 'E', 's', 'S')
    ||| begins_with_pair(tag, 'd', 'D', 'e', 'E')
    ||| begins_with_pair(tag, 'j', 'J', 'a', 'A')
    ||| begins_with_pair(tag, 'f', 'F', 'r', 'R')
    ||| begins_with_pair(tag, 'p', 'P', 't', 'T')
    ||| begins_with_pair(tag, 'r', 'R', 'u', 'U')
}

/// The browser language is chosen by the first two letters of the tag, in
/// any ASCII case: `zh`, `es`, `de`, `ja`, `fr`, `pt` and `ru` each select
/// themselves, and any other beginning selects `en`.
pub proof fn lemma_browser_language_by_code(tag: Seq<char>)
    ensures
        begins_with_pair(tag, 'z', 'Z', 'h', 'H') ==> browser_language_of(tag) == seq!['z', 'h'],
        begins_with_pair(tag, 'e', 'E', 's', 'S') ==> browser_language_of(tag) == seq!['e', 's'],
        begins_with_pair(tag, 'd', 'D', 'e', 'E') ==> browser_language_of(tag) == seq!['d', 'e'],
        begins_with_pair(tag, 'j', 'J', 'a', 'A') ==> browser_language_of(tag) == seq!['j', 'a'],
        begins_with_pair(tag, 'f', 'F', 'r', 'R') ==> browser_language_of(tag) == seq!['f', 'r'],
        begins_with_pair(tag, 'p', 'P', 't', 'T') ==> browser_language_of(tag) == seq!['p', 't'],
        begins_with_pair(tag, 'r', 'R', 'u', 'U') ==> browser_language_of(tag) == seq!['r', 'u'],
        !begins_with_any_code(tag) ==> browser_language_of(tag) == seq!['e', 'n'],
{
    reveal_strlit("en");
    reveal_strlit("zh");
    reveal_strlit("es");
    reveal_strlit("de");
    reveal_strlit("ja");
    reveal_strlit("fr");
    reveal_strlit("pt");
    reveal_strlit("ru");
    let l = lowered(tag);
    if tag.len() >= 2 {
        assert(l[0] == ascii_lower(tag[0]) && l[1] == ascii_lower(tag[1]));
        assert(l.subrange(0, 2) =~= seq![l[0], l[1]]);
    }
    assert("zh"@ =~= seq!['z', 'h']);
    assert("es"@ =~= seq!['e', 's']);
    assert("de"@ =~= seq!['d', 'e']);
    assert("ja"@ =~= seq!['j', 'a']);
    assert("fr"@ =~= seq!['f', 'r']);
    assert("pt"@ =~= seq!['p', 't']);
    assert("ru"@ =~= seq!['r', 'u']);
    assert("en"@ =~= seq!['e', 'n']);
}

/// The display language is chosen by the first two letters of the tag,
/// exactly as written: `zh`, `es`, `de`, `ja`, `fr`, `pt` and `ru` each
/// select themselves, and any other beginning selects `en`.
pub proof fn lemma_display_language_by_code(tag: Seq<char>)
    ensures
        begins_with_pair(tag, 'z', 'z', 'h', 'h') ==> language_of(tag) == seq!['z', 'h'],
        begins_with_pair(tag, 'e', 'e', 's', 's') ==> language_of(tag) == seq!['e', 's'],
        begins_with_pair(tag, 'd', 'd', 'e', 'e') ==> language_of(tag) == seq!['d', 'e'],
        begins_with_pair(tag, 'j', 'j', 'a', 'a') ==> language_of(tag) == seq!['j', 'a'],
        begins_with_pair(tag, 'f', 'f', 'r', 'r') ==> language_of(tag) == seq!['f', 'r'],
        begins_with_pair(tag, 'p', 'p', 't', 't') ==> language_of(tag) == seq!['p', 't'],
        begins_with_pair(tag, 'r', 'r', 'u', 'u') ==> language_of(tag) == seq!['r', 'u'],
        !(begins_with_pair(tag, 'z', 'z', 'h', 'h') || begins_with_pair(tag, 'e', 'e', 's', 's')
            || begins_with_pair(tag, 'd', 'd', 'e', 'e') || begins_with_pair(tag, 'j', 'j', 'a', 'a')
            || begins_with_pair(tag, 'f', 'f', 'r', 'r') || begins_with_pair(tag, 'p', 'p', 't', 't')
            || begins_with_pair(tag, 'r', 'r', 'u', 'u')) ==> language_of(tag) == seq!['e', 'n'],
{
    reveal_strlit("en");
    reveal_strlit("zh");
    reveal_strlit("es");
    reveal_strlit("de");
    reveal_strlit("ja");
    reveal_strlit("fr");
    reveal_strlit("pt");
    reveal_strlit("ru");
    if tag.len() >= 2 {
        assert(tag.subrange(0, 2) =~= seq![tag[0], tag[1]]);
    }
    assert("zh"@ =~= seq!['z', 'h']);
    assert("es"@ =~= seq!['e', 's']);
    assert("de"@ =~= seq!['d', 'e']);
    assert("ja"@ =~= seq!['j', 'a']);
    assert("fr"@ =~= seq!['f', 'r']);
    assert("pt"@ =~= seq!['p', 't']);
    assert("ru"@ =~= seq!['r', 'u']);
    assert("en"@ =~= seq!['e', 'n']);
}

} // verus!

//! Colour themes of the editor: their order, their icons and the code
//! highlighting style that goes with them.
use vstd::prelude::*;
use crate::text::str_eq;

verus! {

/// The theme that follows `current` when the theme button is pressed:
/// light, dark, nord, dracula, sepia, and back to light; any other theme is
/// followed by light.
pub open spec fn theme_after(current: Seq<char>) -> Seq<char> {
    if current == "light"@ {
        "dark"@
    } else if current == "dark"@ {
        "nord"@
    } else if current == "nord"@ {
        "dracula"@
    } else if current == "dracula"@ {
        "sepia"@
    } else {
        "light"@
    }
}

/// The theme that follows `current`.
pub fn next_theme(current: &str) -> (r: &'static str)
    ensures
        r@ == theme_after(current@),
{
    if str_eq(current, "light") {
        "dark"
    } else if str_eq(current, "dark") {
        "nord"
    } else if str_eq(current, "nord") {
        "dracula"
    } else if str_eq(current, "dracula") {
        "sepia"
    } else {
        "light"
    }
}

/// The icon of the theme button.
#[derive(PartialEq, Eq, Structural, Debug, Clone, Copy)]
pub enum ThemeIcon {
    Moon,
    Droplet,
    Sparkles,
    Coffee,
    Sun,
}

/// The icon shown for `theme`: a moon for dark, a droplet for nord,
/// sparkles for dracula, a coffee cup for sepia and a sun otherwise.
pub open spec fn icon_of(theme: Seq<char>) -> ThemeIcon {
    if theme == "dark"@ {
        ThemeIcon::Moon
    } else if theme == "nord"@ {
        ThemeIcon::Droplet
    } else if theme == "dracula"@ {
        ThemeIcon::Sparkles
    } else if theme == "sepia"@ {
        ThemeIcon::Coffee
    } else {
        ThemeIcon::Sun
    }
}

/// The icon of the theme button for `theme`.
pub fn theme_icon(theme: &str) -> (r: ThemeIcon)
    ensures
        r == icon_of(theme@),
{
    if str_eq(theme, "dark") {
        ThemeIcon::Moon
    } else if str_eq(theme, "nord") {
        ThemeIcon::Droplet
    } else if str_eq(theme, "dracula") {
        ThemeIcon::Sparkles
    } else if str_eq(theme, "sepia") {
        ThemeIcon::Coffee
    } else {
        ThemeIcon::Sun
    }
}

/// The code highlighting style sheet for `theme`: the dark one for the
/// dark theme, the light one otherwise.
pub fn highlight_stylesheet_url(theme: &str) -> (r: &'static str)
    ensures
        theme@ == "dark"@ ==> r@
            == "https://cdnjs.cloudflare.com/ajax/libs/highlight.js/11.9.0/styles/github-dark.min.css"@,
        theme@ != "dark"@ ==> r@
            == "https://cdnjs.cloudflare.com/ajax/libs/highlight.js/11.9.0/styles/github.min.css"@,
{
    if str_eq(theme, "dark") {
        "https://cdnjs.cloudflare.com/ajax/libs/highlight.js/11.9.0/styles/github-dark.min.css"
    } else {
        "https://cdnjs.cloudflare.com/ajax/libs/highlight.js/11.9.0/styles/github.min.css"
    }
}

/// Whether the logout button can be used: only by an authenticated
/// visitor of a site protected by a PIN. When it cannot, it shows no
/// tooltip.
pub fn logout_enabled(is_authenticated: bool, is_pin_required: bool) -> (r: bool)
    ensures
        r == (is_authenticated && is_pin_required),
{
    is_authenticated && is_pin_required
}

/// The five themes form a cycle: pressing the theme button five times from
/// any of them comes back to it, and any other theme is followed by light.
pub proof fn lemma_theme_cycle(t: Seq<char>)
    ensures
        (t == "light"@ || t == "dark"@ || t == "nord"@ || t == "dracula"@ || t == "sepia"@)
            ==> theme_after(theme_after(theme_after(theme_after(theme_after(t))))) == t,
        !(t == "light"@ || t == "dark"@ || t == "nord"@ || t == "dracula"@ || t == "sepia"@)
            ==> theme_after(t) == "light"@,
{
    reveal_strlit("light");
    reveal_strlit("dark");
    reveal_strlit("nord");
    reveal_strlit("dracula");
    reveal_strlit("sepia");
    assert("light"@[0] == 'l' && "dark"@[0] == 'd' && "nord"@[0] == 'n' && "dracula"@[0] == 'd'
        && "sepia"@[0] == 's');
    assert("dark"@.len() == 4 && "dracula"@.len() == 7);
    assert("light"@ != "dark"@ && "light"@ != "nord"@ && "light"@ != "dracula"@ && "light"@
        != "sepia"@);
    assert("dark"@ != "nord"@ && "dark"@ != "dracula"@ && "dark"@ != "sepia"@);
    assert("nord"@ != "dracula"@ && "nord"@ != "sepia"@ && "dracula"@ != "sepia"@);
}

/// The theme order, theme by theme, over every theme name: light is
/// followed by dark, dark by nord, nord by dracula, dracula by sepia, and
/// sepia and every other name by light.
pub proof fn lemma_theme_order(t: Seq<char>)
    ensures
        t == seq!['l', 'i', 'g', 'h', 't'] ==> theme_after(t) == seq!['d', 'a', 'r', 'k'],
        t == seq!['d', 'a', 'r', 'k'] ==> theme_after(t) == seq!['n', 'o', 'r', 'd'],
        t == seq!['n', 'o', 'r', 'd'] ==> theme_after(t) == seq!['d', 'r', 'a', 'c', 'u', 'l', 'a'],
        t == seq!['d', 'r', 'a', 'c', 'u', 'l', 'a'] ==> theme_after(t) == seq!['s', 'e', 'p', 'i', 'a'],
        t != seq!['l', 'i', 'g', 'h', 't'] && t != seq!['d', 'a', 'r', 'k'] && t != seq!['n', 'o', 'r', 'd'] && t != seq!['d', 'r', 'a', 'c', 'u', 'l', 'a'] ==> theme_after(t)
            == seq!['l', 'i', 'g', 'h', 't'],
{
    reveal_strlit("light");
    reveal_strlit("dark");
    reveal_strlit("nord");
    reveal_strlit("dracula");
    reveal_strlit("sepia");
    assert("light"@ =~= seq!['l', 'i', 'g', 'h', 't']);
    assert("dark"@ =~= seq!['d', 'a', 'r', 'k']);
    assert("nord"@ =~= seq!['n', 'o', 'r', 'd']);
    assert("dracula"@ =~= seq!['d', 'r', 'a', 'c', 'u', 'l', 'a']);
    assert("sepia"@ =~= seq!['s', 'e', 'p', 'i', 'a']);
}

/// The icon of the theme button, over every theme name: a moon for dark,
/// a droplet for nord, sparkles for dracula, a coffee cup for sepia, and a
/// sun for every other name.
pub proof fn lemma_icon_by_theme(t: Seq<char>)
    ensures
        t == seq!['d', 'a', 'r', 'k'] ==> icon_of(t) == ThemeIcon::Moon,
        t == seq!['n', 'o', 'r', 'd'] ==> icon_of(t) == ThemeIcon::Droplet,
        t == seq!['d', 'r', 'a', 'c', 'u', 'l', 'a'] ==> icon_of(t) == ThemeIcon::Sparkles,
        t == seq!['s', 'e', 'p', 'i', 'a'] ==> icon_of(t) == ThemeIcon::Coffee,
        t != seq!['d', 'a', 'r', 'k'] && t != seq!['n', 'o', 'r', 'd'] && t != seq!['d', 'r', 'a', 'c', 'u', 'l', 'a'] && t != seq!['s', 'e', 'p', 'i', 'a'] ==> icon_of(t)
            == ThemeIcon::Sun,
{
    reveal_strlit("dark");
    reveal_strlit("nord");
    reveal_strlit("dracula");
    reveal_strlit("sepia");
    assert("dark"@ =~= seq!['d', 'a', 'r', 'k']);
    assert("nord"@ =~= seq!['n', 'o', 'r', 'd']);
    assert("dracula"@ =~= seq!['d', 'r', 'a', 'c', 'u', 'l', 'a']);
    assert("sepia"@ =~= seq!['s', 'e', 'p', 'i', 'a']);
}

} // verus!

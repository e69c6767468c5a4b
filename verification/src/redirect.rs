//! Redirect rules of the login flow: which redirect targets are accepted,
//! and where an unauthenticated visitor of the root page is sent.
use vstd::prelude::*;
use crate::text::{ascii_lower, chars_of, digit_char};
use vstd::string::StringExecFns;
use vstd::string::StringSliceAdditionalSpecFns;

verus! {

/// Whether `s` holds `%`, then `d`, then a character whose ASCII lower-case
/// form is `l`, at consecutive positions.
///
/// This is what searching the lower-cased text for `%<d><l>` finds: the only
/// characters whose lower-case form holds `%`, a digit or an ASCII letter
/// other than `i` and `k` are those characters themselves and the ASCII
/// upper-case letters.
pub open spec fn has_escape(s: Seq<char>, d: char, l: char) -> bool {
    exists|i: int|
        #![trigger s[i]]
        0 <= i && i + 2 < s.len() && s[i] == '%' && s[i + 1] == d && ascii_lower(s[i + 2]) == l
}

/// A redirect target is accepted when it is a path on this site: it starts
/// with one `/` (not `//`), holds no backslash, and holds no encoded `/` or
/// `\` (`%2f`, `%5c`, in any case).
pub open spec fn valid_redirect(s: Seq<char>) -> bool {
    &&& s.len() > 0
    &&& s[0] == '/'
    &&& !(s.len() >= 2 && s[1] == '/')
    &&& !s.contains('\\')
    &&& !has_escape(s, '2', 'f')
    &&& !has_escape(s, '5', 'c')
}

/// Which redirect targets are accepted, in terms of their characters: a
/// target is accepted exactly when it starts with `/` but not `//`, holds
/// no backslash, and nowhere holds `%` followed by `2f` or `5c` (either
/// letter case). Nothing else refuses a target.
pub proof fn lemma_valid_redirect_chars(s: Seq<char>)
    ensures
        valid_redirect(s) <==> {
            &&& s.len() > 0
            &&& s[0] == '/'
            &&& !(s.len() >= 2 && s[1] == '/')
            &&& forall|i: int| 0 <= i < s.len() ==> #[trigger] s[i] != '\\'
            &&& forall|i: int|
                #![trigger s[i]]
                0 <= i && i + 2 < s.len() && s[i] == '%' && s[i + 1] == '2' ==> s[i + 2] != 'f'
                    && s[i + 2] != 'F'
            &&& forall|i: int|
                #![trigger s[i]]
                0 <= i && i + 2 < s.len() && s[i] == '%' && s[i + 1] == '5' ==> s[i + 2] != 'c'
                    && s[i + 2] != 'C'
        },
{
    assert forall|c: char| (ascii_lower(c) == 'f' <==> (c == 'f' || c == 'F')) && (ascii_lower(c)
        == 'c' <==> (c == 'c' || c == 'C')) by {
        if 'A' <= c && c <= 'Z' {
            assert(ascii_lower(c) as u32 == c as u32 + 32);
        }
    }
    if !s.contains('\\') {
        assert forall|i: int| 0 <= i < s.len() implies #[trigger] s[i] != '\\' by {
            if s[i] == '\\' {
                assert(s.contains('\\'));
            }
        }
    }
}

/// Whether `url` may be used as the target of a redirect after login.
pub fn is_valid_redirect_url(url: &str) -> (r: bool)
    ensures
        r == valid_redirect(url@),
{
    let v = chars_of(url);
    let n = v.len();
    if n == 0 || v[0] != '/' || (n >= 2 && v[1] == '/') {
        return false;
    }
    let mut i: usize = 0;
    while i < n
        invariant
            v@ == url@,
            n == v.len(),
            i <= n,
            forall|j: int| 0 <= j < i ==> v@[j] != '\\',
            forall|j: int|
                #![trigger v@[j]]
                0 <= j < i && j + 2 < n && v@[j] == '%' && v@[j + 1] == '2' ==> ascii_lower(
                    v@[j + 2],
                ) != 'f',
            forall|j: int|
                #![trigger v@[j]]
                0 <= j < i && j + 2 < n && v@[j] == '%' && v@[j + 1] == '5' ==> ascii_lower(
                    v@[j + 2],
                ) != 'c',
        decreases n - i,
    {
        let c = v[i];
        if c == '\\' {
            assert(url@[i as int] == '\\');
            return false;
        }
        if c == '%' && n >= 2 && i < n - 2 {
            let d = v[i + 1];
            let e = v[i + 2];
            if d == '2' && (e == 'f' || e == 'F') {
                assert(ascii_lower(v@[i + 2]) == 'f');
                return false;
            }
            if d == '5' && (e == 'c' || e == 'C') {
                assert(ascii_lower(v@[i + 2]) == 'c');
                return false;
            }
        }
        i = i + 1;
    }
    true
}


/// Whether `b` is the code of an ASCII letter or digit.
pub open spec fn is_alphanumeric_byte(b: u8) -> bool {
    (48 <= b && b <= 57) || (65 <= b && b <= 90) || (97 <= b && b <= 122)
}

/// The upper-case hexadecimal digit character for `d`.
pub open spec fn hex_upper_char(d: nat) -> char
    recommends
        d < 16,
{
    if d < 10 {
        digit_char(d)
    } else {
        ((55 + d) as u32) as char
    }
}

/// How one byte is written: an ASCII letter or digit stands for itself,
/// every other byte becomes `%` and two upper-case hexadecimal digits.
pub open spec fn percent_encoded_byte(b: u8) -> Seq<char> {
    if is_alphanumeric_byte(b) {
        seq![(b as u32) as char]
    } else {
        seq!['%', hex_upper_char((b / 16) as nat), hex_upper_char((b % 16) as nat)]
    }
}

/// The percent-encoding of `bytes` in which only ASCII letters and digits
/// are left as they are.
pub open spec fn percent_encoded(bytes: Seq<u8>) -> Seq<char>
    decreases bytes.len(),
{
    if bytes.len() == 0 {
        Seq::empty()
    } else {
        percent_encoded(bytes.drop_last()) + percent_encoded_byte(bytes.last())
    }
}

/// The value of the hexadecimal digit `c` (either case), -1 for any other
/// character.
pub open spec fn hex_value(c: char) -> int {
    if '0' <= c && c <= '9' {
        c as int - 48
    } else if 'A' <= c && c <= 'F' {
        c as int - 55
    } else if 'a' <= c && c <= 'f' {
        c as int - 87
    } else {
        -1
    }
}

/// Percent-decoding: `%` followed by two hexadecimal digits stands for the
/// byte they write; any other character stands for its own code.
pub open spec fn percent_decoded(s: Seq<char>) -> Seq<u8>
    decreases s.len(),
{
    if s.len() == 0 {
        Seq::empty()
    } else if s.len() >= 3 && s[0] == '%' && hex_value(s[1]) >= 0 && hex_value(s[2]) >= 0 {
        seq![(hex_value(s[1]) * 16 + hex_value(s[2])) as u8] + percent_decoded(s.skip(3))
    } else {
        seq![(s[0] as u32) as u8] + percent_decoded(s.skip(1))
    }
}

/// Decoding the writing of one byte gives the byte back.
proof fn lemma_decode_byte(b: u8, rest: Seq<char>)
    ensures
        percent_decoded(percent_encoded_byte(b) + rest) == seq![b] + percent_decoded(rest),
{
    let s = percent_encoded_byte(b) + rest;
    if is_alphanumeric_byte(b) {
        assert(s[0] == (b as u32) as char);
        assert(s.skip(1) =~= rest);
    } else {
        let hi = (b / 16) as nat;
        let lo = (b % 16) as nat;
        assert(s[0] == '%' && s[1] == hex_upper_char(hi) && s[2] == hex_upper_char(lo));
        assert(hex_value(hex_upper_char(hi)) == hi);
        assert(hex_value(hex_upper_char(lo)) == lo);
        assert(s.skip(3) =~= rest);
    }
}

/// Decoding an encoding followed by more text gives the bytes back,
/// followed by the decoding of the rest.
proof fn lemma_decode_encoded_prefix(bytes: Seq<u8>, rest: Seq<char>)
    ensures
        percent_decoded(percent_encoded(bytes) + rest) == bytes + percent_decoded(rest),
    decreases bytes.len(),
{
    if bytes.len() == 0 {
        assert(percent_encoded(bytes) + rest =~= rest);
        assert(bytes + percent_decoded(rest) =~= percent_decoded(rest));
    } else {
        let prefix = bytes.drop_last();
        let piece = percent_encoded_byte(bytes.last());
        lemma_decode_encoded_prefix(prefix, piece + rest);
        lemma_decode_byte(bytes.last(), rest);
        assert(percent_encoded(bytes) + rest =~= percent_encoded(prefix) + (piece + rest));
        assert(bytes =~= prefix + seq![bytes.last()]);
        assert(prefix + (seq![bytes.last()] + percent_decoded(rest)) =~= bytes + percent_decoded(
            rest,
        ));
    }
}

/// The login location keeps the requested URI: percent-decoding the
/// `redirect` parameter gives back the bytes of the URI that was asked for,
/// so a visitor sent to log in comes back where it was going.
pub proof fn lemma_login_location_round_trip(uri: Seq<u8>)
    ensures
        percent_decoded(percent_encoded(uri)) == uri,
{
    lemma_decode_encoded_prefix(uri, Seq::empty());
    assert(percent_encoded(uri) + Seq::<char>::empty() =~= percent_encoded(uri));
    assert(percent_decoded(Seq::<char>::empty()) =~= Seq::<u8>::empty());
    assert(uri + Seq::<u8>::empty() =~= uri);
}

/// Calls `percent_encoding::utf8_percent_encode` with the set
/// `NON_ALPHANUMERIC` and collects the result. The crate encodes every
/// non-ASCII byte and every byte of the set (all ASCII bytes but letters and
/// digits) as `%` with two upper-case hexadecimal digits, and copies the
/// other bytes; the contract states exactly that of the UTF-8 bytes of `s`.
#[verifier::external_body]
fn percent_encode_non_alphanumeric(s: &str) -> (r: String)
    ensures
        r@ == percent_encoded(s.spec_bytes()),
{
    percent_encoding::utf8_percent_encode(s, percent_encoding::NON_ALPHANUMERIC).to_string()
}

/// What the root page answers.
#[derive(Debug, Clone, PartialEq, Eq)]
pub enum RootPage {
    /// Serve the application page.
    ServeIndex,
    /// Send the visitor to this login location.
    RedirectToLogin(String),
}

/// The login location that brings an unauthenticated visitor back to
/// `uri` once the PIN is accepted.
pub open spec fn login_location(uri: Seq<u8>) -> Seq<char> {
    "/login?redirect="@ + percent_encoded(uri)
}

/// The decision of the root page: an authenticated visitor gets the
/// application page, any other visitor is redirected to the login page with
/// the requested URI, percent-encoded, as its `redirect` parameter.
pub fn serve_root_decision(authenticated: bool, uri: &str) -> (r: RootPage)
    ensures
        authenticated ==> r is ServeIndex,
        !authenticated ==> (r matches RootPage::RedirectToLogin(loc) && loc@ == login_location(
            uri.spec_bytes(),
        )),
{
    if authenticated {
        RootPage::ServeIndex
    } else {
        let encoded = percent_encode_non_alphanumeric(uri);
        let mut loc = String::from_str("/login?redirect=");
        loc.append(encoded.as_str());
        RootPage::RedirectToLogin(loc)
    }
}

/// What the login page answers.
#[derive(Debug, Clone, PartialEq, Eq)]
pub enum LoginPage {
    /// Serve the login form.
    ServeLogin,
    /// Send the visitor to this location.
    Redirect(String),
}

/// The decision of the login page: a visitor who is already authenticated
/// is sent to the requested target when it is a valid redirect target, and
/// to `/` otherwise; any other visitor gets the login form.
pub fn serve_login_decision(authenticated: bool, redirect: Option<&str>) -> (r: LoginPage)
    ensures
        !authenticated ==> r is ServeLogin,
        authenticated ==> (r matches LoginPage::Redirect(target) && target@ == match redirect {
            Some(t) => if valid_redirect(t@) {
                t@
            } else {
                "/"@
            },
            None => "/"@,
        }),
        r matches LoginPage::Redirect(target) ==> valid_redirect(target@),
{
    if !authenticated {
        return LoginPage::ServeLogin;
    }
    proof {
        reveal_strlit("/");
    }
    if let Some(t) = redirect {
        if is_valid_redirect_url(t) {
            return LoginPage::Redirect(String::from_str(t));
        }
    }
    LoginPage::Redirect(String::from_str("/"))
}

} // verus!

//! PIN authentication: cookie check, PIN verification and the values the
//! PIN endpoints report.
use vstd::prelude::*;
use vstd::string::StringSliceAdditionalSpecFns;
use crate::text::{chars_of, has_prefix, starts_with, str_eq};

verus! {

/// The body of a PIN verification request.
#[derive(Debug, Clone, PartialEq, Eq)]
pub struct VerifyPinPayload {
    pub pin: String,
}

/// Compares two strings in time that depends on their length only, not on
/// where they first differ.
pub fn secure_compare(a: &str, b: &str) -> (r: bool)
    ensures
        r == (a@ == b@),
{
    let x = chars_of(a);
    let y = chars_of(b);
    if x.len() != y.len() {
        return false;
    }
    let mut same = true;
    let mut i: usize = 0;
    while i < x.len()
        invariant
            x@ == a@,
            y@ == b@,
            x.len() == y.len(),
            i <= x.len(),
            same <==> (forall|j: int| 0 <= j < i ==> x@[j] == y@[j]),
        decreases x.len() - i,
    {
        let equal_here = x[i] == y[i];
        same = equal_here && same;
        i = i + 1;
    }
    if same {
        assert(x@ =~= y@);
    }
    same
}

/// Whether a visitor holding the authentication cookie `cookie` (if any) is
/// let in, when the site is protected by `pin` (if any).
pub open spec fn authenticated(pin: Option<Seq<char>>, cookie: Option<Seq<char>>) -> bool {
    match pin {
        None => true,
        Some(p) => match cookie {
            Some(c) => c == p,
            None => false,
        },
    }
}

/// Whether the visitor with the authentication cookie value `cookie` is
/// authenticated: always when no PIN is set, otherwise when the cookie holds
/// the PIN.
pub fn is_authenticated(pin: Option<&str>, cookie: Option<&str>) -> (r: bool)
    ensures
        r == authenticated(
            match pin {
                Some(p) => Some(p@),
                None => None,
            },
            match cookie {
                Some(c) => Some(c@),
                None => None,
            },
        ),
{
    match pin {
        None => true,
        Some(p) => match cookie {
            Some(c) => secure_compare(c, p),
            None => false,
        },
    }
}

/// Whether `c` is an ASCII digit.
pub open spec fn is_digit(c: char) -> bool {
    '0' <= c && c <= '9'
}

/// A submitted PIN is well formed when it has 4 to 10 characters, all of
/// them ASCII digits.
pub open spec fn valid_pin_format(s: Seq<char>) -> bool {
    4 <= s.len() && s.len() <= 10 && forall|i: int| 0 <= i < s.len() ==> is_digit(#[trigger] s[i])
}

/// Whether `pin` is a well-formed PIN.
pub fn is_valid_pin_format(pin: &str) -> (r: bool)
    ensures
        r == valid_pin_format(pin@),
{
    let v = chars_of(pin);
    if v.len() < 4 || v.len() > 10 {
        return false;
    }
    let mut i: usize = 0;
    while i < v.len()
        invariant
            v@ == pin@,
            i <= v.len(),
            forall|j: int| 0 <= j < i ==> is_digit(#[trigger] v@[j]),
        decreases v.len() - i,
    {
        if !('0' <= v[i] && v[i] <= '9') {
            assert(!is_digit(pin@[i as int]));
            return false;
        }
        i = i + 1;
    }
    true
}

/// The outcome of a PIN verification request.
#[derive(PartialEq, Eq, Structural, Debug, Clone, Copy)]
pub enum PinVerdict {
    /// No PIN is set: the request succeeds at once.
    NotRequired,
    /// The client is locked out after too many failed attempts.
    LockedOut,
    /// The submitted PIN is not 4 to 10 digits; counts as a failed attempt.
    InvalidFormat,
    /// The submitted PIN is the PIN: the client's attempts are reset and it
    /// gets the authentication cookie.
    Accepted,
    /// The submitted PIN is well formed but wrong; counts as a failed attempt.
    Rejected,
}

/// The verdict on a PIN submission, checked in this order: no PIN set,
/// client locked out, malformed PIN, right PIN, wrong PIN.
pub open spec fn pin_verdict(pin: Option<Seq<char>>, locked_out: bool, submitted: Seq<char>) -> PinVerdict {
    match pin {
        None => PinVerdict::NotRequired,
        Some(p) => if locked_out {
            PinVerdict::LockedOut
        } else if !valid_pin_format(submitted) {
            PinVerdict::InvalidFormat
        } else if submitted == p {
            PinVerdict::Accepted
        } else {
            PinVerdict::Rejected
        },
    }
}

/// Decides a PIN verification request from the configured PIN, whether the
/// client is locked out, and the submitted PIN.
pub fn verify_pin_decision(pin: Option<&str>, locked_out: bool, submitted: &str) -> (r: PinVerdict)
    ensures
        r == pin_verdict(
            match pin {
                Some(p) => Some(p@),
                None => None,
            },
            locked_out,
            submitted@,
        ),
{
    match pin {
        None => PinVerdict::NotRequired,
        Some(p) => {
            if locked_out {
                PinVerdict::LockedOut
            } else if !is_valid_pin_format(submitted) {
                PinVerdict::InvalidFormat
            } else if secure_compare(submitted, p) {
                PinVerdict::Accepted
            } else {
                PinVerdict::Rejected
            }
        },
    }
}

/// What the PIN requirement endpoint reports.
#[derive(Debug, Clone, PartialEq, Eq)]
pub struct PinStatus {
    /// Whether a PIN is set.
    pub required: bool,
    /// The length of the PIN in bytes, 0 when none is set.
    pub length: usize,
    /// Whether the asking client is locked out.
    pub locked: bool,
}

/// The PIN requirement report for a client.
pub fn pin_required_status(pin: Option<&str>, locked: bool) -> (r: PinStatus)
    ensures
        r.required == (pin is Some),
        r.length == match pin {
            Some(p) => p.spec_bytes().len() as usize,
            None => 0,
        },
        r.locked == locked,
{
    let length = match pin {
        Some(p) => p.len(),
        None => 0,
    };
    PinStatus { required: pin.is_some(), length, locked }
}

/// How many attempts a client has left after `count` failed ones, out of
/// `max_attempts`, never below zero.
pub fn attempts_left(max_attempts: u64, count: u64) -> (r: u64)
    ensures
        r == if count <= max_attempts {
            (max_attempts - count) as u64
        } else {
            0
        },
{
    if count <= max_attempts {
        max_attempts - count
    } else {
        0
    }
}

/// Nanoseconds in a minute.
pub const NANOS_PER_MINUTE: u128 = 60_000_000_000;

/// Whole minutes, rounded up, left of a lockout of `lockout_minutes`
/// minutes, `elapsed_nanos` nanoseconds after the last failed attempt.
pub open spec fn minutes_left(lockout_minutes: nat, elapsed_nanos: nat) -> nat {
    let lockout = lockout_minutes * 60_000_000_000;
    if elapsed_nanos >= lockout {
        0
    } else {
        ((lockout - elapsed_nanos + 59_999_999_999) / 60_000_000_000) as nat
    }
}

/// The number of minutes, rounded up, that a locked-out client still has
/// to wait, `elapsed_secs` seconds and `elapsed_subsec_nanos` nanoseconds
/// after its last attempt, with a lockout of `lockout_minutes` minutes.
pub fn lockout_minutes_left(lockout_minutes: u64, elapsed_secs: u64, elapsed_subsec_nanos: u32) -> (r: u64)
    requires
        lockout_minutes * 60 <= u64::MAX,
        elapsed_subsec_nanos < 1_000_000_000,
    ensures
        r == minutes_left(
            lockout_minutes as nat,
            (elapsed_secs as nat) * 1_000_000_000 + elapsed_subsec_nanos as nat,
        ),
{
    let lockout: u128 = (lockout_minutes as u128) * NANOS_PER_MINUTE;
    let elapsed: u128 = (elapsed_secs as u128) * 1_000_000_000 + (elapsed_subsec_nanos as u128);
    if elapsed >= lockout {
        0
    } else {
        let m = (lockout - elapsed + (NANOS_PER_MINUTE - 1)) / NANOS_PER_MINUTE;
        proof {
            let li = lockout_minutes as int;
            let d = (lockout - elapsed + 59_999_999_999) as int;
            assert(d <= li * 60_000_000_000 + 59_999_999_999);
            assert(d / 60_000_000_000 <= li) by (nonlinear_arith)
                requires
                    d <= li * 60_000_000_000 + 59_999_999_999,
                    d >= 0,
            ;
        }
        m as u64
    }
}

/// The lifetime, in seconds, of the authentication cookie for a configured
/// lifetime of `hours` hours.
pub fn auth_cookie_max_age_secs(hours: u64) -> (r: u64)
    requires
        hours * 3600 <= i64::MAX,
    ensures
        r == hours * 3600,
{
    hours * 3600
}

/// Whether cookies are marked secure: when the site is served over
/// `https` in production.
pub fn cookie_is_secure(base_url: &str, node_env: &str) -> (r: bool)
    ensures
        r == (has_prefix(base_url@, "https"@) && node_env@ == "production"@),
{
    starts_with(base_url, "https") && str_eq(node_env, "production")
}

/// A PIN accepted by the verification endpoint is stored as the
/// authentication cookie, and that cookie lets its holder in.
pub proof fn lemma_accepted_pin_authenticates(pin: Seq<char>, submitted: Seq<char>)
    requires
        pin_verdict(Some(pin), false, submitted) == PinVerdict::Accepted,
    ensures
        authenticated(Some(pin), Some(submitted)),
{
}

/// Only the PIN itself authenticates: a cookie that lets its holder in on a
/// protected site holds the PIN, and submitting that value is accepted
/// whenever the client is not locked out and the PIN is well formed.
pub proof fn lemma_authenticating_cookie_is_accepted(pin: Seq<char>, cookie: Seq<char>)
    requires
        authenticated(Some(pin), Some(cookie)),
        valid_pin_format(pin),
    ensures
        cookie == pin,
        pin_verdict(Some(pin), false, cookie) == PinVerdict::Accepted,
{
}

/// A locked-out client is never accepted, whatever it submits, and a site
/// without a PIN never locks anyone out.
pub proof fn lemma_lockout_blocks(pin: Option<Seq<char>>, submitted: Seq<char>)
    ensures
        pin is Some ==> pin_verdict(pin, true, submitted) == PinVerdict::LockedOut,
        pin is None ==> pin_verdict(pin, true, submitted) == PinVerdict::NotRequired,
{
}

/// The verdict on a PIN submission, in terms of the inputs alone: without
/// a PIN every submission succeeds at once, whatever the lockout and the
/// submission; with a PIN a locked-out client is refused as locked out; a
/// submission that is not 4 to 10 ASCII digits is malformed; a well-formed
/// submission is accepted exactly when it is the PIN, and rejected
/// otherwise.
pub proof fn lemma_pin_verdict_cases(pin: Option<Seq<char>>, locked_out: bool, submitted: Seq<char>)
    ensures
        pin is None ==> pin_verdict(pin, locked_out, submitted) == PinVerdict::NotRequired,
        pin is Some && locked_out ==> pin_verdict(pin, locked_out, submitted)
            == PinVerdict::LockedOut,
        pin is Some && !locked_out && !(4 <= submitted.len() && submitted.len() <= 10 && forall|i: int|
            0 <= i < submitted.len() ==> '0' <= #[trigger] submitted[i] && submitted[i] <= '9')
            ==> pin_verdict(pin, locked_out, submitted) == PinVerdict::InvalidFormat,
        pin is Some && !locked_out && (4 <= submitted.len() && submitted.len() <= 10 && forall|i: int|
            0 <= i < submitted.len() ==> '0' <= #[trigger] submitted[i] && submitted[i] <= '9')
            ==> (pin_verdict(pin, locked_out, submitted) == PinVerdict::Accepted <==> submitted
            == pin->0) && (pin_verdict(pin, locked_out, submitted) == PinVerdict::Rejected
            <==> submitted != pin->0) && (pin_verdict(pin, locked_out, submitted)
            == PinVerdict::Accepted || pin_verdict(pin, locked_out, submitted)
            == PinVerdict::Rejected),
{
}

/// Who is let in: without a PIN everyone, with or without a cookie; with
/// a PIN exactly the holders of a cookie equal to the PIN.
pub proof fn lemma_authenticated_cases(pin: Option<Seq<char>>, cookie: Option<Seq<char>>)
    ensures
        pin is None ==> authenticated(pin, cookie),
        pin is Some ==> (authenticated(pin, cookie) <==> cookie == pin),
{
}

/// The lockout wait is the remaining time rounded up to whole minutes:
/// none once the lockout is over; otherwise the fewest minutes that cover
/// what is left.
pub proof fn lemma_minutes_left_rounds_up(lockout_minutes: nat, elapsed_nanos: nat)
    ensures
        elapsed_nanos >= lockout_minutes * 60_000_000_000 ==> minutes_left(
            lockout_minutes,
            elapsed_nanos,
        ) == 0,
        elapsed_nanos < lockout_minutes * 60_000_000_000 ==> {
            let left = lockout_minutes * 60_000_000_000 - elapsed_nanos;
            let m = minutes_left(lockout_minutes, elapsed_nanos);
            &&& m * 60_000_000_000 >= left
            &&& (m - 1) * 60_000_000_000 < left
        },
{
    if elapsed_nanos < lockout_minutes * 60_000_000_000 {
        let left = lockout_minutes * 60_000_000_000 - elapsed_nanos;
        let m = minutes_left(lockout_minutes, elapsed_nanos) as int;
        assert(m == (left + 59_999_999_999) / 60_000_000_000);
        assert(m * 60_000_000_000 >= left && (m - 1) * 60_000_000_000 < left) by (nonlinear_arith)
            requires
                m == (left + 59_999_999_999) / 60_000_000_000,
                left > 0,
        ;
    }
}

/// A PIN is well formed exactly when it has 4 to 10 characters, each one
/// of `0` to `9`.
pub proof fn lemma_pin_format_digits(s: Seq<char>)
    ensures
        valid_pin_format(s) <==> (4 <= s.len() && s.len() <= 10 && forall|i: int|
            0 <= i < s.len() ==> '0' <= #[trigger] s[i] && s[i] <= '9'),
{
}

} // verus!

use pad::auth::{
    attempts_left, auth_cookie_max_age_secs, cookie_is_secure, is_authenticated, is_valid_pin_format,
    lockout_minutes_left, pin_required_status, secure_compare, verify_pin_decision, PinVerdict,
    VerifyPinPayload,
};

#[test]
fn secure_compare_is_equality() {
    assert!(secure_compare("1234", "1234"));
    assert!(!secure_compare("1234", "1235"));
    assert!(!secure_compare("1234", "12345"));
    assert!(secure_compare("", ""));
}

#[test]
fn everyone_is_authenticated_without_pin() {
    assert!(is_authenticated(None, None));
    assert!(is_authenticated(None, Some("x")));
}

#[test]
fn cookie_must_hold_the_pin() {
    assert!(is_authenticated(Some("1234"), Some("1234")));
    assert!(!is_authenticated(Some("1234"), Some("4321")));
    assert!(!is_authenticated(Some("1234"), None));
}

#[test]
fn pin_format_rules() {
    assert!(is_valid_pin_format("1234"));
    assert!(is_valid_pin_format("0123456789"));
    assert!(!is_valid_pin_format("123"));
    assert!(!is_valid_pin_format("01234567890"));
    assert!(!is_valid_pin_format("12a4"));
    assert!(!is_valid_pin_format("１２３４"));
    assert!(!is_valid_pin_format(""));
}

#[test]
fn verdict_no_pin() {
    assert_eq!(verify_pin_decision(None, true, "x"), PinVerdict::NotRequired);
}

#[test]
fn verdict_locked_out_even_with_right_pin() {
    assert_eq!(verify_pin_decision(Some("1234"), true, "1234"), PinVerdict::LockedOut);
}

#[test]
fn verdict_invalid_format() {
    assert_eq!(verify_pin_decision(Some("1234"), false, "12"), PinVerdict::InvalidFormat);
}

#[test]
fn verdict_accepted_and_cookie_authenticates() {
    let payload = VerifyPinPayload { pin: "1234".to_string() };
    assert_eq!(verify_pin_decision(Some("1234"), false, &payload.pin), PinVerdict::Accepted);
    assert!(is_authenticated(Some("1234"), Some(&payload.pin)));
}

#[test]
fn verdict_rejected() {
    assert_eq!(verify_pin_decision(Some("1234"), false, "4321"), PinVerdict::Rejected);
}

#[test]
fn pin_status_reports() {
    let s = pin_required_status(Some("123456"), false);
    assert!(s.required);
    assert_eq!(s.length, 6);
    assert!(!s.locked);
    let n = pin_required_status(None, true);
    assert!(!n.required);
    assert_eq!(n.length, 0);
    assert!(n.locked);
}

#[test]
fn attempts_left_saturates() {
    assert_eq!(attempts_left(5, 2), 3);
    assert_eq!(attempts_left(5, 5), 0);
    assert_eq!(attempts_left(5, 7), 0);
}

#[test]
fn lockout_minutes_round_up() {
    assert_eq!(lockout_minutes_left(15, 0, 0), 15);
    assert_eq!(lockout_minutes_left(15, 60, 0), 14);
    assert_eq!(lockout_minutes_left(15, 60, 1), 14);
    assert_eq!(lockout_minutes_left(15, 59, 999_999_999), 15);
    assert_eq!(lockout_minutes_left(15, 899, 999_999_999), 1);
    assert_eq!(lockout_minutes_left(15, 900, 0), 0);
    assert_eq!(lockout_minutes_left(15, 5000, 0), 0);
}

#[test]
fn cookie_lifetime() {
    assert_eq!(auth_cookie_max_age_secs(24), 86400);
    assert_eq!(auth_cookie_max_age_secs(0), 0);
}

#[test]
fn secure_cookie_only_for_https_production() {
    assert!(cookie_is_secure("https://pad.example", "production"));
    assert!(!cookie_is_secure("http://pad.example", "production"));
    assert!(!cookie_is_secure("https://pad.example", "development"));
    assert!(!cookie_is_secure("http", "production"));
}

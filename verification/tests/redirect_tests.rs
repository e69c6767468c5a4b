use pad::redirect::{is_valid_redirect_url, serve_login_decision, serve_root_decision, LoginPage, RootPage};

#[test]
fn redirect_accepts_site_paths() {
    assert!(is_valid_redirect_url("/"));
    assert!(is_valid_redirect_url("/notes?id=3"));
    assert!(is_valid_redirect_url("/a%2Gb"));
    assert!(is_valid_redirect_url("/100%25"));
}

#[test]
fn redirect_refuses_empty_and_relative() {
    assert!(!is_valid_redirect_url(""));
    assert!(!is_valid_redirect_url("notes"));
    assert!(!is_valid_redirect_url("https://evil.example/"));
}

#[test]
fn redirect_refuses_protocol_relative() {
    assert!(!is_valid_redirect_url("//evil.example"));
}

#[test]
fn redirect_refuses_backslash() {
    assert!(!is_valid_redirect_url("/\\evil.example"));
    assert!(!is_valid_redirect_url("/a\\b"));
}

#[test]
fn redirect_refuses_encoded_separators_in_any_case() {
    assert!(!is_valid_redirect_url("/%2fevil"));
    assert!(!is_valid_redirect_url("/%2Fevil"));
    assert!(!is_valid_redirect_url("/x/%5cevil"));
    assert!(!is_valid_redirect_url("/x/%5Cevil"));
    assert!(!is_valid_redirect_url("/end%2f"));
}

#[test]
fn root_serves_index_when_authenticated() {
    assert_eq!(serve_root_decision(true, "/anything"), RootPage::ServeIndex);
}

#[test]
fn root_redirects_with_encoded_uri() {
    assert_eq!(
        serve_root_decision(false, "/a b?x=1"),
        RootPage::RedirectToLogin("/login?redirect=%2Fa%20b%3Fx%3D1".to_string())
    );
    assert_eq!(
        serve_root_decision(false, "/Az09"),
        RootPage::RedirectToLogin("/login?redirect=%2FAz09".to_string())
    );
}

#[test]
fn root_redirect_encodes_non_ascii_bytes() {
    assert_eq!(
        serve_root_decision(false, "/é"),
        RootPage::RedirectToLogin("/login?redirect=%2F%C3%A9".to_string())
    );
}

#[test]
fn login_serves_form_when_not_authenticated() {
    assert_eq!(serve_login_decision(false, Some("/notes")), LoginPage::ServeLogin);
    assert_eq!(serve_login_decision(false, None), LoginPage::ServeLogin);
}

#[test]
fn login_redirects_to_valid_target() {
    assert_eq!(serve_login_decision(true, Some("/notes")), LoginPage::Redirect("/notes".to_string()));
}

#[test]
fn login_redirects_home_otherwise() {
    assert_eq!(serve_login_decision(true, Some("//evil")), LoginPage::Redirect("/".to_string()));
    assert_eq!(serve_login_decision(true, None), LoginPage::Redirect("/".to_string()));
}

#[test]
fn login_redirect_parameter_decodes_to_requested_uri() {
    for uri in ["/", "/notes?id=7&x=a b", "/ü/%41", "/+plus"] {
        match serve_root_decision(false, uri) {
            RootPage::RedirectToLogin(loc) => {
                let param = loc.strip_prefix("/login?redirect=").unwrap();
                let decoded = percent_encoding::percent_decode_str(param).decode_utf8().unwrap();
                assert_eq!(decoded, uri);
            }
            RootPage::ServeIndex => panic!("expected a redirect"),
        }
    }
}

use pad::i18n::{browser_language, display_language};
use pad::text::{decimal_string, hex_lower_string, starts_with, str_eq};
use pad::theme::{highlight_stylesheet_url, logout_enabled, next_theme, theme_icon, ThemeIcon};

#[test]
fn themes_cycle() {
    assert_eq!(next_theme("light"), "dark");
    assert_eq!(next_theme("dark"), "nord");
    assert_eq!(next_theme("nord"), "dracula");
    assert_eq!(next_theme("dracula"), "sepia");
    assert_eq!(next_theme("sepia"), "light");
    assert_eq!(next_theme("solarized"), "light");
    let mut t = "nord";
    for _ in 0..5 {
        t = next_theme(t);
    }
    assert_eq!(t, "nord");
}

#[test]
fn theme_icons() {
    assert_eq!(theme_icon("dark"), ThemeIcon::Moon);
    assert_eq!(theme_icon("nord"), ThemeIcon::Droplet);
    assert_eq!(theme_icon("dracula"), ThemeIcon::Sparkles);
    assert_eq!(theme_icon("sepia"), ThemeIcon::Coffee);
    assert_eq!(theme_icon("light"), ThemeIcon::Sun);
    assert_eq!(theme_icon(""), ThemeIcon::Sun);
}

#[test]
fn stylesheet_follows_dark_theme() {
    assert_eq!(
        highlight_stylesheet_url("dark"),
        "https://cdnjs.cloudflare.com/ajax/libs/highlight.js/11.9.0/styles/github-dark.min.css"
    );
    assert_eq!(
        highlight_stylesheet_url("nord"),
        "https://cdnjs.cloudflare.com/ajax/libs/highlight.js/11.9.0/styles/github.min.css"
    );
}

#[test]
fn logout_needs_auth_and_pin() {
    assert!(logout_enabled(true, true));
    assert!(!logout_enabled(true, false));
    assert!(!logout_enabled(false, true));
}

#[test]
fn display_language_by_prefix() {
    assert_eq!(display_language("zh-CN"), "zh");
    assert_eq!(display_language("es"), "es");
    assert_eq!(display_language("de-AT"), "de");
    assert_eq!(display_language("ja"), "ja");
    assert_eq!(display_language("fr-CA"), "fr");
    assert_eq!(display_language("pt-BR"), "pt");
    assert_eq!(display_language("ru"), "ru");
    assert_eq!(display_language("ZH"), "en");
    assert_eq!(display_language("it"), "en");
    assert_eq!(display_language(""), "en");
}

#[test]
fn browser_language_ignores_case() {
    assert_eq!(browser_language("ZH-TW"), "zh");
    assert_eq!(browser_language("De-de"), "de");
    assert_eq!(browser_language("en-US"), "en");
    assert_eq!(browser_language("x"), "en");
}

#[test]
fn decimal_and_hex() {
    assert_eq!(decimal_string(0), "0");
    assert_eq!(decimal_string(1907), "1907");
    assert_eq!(decimal_string(u64::MAX), "18446744073709551615");
    assert_eq!(hex_lower_string(&[0x00, 0x0f, 0xa5, 0xff]), "000fa5ff");
    assert_eq!(hex_lower_string(&[]), "");
}

#[test]
fn string_helpers() {
    assert!(str_eq("abc", "abc"));
    assert!(!str_eq("abc", "abd"));
    assert!(starts_with("https://x", "https"));
    assert!(!starts_with("http", "https"));
}

#[test]
fn language_codes_select_themselves() {
    for tag in ["zh-HK", "es-MX", "de", "ja-JP", "fr", "pt-PT", "ru-RU", "en-GB", "it", ""] {
        let code = display_language(tag);
        assert!(["en", "zh", "es", "de", "ja", "fr", "pt", "ru"].contains(&code));
        assert_eq!(display_language(code), code);
    }
}

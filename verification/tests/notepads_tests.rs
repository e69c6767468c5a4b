use pad::notepads::{default_notepads, is_default_file_name, new_notepad_id, page_history_max_age_secs, Notepad, NotepadsJson};
use pad::rate_limit::AppStateInner;

fn note(id: &str, name: &str) -> Notepad {
    Notepad { id: id.to_string(), name: name.to_string() }
}

fn keep(s: &str) -> Option<String> {
    Some(s.to_string())
}

fn lower_dashes(s: &str) -> Option<String> {
    if s.is_empty() {
        None
    } else {
        Some(s.replace(' ', "-").to_lowercase())
    }
}

#[test]
fn free_name_is_kept() {
    let st = AppStateInner::new();
    let existing = vec![note("a", "Shopping")];
    assert_eq!(st.generate_unique_name("Ideas", &existing, &keep), "Ideas");
}

#[test]
fn taken_names_get_a_counter() {
    let st = AppStateInner::new();
    let existing = vec![note("a", "Ideas"), note("b", "Ideas-1"), note("c", "Ideas-3")];
    assert_eq!(st.generate_unique_name("Ideas", &existing, &keep), "Ideas-2");
}

#[test]
fn names_filed_as_default_are_skipped() {
    let st = AppStateInner::new();
    let existing: Vec<Notepad> = Vec::new();
    assert_eq!(st.generate_unique_name("Default", &existing, &keep), "Default-1");
    assert_eq!(st.generate_unique_name("DEFAULT", &existing, &keep), "DEFAULT-1");
    assert_eq!(st.generate_unique_name("defaults", &existing, &keep), "defaults");
}

#[test]
fn unsanitizable_names_are_not_reserved() {
    let st = AppStateInner::new();
    let existing: Vec<Notepad> = Vec::new();
    let refuse = |_: &str| -> Option<String> { None };
    assert_eq!(st.generate_unique_name("default", &existing, &refuse), "default");
}

#[test]
fn default_file_name_ignores_ascii_case() {
    assert!(is_default_file_name("default"));
    assert!(is_default_file_name("DeFaUlT"));
    assert!(!is_default_file_name("default1"));
    assert!(!is_default_file_name("defaul"));
}

#[test]
fn default_list_has_one_notepad() {
    let d = default_notepads();
    assert_eq!(d.notepads, vec![note("default", "default")]);
}

#[test]
fn untracked_files_become_notepads() {
    let st = AppStateInner::new();
    let notepads = vec![note("default", "default"), note("x1", "My List")];
    let files = vec!["default".to_string(), "my-list".to_string(), "todo".to_string(), "x1".to_string()];
    let (all, added) = st.notepads_with_files(notepads, &files, &lower_dashes);
    assert_eq!(added, 1);
    assert_eq!(all, vec![note("default", "default"), note("x1", "My List"), note("todo", "todo")]);
}

#[test]
fn new_file_names_avoid_taken_names() {
    let st = AppStateInner::new();
    let notepads = vec![note("abc", "notes")];
    let files = vec!["notes".to_string()];
    let (all, added) = st.notepads_with_files(notepads, &files, &|s: &str| Some(format!("{}-file", s)));
    assert_eq!(added, 1);
    assert_eq!(all, vec![note("abc", "notes"), note("notes", "notes-1")]);
}

#[test]
fn files_already_listed_add_nothing() {
    let st = AppStateInner::new();
    let notepads = vec![note("default", "default")];
    let files = vec!["default".to_string()];
    let (all, added) = st.notepads_with_files(notepads.clone(), &files, &keep);
    assert_eq!(added, 0);
    assert_eq!(all, notepads);
}

#[test]
fn new_notepad_is_numbered_and_appended() {
    let st = AppStateInner::new();
    let mut data = NotepadsJson { notepads: vec![note("default", "default")] };
    let n = st.add_new_notepad(&mut data, "id-1".to_string(), &keep);
    assert_eq!(n, note("id-1", "Notepad 2"));
    assert_eq!(data.notepads, vec![note("default", "default"), note("id-1", "Notepad 2")]);
}

#[test]
fn new_notepad_name_made_unique() {
    let st = AppStateInner::new();
    let mut data = NotepadsJson { notepads: vec![note("a", "Notepad 2")] };
    let n = st.add_new_notepad(&mut data, "b".to_string(), &keep);
    assert_eq!(n.name, "Notepad 2-1");
}

#[test]
fn notepad_ids_are_32_hex_digits() {
    let a = new_notepad_id();
    let b = new_notepad_id();
    assert_eq!(a.len(), 32);
    assert!(a.chars().all(|c| c.is_ascii_digit() || ('a'..='f').contains(&c)));
    assert_ne!(a, b);
}

#[test]
fn page_history_cookie_lifetime() {
    assert_eq!(page_history_max_age_secs(30), 2_592_000);
}

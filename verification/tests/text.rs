use argdef::text::{first_char, leading_hyphens, same_text, starts_with};

#[test]
fn leading_hyphens_counts_the_run_at_the_start() {
    assert_eq!(leading_hyphens(""), 0);
    assert_eq!(leading_hyphens("name"), 0);
    assert_eq!(leading_hyphens("-n"), 1);
    assert_eq!(leading_hyphens("--name"), 2);
    assert_eq!(leading_hyphens("---"), 3);
    assert_eq!(leading_hyphens("--a-b--"), 2);
    assert_eq!(leading_hyphens("é--"), 0);
}

#[test]
fn first_char_of_text() {
    assert_eq!(first_char(""), None);
    assert_eq!(first_char("=x"), Some('='));
    assert_eq!(first_char("éa"), Some('é'));
}

#[test]
fn starts_with_compares_characters() {
    assert!(starts_with("name=value", "name"));
    assert!(starts_with("name", "name"));
    assert!(starts_with("name", ""));
    assert!(starts_with("", ""));
    assert!(!starts_with("nam", "name"));
    assert!(!starts_with("", "n"));
    assert!(!starts_with("game", "name"));
    assert!(starts_with("größe=1", "größe"));
    assert!(!starts_with("grosse", "größe"));
}

#[test]
fn same_text_is_equality() {
    assert!(same_text("", ""));
    assert!(same_text("verbose", "verbose"));
    assert!(!same_text("verbose", "verbos"));
    assert!(!same_text("verbos", "verbose"));
    assert!(!same_text("a", "b"));
}

use plsdo::util::{classify_wm, str_contains, str_eq, trim_sides, LinesWithEndings, WM};

#[test]
fn trim_sides_works() {
    let s = "\"Hello world\"";
    assert_eq!(trim_sides(s), "Hello world");
}

#[test]
fn trim_sides_works_on_empty_string() {
    let s = "";
    assert_eq!(trim_sides(s), "");
}

#[test]
fn trim_sides_on_one_and_two_characters() {
    assert_eq!(trim_sides("a"), "");
    assert_eq!(trim_sides("ab"), "");
    assert_eq!(trim_sides("abc"), "b");
}

#[test]
fn lines_with_endings_keeps_newlines() {
    let mut lines = LinesWithEndings::new("one\ntwo\nthree");
    assert_eq!(lines.next(), Some("one\n"));
    assert_eq!(lines.next(), Some("two\n"));
    assert_eq!(lines.next(), Some("three"));
    assert_eq!(lines.next(), None);
}

#[test]
fn lines_with_endings_on_empty_input() {
    let mut lines = LinesWithEndings::new("");
    assert_eq!(lines.next(), None);
}

#[test]
fn lines_with_endings_on_blank_lines() {
    let mut lines = LinesWithEndings::new("\n\n");
    assert_eq!(lines.next(), Some("\n"));
    assert_eq!(lines.next(), Some("\n"));
    assert_eq!(lines.next(), None);
}

#[test]
fn classify_wm_recognizes_hyprland() {
    assert_eq!(classify_wm(Some("Hyprland")), WM::Hyprland);
    assert_eq!(classify_wm(Some("sway")), WM::GenericX11);
    assert_eq!(classify_wm(None), WM::GenericX11);
}

#[test]
fn str_eq_compares_characters() {
    assert!(str_eq("abc", "abc"));
    assert!(!str_eq("abc", "abd"));
    assert!(!str_eq("abc", "ab"));
}

#[test]
fn str_contains_finds_substrings() {
    assert!(str_contains("alsa_output.pci-0000", "pci"));
    assert!(str_contains("anything", ""));
    assert!(!str_contains("short", "longer than the haystack"));
    assert!(!str_contains("abcdef", "ace"));
}

use film_notes::rules::{NameRules, PatternError};

fn rules() -> NameRules {
    NameRules::new().expect("the patterns compile")
}

#[test]
fn both_patterns_compile() {
    assert!(NameRules::new().is_ok());
}

#[test]
fn a_folder_name_is_digits_and_nothing_else() {
    let rules = rules();
    for name in ["0", "7", "001", "123", "20240131"] {
        assert!(rules.is_folder_name(name), "{:?} is a folder name", name);
    }
    for name in ["", " ", "12a", "a12", "1 2", "1.md", "-1", "+1", "1.", "12\n", "\n12", "1/2"] {
        assert!(!rules.is_folder_name(name), "{:?} is no folder name", name);
    }
}

#[test]
fn digits_of_other_scripts_are_no_digits() {
    let rules = rules();
    assert!(!rules.is_folder_name("\u{661}\u{662}\u{663}"));
    assert!(!rules.is_folder_name("\u{ff11}"));
    assert!(!rules.is_note_name("\u{661}.md"));
}

#[test]
fn a_note_name_is_digits_and_the_markdown_ending() {
    let rules = rules();
    for name in ["0.md", "4.md", "123.md", "00001.md"] {
        assert!(rules.is_note_name(name), "{:?} is a note name", name);
    }
    for name in [
        "",
        ".md",
        "123",
        "123md",
        "123xmd",
        "123.MD",
        "123.md ",
        " 123.md",
        "123.md\n",
        "123.mdx",
        "123.txt",
        "notvalid_5.md",
        "5_notes.md",
        "a5.md",
        "1.2.md",
    ] {
        assert!(!rules.is_note_name(name), "{:?} is no note name", name);
    }
}

#[test]
fn the_first_pattern_that_failed_is_reported() {
    let good_folder = || regex::Regex::new("^[0-9]+$");
    let good_note = || regex::Regex::new("^[0-9]+\\.md$");
    let bad = || regex::Regex::new("(");

    assert!(NameRules::from_compiled(good_folder(), good_note()).is_ok());
    assert_eq!(NameRules::from_compiled(bad(), good_note()).err(), Some(PatternError::Folder));
    assert_eq!(NameRules::from_compiled(good_folder(), bad()).err(), Some(PatternError::Note));
    assert_eq!(NameRules::from_compiled(bad(), bad()).err(), Some(PatternError::Folder));
}

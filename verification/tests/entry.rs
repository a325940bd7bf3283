use film_notes::entry::{
    accepts_time, append_film_viewing, checked_time, choose_time, format_entry, has_clock_shape,
    plan_append, PlannedAppend,
};
use film_notes::latest::ResolveError;
use film_notes::listing::list_film_viewings;
use film_notes::path::NotePath;

fn path_of(names: &[&str]) -> NotePath {
    NotePath { components: names.iter().map(|name| name.to_string()).collect() }
}

/// What a note holds once `content` was appended to it as a line.
fn appended(note: &str, content: &str) -> String {
    format!("{}{}\n", note, content)
}

/// The identifier in the metadata line of `content`.
fn uid_in(content: &str) -> String {
    let from = content.find("{uid: ").expect("the metadata names the identifier") + 6;
    content[from..from + 36].to_string()
}

fn is_version_4_uid(uid: &str) -> bool {
    let chars: Vec<char> = uid.chars().collect();
    chars.len() == 36
        && chars.iter().enumerate().all(|(i, c)| match i {
            8 | 13 | 18 | 23 => *c == '-',
            _ => c.is_ascii_digit() || ('a'..='f').contains(c),
        })
        && chars[14] == '4'
        && ['8', '9', 'a', 'b'].contains(&chars[19])
}

#[test]
fn test_run_append_film_viewing_with_time() {
    let not_files = vec![path_of(&["00001.md"])];
    let note = "Film viewings\n";

    let result = append_film_viewing(&not_files, "Inception", Some("20:00"));
    assert!(result.is_ok());

    let plan = result.unwrap();
    assert_eq!(plan.target, path_of(&["00001.md"]));
    let file_content = appended(note, &plan.content);
    assert!(file_content.contains("Inception - 20:00"));
}

#[test]
fn test_run_append_film_viewing_without_time() {
    let not_files = vec![path_of(&["00001.md"])];
    let note = "Film viewings\n";

    let before = chrono::Local::now().format("%H:%M").to_string();
    let result = append_film_viewing(&not_files, "The Prestige", None);
    let after = chrono::Local::now().format("%H:%M").to_string();
    assert!(result.is_ok());

    let file_content = appended(note, &result.unwrap().content);
    assert!(
        file_content.contains(&format!("The Prestige - {}", before))
            || file_content.contains(&format!("The Prestige - {}", after))
    );
}

#[test]
fn test_run_append_film_viewing_with_invalid_time() {
    let not_files = vec![path_of(&["00001.md"])];
    let note = "Film viewings\n";

    let before = chrono::Local::now().format("%H:%M").to_string();
    let result = append_film_viewing(&not_files, "Memento", Some("invalid_time"));
    let after = chrono::Local::now().format("%H:%M").to_string();
    assert!(result.is_ok());

    let file_content = appended(note, &result.unwrap().content);
    assert!(
        file_content.contains(&format!("Memento - {}", before))
            || file_content.contains(&format!("Memento - {}", after))
    );
}

#[test]
fn an_entry_is_written_line_by_line() {
    assert_eq!(
        format_entry("0f8fad5b-d9cb-469f-a165-70867728950e", "20:00", "Inception"),
        "\n## [nost-film] Visionnage\n\n[//]: # \"not_film:{uid: 0f8fad5b-d9cb-469f-a165-70867728950e, time: 20:00, name: Inception }\"\n\nInception - 20:00"
    );
    assert_eq!(
        format_entry("", "", ""),
        "\n## [nost-film] Visionnage\n\n[//]: # \"not_film:{uid: , time: , name:  }\"\n\n - "
    );
}

#[test]
fn a_clock_text_is_two_digits_a_colon_and_two_digits() {
    for text in ["00:00", "20:00", "23:59", "99:99", "07:05"] {
        assert!(has_clock_shape(text), "{:?} has the shape", text);
    }
    for text in [
        "", "7:15", "07:5", "0715", "07-15", "07:15 ", " 07:15", "07:15:00", "ab:cd",
        "invalid_time",
        "\n20:00", "20:00\n", "2\u{662}:00", "20:0\u{ff10}",
    ] {
        assert!(!has_clock_shape(text), "{:?} has not the shape", text);
    }
}

#[test]
fn a_time_is_accepted_where_it_is_a_time_of_day_in_full() {
    for text in ["00:00", "20:00", "23:59", "07:05", "12:30"] {
        assert!(accepts_time(text), "{:?} is accepted", text);
    }
    for text in [
        "24:00", "12:60", "99:99", "7:15", " 7:15", "\n20:00", "20:00\r", "20:00:00", "8pm", "",
        "invalid_time",
    ] {
        assert!(!accepts_time(text), "{:?} is not accepted", text);
    }
}

#[test]
fn the_time_given_is_kept_where_it_is_accepted() {
    assert_eq!(choose_time(Some("20:00"), true, "09:41"), "20:00");
    assert_eq!(choose_time(Some("20:00"), false, "09:41"), "09:41");
    assert_eq!(choose_time(None, true, "09:41"), "09:41");
    assert_eq!(choose_time(None, false, "09:41"), "09:41");

    assert_eq!(checked_time(Some("20:00"), "09:41"), "20:00");
    assert_eq!(checked_time(Some("00:00"), "09:41"), "00:00");
    assert_eq!(checked_time(None, "09:41"), "09:41");
}

#[test]
fn a_time_that_is_not_accepted_counts_as_none() {
    for given in ["invalid_time", "24:00", "7:15", "", "20:00\n", "12:60"] {
        assert_eq!(checked_time(Some(given), "09:41"), checked_time(None, "09:41"));
        assert_eq!(checked_time(Some(given), "09:41"), "09:41");
    }
}

#[test]
fn the_entry_goes_to_the_last_note() {
    let not_files = vec![path_of(&["001", "001.md"]), path_of(&["002", "002.md"])];

    let plan = plan_append(&not_files, "uid", "20:00", "Inception");

    assert_eq!(
        plan,
        Ok(PlannedAppend {
            target: path_of(&["002", "002.md"]),
            content: format_entry("uid", "20:00", "Inception"),
        })
    );
}

#[test]
fn without_a_note_there_is_nothing_to_append_to() {
    let not_files: Vec<NotePath> = Vec::new();

    assert_eq!(plan_append(&not_files, "uid", "20:00", "Inception"), Err(ResolveError::NotFound));
    assert_eq!(
        append_film_viewing(&not_files, "Inception", Some("20:00")),
        Err(ResolveError::NotFound)
    );
    assert_eq!(append_film_viewing(&not_files, "Inception", None), Err(ResolveError::NotFound));
}

#[test]
fn every_entry_has_an_identifier_of_its_own() {
    let not_files = vec![path_of(&["1.md"])];

    let first = append_film_viewing(&not_files, "Inception", Some("20:00")).unwrap();
    let second = append_film_viewing(&not_files, "Inception", Some("20:00")).unwrap();

    let first_uid = uid_in(&first.content);
    let second_uid = uid_in(&second.content);
    assert!(is_version_4_uid(&first_uid), "{:?}", first_uid);
    assert!(is_version_4_uid(&second_uid), "{:?}", second_uid);
    assert_ne!(first_uid, second_uid);
    assert_eq!(first.content, format_entry(&first_uid, "20:00", "Inception"));
    assert_eq!(second.content, format_entry(&second_uid, "20:00", "Inception"));
}

#[test]
fn the_current_time_is_written_as_a_clock_text() {
    let not_files = vec![path_of(&["1.md"])];

    let plan = append_film_viewing(&not_files, "Memento", None).unwrap();

    let shown = plan.content.lines().last().expect("the entry ends with its display line");
    let time = shown.strip_prefix("Memento - ").expect("the display line leads with the title");
    assert!(has_clock_shape(time), "{:?}", time);
    assert!(accepts_time(time), "{:?}", time);
    assert_eq!(plan.content, format_entry(&uid_in(&plan.content), time, "Memento"));
}

#[test]
fn what_is_appended_is_listed() {
    let not_files = vec![
        path_of(&["001", "001.md"]),
        path_of(&["002", "002.md"]),
    ];
    let note = "";

    let plan = append_film_viewing(&not_files, "Inception", Some("20:00")).unwrap();
    assert_eq!(plan.target, path_of(&["002", "002.md"]));

    let file_content = appended(note, &plan.content);
    assert!(file_content.lines().any(|line| line == "Inception - 20:00"));
    assert_eq!(list_film_viewings(&file_content), vec!["Inception - 20:00".to_string()]);
}

use film_notes::entry::format_entry;
use film_notes::listing::list_film_viewings;

const UID: &str = "0f8fad5b-d9cb-469f-a165-70867728950e";

fn appended(note: &str, content: &str) -> String {
    format!("{}{}\n", note, content)
}

fn none() -> Vec<String> {
    Vec::new()
}

#[test]
fn a_note_without_marker_lists_nothing() {
    assert_eq!(list_film_viewings(""), none());
    assert_eq!(list_film_viewings("Film viewings\n"), none());
    assert_eq!(list_film_viewings("a\nb\nc\nd\ne\nf\n"), none());
    assert_eq!(list_film_viewings("[nost-film] visionnage\n\n\n\nx\n"), none());
}

#[test]
fn the_line_four_lines_below_the_marker_is_listed() {
    let note = "## [nost-film] Visionnage\n1\n2\n3\n4\n5\n";
    assert_eq!(list_film_viewings(note), vec!["4".to_string()]);
}

#[test]
fn the_marker_counts_wherever_it_stands_in_its_line() {
    let note = "so [nost-film] Visionnage it is\n1\n2\n3\nshown\n";
    assert_eq!(list_film_viewings(note), vec!["shown".to_string()]);
    let note = "[nost-film] Visionnage\n1\n2\n3\nshown";
    assert_eq!(list_film_viewings(note), vec!["shown".to_string()]);
}

#[test]
fn a_marker_with_fewer_than_four_lines_below_lists_nothing() {
    assert_eq!(list_film_viewings("## [nost-film] Visionnage"), none());
    assert_eq!(list_film_viewings("## [nost-film] Visionnage\n"), none());
    assert_eq!(list_film_viewings("## [nost-film] Visionnage\n1\n"), none());
    assert_eq!(list_film_viewings("## [nost-film] Visionnage\n1\n2\n"), none());
    assert_eq!(list_film_viewings("## [nost-film] Visionnage\n1\n2\n3\n"), none());
    assert_eq!(list_film_viewings("## [nost-film] Visionnage\n1\n2\n3\n\n"), vec!["".to_string()]);
}

#[test]
fn a_cut_off_entry_does_not_hide_the_entries_above_it() {
    let mut note = appended("Film viewings\n", &format_entry(UID, "20:00", "Inception"));
    note.push_str("\n## [nost-film] Visionnage\n\n[//]: # \"not_film:{uid: x");

    assert_eq!(list_film_viewings(&note), vec!["Inception - 20:00".to_string()]);
}

#[test]
fn entries_are_listed_in_the_order_of_the_note() {
    let mut note = String::from("Film viewings\n");
    note = appended(&note, &format_entry(UID, "20:00", "Inception"));
    note = appended(&note, &format_entry(UID, "22:30", "The Prestige"));
    note.push_str("some words in between\n");
    note = appended(&note, &format_entry(UID, "09:05", "Memento"));

    assert_eq!(
        list_film_viewings(&note),
        vec![
            "Inception - 20:00".to_string(),
            "The Prestige - 22:30".to_string(),
            "Memento - 09:05".to_string(),
        ]
    );
}

#[test]
fn an_entry_appended_to_a_note_is_listed_last() {
    let notes = [
        "",
        "\n",
        "Film viewings",
        "Film viewings\n",
        "Film viewings\r\n",
        "Film viewings\r",
        "## [nost-film] Visionnage",
        "## [nost-film] Visionnage\n\n",
        "## [nost-film] Visionnage\n1\n2\n3\n4\n",
    ];
    let titles =
        ["Inception", "", "a - b", "with\rreturn", "[nost-film] Visionnage", "\u{c9}t\u{e9}"];
    for note in notes {
        for title in titles {
            let after = appended(note, &format_entry(UID, "20:00", title));
            let listed = list_film_viewings(&after);
            assert_eq!(
                listed.last(),
                Some(&format!("{} - 20:00", title)),
                "note {:?}, title {:?}",
                note,
                title
            );
        }
    }
}

#[test]
fn lines_end_at_line_feeds_with_or_without_a_return() {
    let note = "## [nost-film] Visionnage\r\n1\r\n2\r\n3\r\nshown\r\n";
    assert_eq!(list_film_viewings(note), vec!["shown".to_string()]);
    let note = "## [nost-film] Visionnage\n1\n2\n3\nshown\r";
    assert_eq!(list_film_viewings(note), vec!["shown\r".to_string()]);
    let note = "## [nost-film] Visionnage\n1\r2\n3\n4\nshown\n";
    assert_eq!(list_film_viewings(note), vec!["shown".to_string()]);
    let note = "## [nost-film] Visionnage\n\n\n\n\r\r\n";
    assert_eq!(list_film_viewings(note), vec!["\r".to_string()]);
}

#[test]
fn the_lines_are_those_that_the_standard_library_reads() {
    let notes = [
        "",
        "\n",
        "\r\n",
        "\r",
        "a",
        "a\n",
        "a\r\n\r\nb",
        "[nost-film] Visionnage\n[nost-film] Visionnage\n\n\r\n\u{e9}\nlast\n\nend",
        "x[nost-film] Visionnage\r\n\n\n\n[nost-film] Visionnage\n\n\n\n\n",
    ];
    for note in notes {
        let lines: Vec<&str> = note.lines().collect();
        let mut expected = Vec::new();
        for (i, line) in lines.iter().enumerate() {
            if line.contains("[nost-film] Visionnage") && i + 4 < lines.len() {
                expected.push(lines[i + 4].to_string());
            }
        }
        assert_eq!(list_film_viewings(note), expected, "note {:?}", note);
    }
}

#[test]
fn a_display_line_that_bears_the_marker_is_listed_as_the_line_it_is() {
    let note = "[nost-film] Visionnage\n\n\n\n[nost-film] Visionnage too\n\n\n\nend\n";
    assert_eq!(
        list_film_viewings(note),
        vec!["[nost-film] Visionnage too".to_string(), "end".to_string()]
    );
}

#[test]
fn every_short_note_is_read_as_the_standard_library_reads_it() {
    let pieces = ["x", "\n", "\r", "[nost-film] Visionnage"];
    let mut notes = vec![String::new()];
    let mut longest = vec![String::new()];
    for _ in 0..7 {
        let mut longer = Vec::new();
        for note in &longest {
            for piece in pieces {
                longer.push(format!("{}{}", note, piece));
            }
        }
        notes.extend(longer.iter().cloned());
        longest = longer;
    }
    assert_eq!(notes.len(), 21845);

    for note in &notes {
        let lines: Vec<&str> = note.lines().collect();
        let mut expected = Vec::new();
        for (i, line) in lines.iter().enumerate() {
            if line.contains("[nost-film] Visionnage") && i + 4 < lines.len() {
                expected.push(lines[i + 4].to_string());
            }
        }
        assert_eq!(list_film_viewings(note), expected, "note {:?}", note);
    }
}

#[test]
fn an_append_leaves_what_was_listed_as_it_was() {
    let notes = [
        "",
        "Film viewings",
        "Film viewings\n",
        "## [nost-film] Visionnage\n1\n2\n3\nshown",
        "## [nost-film] Visionnage\n1\n2\n3\nshown\n",
        "## [nost-film] Visionnage\n1\n2\n3\nshown\r\n",
        "## [nost-film] Visionnage\n1\n2\n3\nshown\n## [nost-film] Visionnage\n\n",
        "[nost-film] Visionnage\n[nost-film] Visionnage\n\n\na\nb",
    ];
    for note in notes {
        let before = list_film_viewings(note);
        let after = list_film_viewings(&appended(note, &format_entry(UID, "20:00", "Inception")));
        assert!(after.len() > before.len(), "note {:?}", note);
        assert_eq!(after[..before.len()], before[..], "note {:?}", note);
        assert_eq!(after.last(), Some(&"Inception - 20:00".to_string()), "note {:?}", note);
    }
}

#[test]
fn a_note_that_ends_in_a_return_loses_it_to_the_line_feed_of_an_append() {
    let note = "## [nost-film] Visionnage\n1\n2\n3\nshown\r";
    assert_eq!(list_film_viewings(note), vec!["shown\r".to_string()]);

    let after = appended(note, &format_entry(UID, "20:00", "Inception"));
    assert_eq!(
        list_film_viewings(&after),
        vec!["shown".to_string(), "Inception - 20:00".to_string()]
    );
}

use film_notes::path::{sort_paths, NotePath};
use film_notes::text::{chars_of, precedence_of_text, string_of, Precedence};

fn path_of(names: &[&str]) -> NotePath {
    NotePath { components: names.iter().map(|name| name.to_string()).collect() }
}

#[test]
fn a_string_is_read_character_by_character() {
    assert_eq!(chars_of(""), Vec::<char>::new());
    assert_eq!(chars_of("a\u{e9}\n"), vec!['a', '\u{e9}', '\n']);
}

#[test]
fn a_string_is_made_of_the_characters_between_two_places() {
    let chars = chars_of("ab\u{e9}d\n");
    assert_eq!(string_of(&chars, 0, 5), "ab\u{e9}d\n");
    assert_eq!(string_of(&chars, 1, 3), "b\u{e9}");
    assert_eq!(string_of(&chars, 2, 2), "");
    assert_eq!(string_of(&chars, 5, 5), "");
}

#[test]
fn strings_stand_in_lexicographic_order() {
    assert_eq!(precedence_of_text("", ""), Precedence::Same);
    assert_eq!(precedence_of_text("abc", "abc"), Precedence::Same);
    assert_eq!(precedence_of_text("", "a"), Precedence::Before);
    assert_eq!(precedence_of_text("a", ""), Precedence::After);
    assert_eq!(precedence_of_text("ab", "abc"), Precedence::Before);
    assert_eq!(precedence_of_text("abd", "abc"), Precedence::After);
    assert_eq!(precedence_of_text("10", "9"), Precedence::Before);
    assert_eq!(precedence_of_text("Z", "a"), Precedence::Before);
    assert_eq!(precedence_of_text("z", "\u{e9}"), Precedence::Before);
    assert_eq!(precedence_of_text("\u{10000}", "\u{ffff}"), Precedence::After);
}

#[test]
fn the_order_of_strings_is_that_of_the_standard_library() {
    let samples = ["", "0", "00", "1", "1.md", "10", "2", "a", "A", "\u{e9}", "mock_file1_123.md"];
    for a in samples {
        for b in samples {
            let expected = if a < b {
                Precedence::Before
            } else if a == b {
                Precedence::Same
            } else {
                Precedence::After
            };
            assert_eq!(precedence_of_text(a, b), expected, "{:?} against {:?}", a, b);
        }
    }
}

#[test]
fn paths_stand_in_order_level_by_level() {
    let root = path_of(&[]);
    assert_eq!(root.precedence(&path_of(&[])), Precedence::Same);
    assert_eq!(root.precedence(&path_of(&["1"])), Precedence::Before);
    assert_eq!(path_of(&["1"]).precedence(&root), Precedence::After);
    assert_eq!(path_of(&["1", "2.md"]).precedence(&path_of(&["1", "2.md"])), Precedence::Same);
    assert_eq!(path_of(&["1", "2.md"]).precedence(&path_of(&["1", "3.md"])), Precedence::Before);
    assert_eq!(path_of(&["2", "1.md"]).precedence(&path_of(&["1", "3.md"])), Precedence::After);
    assert_eq!(path_of(&["1", "2.md"]).precedence(&path_of(&["1.md"])), Precedence::Before);
    assert_eq!(path_of(&["1"]).precedence(&path_of(&["1", "0"])), Precedence::Before);
}

#[test]
fn the_root_and_its_children() {
    assert_eq!(NotePath::root(), path_of(&[]));
    assert_eq!(NotePath::root().child("001"), path_of(&["001"]));
    assert_eq!(path_of(&["001"]).child("001.md"), path_of(&["001", "001.md"]));
    assert_eq!(path_of(&["001", "7.md"]).duplicate(), path_of(&["001", "7.md"]));
}

#[test]
fn sorting_keeps_every_path_and_puts_them_in_order() {
    let paths = vec![
        path_of(&["3.md"]),
        path_of(&["1", "2.md"]),
        path_of(&["3.md"]),
        path_of(&["1.md"]),
        path_of(&["1", "10.md"]),
        path_of(&[]),
    ];

    assert_eq!(
        sort_paths(paths),
        vec![
            path_of(&[]),
            path_of(&["1", "10.md"]),
            path_of(&["1", "2.md"]),
            path_of(&["1.md"]),
            path_of(&["3.md"]),
            path_of(&["3.md"]),
        ]
    );
    assert_eq!(sort_paths(Vec::new()), Vec::<NotePath>::new());
}

#[test]
fn sorting_agrees_with_the_order_of_lists_of_strings() {
    let samples: [&[&str]; 6] =
        [&[], &["1"], &["1", "2.md"], &["1.md"], &["10", "1.md"], &["2", "\u{e9}.md"]];
    let mut runs: Vec<Vec<usize>> = vec![Vec::new()];
    for _ in 0..4 {
        let mut longer = Vec::new();
        for run in &runs {
            for pick in 0..samples.len() {
                let mut next = run.clone();
                next.push(pick);
                longer.push(next);
            }
        }
        runs.extend(longer);
        runs.sort();
        runs.dedup();
    }
    assert_eq!(runs.len(), 1 + 6 + 36 + 216 + 1296);

    for run in &runs {
        let paths: Vec<NotePath> = run.iter().map(|pick| path_of(samples[*pick])).collect();
        let mut expected: Vec<Vec<String>> =
            paths.iter().map(|path| path.components.clone()).collect();
        expected.sort();
        let sorted: Vec<Vec<String>> =
            sort_paths(paths).into_iter().map(|path| path.components).collect();
        assert_eq!(sorted, expected, "run {:?}", run);
    }
}

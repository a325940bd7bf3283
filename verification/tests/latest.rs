use film_notes::latest::{get_last_not_path, ResolveError};
use film_notes::path::NotePath;

fn path_of(names: &[&str]) -> NotePath {
    NotePath { components: names.iter().map(|name| name.to_string()).collect() }
}

#[test]
fn test_get_last_not_path_with_mock() {
    let not_files = vec![path_of(&["mock_file1_123.md"]), path_of(&["mock_file2_456.md"])];

    let last_file = get_last_not_path(&not_files).expect("No files found");
    assert_eq!(
        last_file,
        path_of(&["mock_file2_456.md"]),
        "The last file does not match the expected result"
    );
}

#[test]
fn last_of_nothing_is_not_found() {
    let not_files: Vec<NotePath> = Vec::new();
    assert_eq!(get_last_not_path(&not_files), Err(ResolveError::NotFound));
}

#[test]
fn the_last_is_taken_as_it_stands() {
    let not_files = vec![path_of(&["2", "1.md"]), path_of(&["1", "1.md"])];
    assert_eq!(get_last_not_path(&not_files), Ok(path_of(&["1", "1.md"])));
}

#[test]
fn not_found_says_so_in_words() {
    assert_eq!(
        ResolveError::NotFound.message(),
        "No `.md` files found in the specified directory"
    );
}

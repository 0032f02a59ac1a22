use portal_gtk::wire::FilePath;
use portal_gtk::save_set::{
    decimal_string, join_path, leaf_name, resolve_destinations, selected_directory, unique_name, unique_names,
    validate_file_name, validate_file_names, SaveFilesError,
};

fn strings(v: &[&str]) -> Vec<String> {
    v.iter().map(|s| s.to_string()).collect()
}

fn paths(v: &[&str]) -> Vec<FilePath> {
    v.iter().map(|s| FilePath(s.to_string())).collect()
}

#[test]
fn validator_rejects_absolute_path() {
    assert_eq!(validate_file_name(&"/etc/passwd".to_string()), Err(SaveFilesError::AbsolutePath));
}

#[test]
fn validator_rejects_multiple_components() {
    assert_eq!(validate_file_name(&"a/b".to_string()), Err(SaveFilesError::MultipleComponents));
    assert_eq!(validate_file_name(&"./a".to_string()), Err(SaveFilesError::MultipleComponents));
    assert_eq!(validate_file_name(&"a/..".to_string()), Err(SaveFilesError::MultipleComponents));
}

#[test]
fn validator_rejects_special_paths() {
    assert_eq!(validate_file_name(&".".to_string()), Err(SaveFilesError::SpecialPath));
    assert_eq!(validate_file_name(&"..".to_string()), Err(SaveFilesError::SpecialPath));
    assert_eq!(validate_file_name(&"./".to_string()), Err(SaveFilesError::SpecialPath));
    assert_eq!(validate_file_name(&"..//".to_string()), Err(SaveFilesError::SpecialPath));
}

#[test]
fn validator_accepts_plain_names() {
    assert_eq!(validate_file_name(&"report.txt".to_string()), Ok(()));
    assert_eq!(validate_file_name(&"notes".to_string()), Ok(()));
    assert_eq!(validate_file_name(&".hidden".to_string()), Ok(()));
    assert_eq!(validate_file_name(&"...".to_string()), Ok(()));
    assert_eq!(validate_file_name(&"a/".to_string()), Ok(()));
    assert_eq!(validate_file_name(&"a/.".to_string()), Ok(()));
}

#[test]
fn validator_rejects_whole_batch() {
    let batch = strings(&["ok.txt", "a/b", "/etc/passwd"]);
    assert_eq!(validate_file_names(&batch), Err(SaveFilesError::MultipleComponents));
    let batch = strings(&["ok.txt", "fine"]);
    assert_eq!(validate_file_names(&batch), Ok(()));
    assert_eq!(validate_file_names(&Vec::new()), Ok(()));
}

#[test]
fn decimal_rendering() {
    assert_eq!(decimal_string(0), "0");
    assert_eq!(decimal_string(7), "7");
    assert_eq!(decimal_string(1234), "1234");
    assert_eq!(decimal_string(u64::MAX), "18446744073709551615");
}

#[test]
fn uniquifier_scenario() {
    let listing = strings(&["report.txt"]);
    let out = unique_names(&listing, &strings(&["report.txt", "notes"]));
    assert_eq!(out, strings(&["report (1).txt", "notes"]));
    let listing = strings(&["report.txt", "notes"]);
    let out = unique_names(&listing, &strings(&["report.txt", "notes"]));
    assert_eq!(out, strings(&["report (1).txt", "notes (1)"]));
}

#[test]
fn uniquifier_avoids_existing_names() {
    let listing = strings(&["a.tar.gz", "a (1).tar.gz", "a (2).tar.gz", "b"]);
    let names = strings(&["a.tar.gz", "b", "c"]);
    let out = unique_names(&listing, &names);
    assert_eq!(out.len(), names.len());
    assert_eq!(out, strings(&["a (3).tar.gz", "b (1)", "c"]));
    for o in &out {
        assert!(!listing.contains(o));
    }
}

#[test]
fn uniquifier_splits_at_first_dot() {
    let listing = strings(&[".bashrc"]);
    assert_eq!(unique_name(&listing, &".bashrc".to_string()), " (1).bashrc");
    assert_eq!(unique_names(&listing, &Vec::new()), Vec::<String>::new());
}

#[test]
fn join_places_name_in_directory() {
    assert_eq!(join_path(&"/home/u".to_string(), &"x".to_string()), "/home/u/x");
    assert_eq!(join_path(&"/".to_string(), &"x".to_string()), "/x");
    assert_eq!(join_path(&"".to_string(), &"x".to_string()), "x");
    assert_eq!(join_path(&"/home".to_string(), &"/etc".to_string()), "/etc");
}

#[test]
fn destinations_are_file_uris() {
    let listing = strings(&["report.txt"]);
    let out = resolve_destinations(&"/home/u/Documents".to_string(), &listing, &paths(&["report.txt", "notes"]));
    assert_eq!(
        out,
        Ok(strings(&["file:///home/u/Documents/report%20(1).txt", "file:///home/u/Documents/notes"]))
    );
}

#[test]
fn destinations_in_relative_directory_fail() {
    let out = resolve_destinations(&"rel".to_string(), &Vec::new(), &paths(&["x"]));
    assert_eq!(out, Err(SaveFilesError::UniqueNotValidUri));
}

#[test]
fn selected_directory_needs_exactly_one_uri() {
    assert_eq!(selected_directory(&Vec::new()), Err(SaveFilesError::NotExactlyOnePath));
    let two = strings(&["file:///a", "file:///b"]);
    assert_eq!(selected_directory(&two), Err(SaveFilesError::NotExactlyOnePath));
}

#[test]
fn selected_directory_decodes_file_uri() {
    assert_eq!(selected_directory(&strings(&["file:///tmp/dir"])), Ok("/tmp/dir".to_string()));
    assert_eq!(selected_directory(&strings(&["file:///tmp/a%20b"])), Ok("/tmp/a b".to_string()));
}

#[test]
fn selected_directory_errors() {
    assert_eq!(selected_directory(&strings(&["not a uri"])), Err(SaveFilesError::SelectedNotValidUri));
    assert_eq!(
        selected_directory(&strings(&["https://example.com/x"])),
        Err(SaveFilesError::SelectedNotValidPath)
    );
}

#[test]
fn leaf_is_text_before_first_slash() {
    assert_eq!(leaf_name(&"a/".to_string()), "a");
    assert_eq!(leaf_name(&"a/.".to_string()), "a");
    assert_eq!(leaf_name(&"notes".to_string()), "notes");
    assert_eq!(leaf_name(&"".to_string()), "");
}

#[test]
fn trailing_slash_names_collide_with_their_component() {
    let listing = strings(&["a"]);
    let out = resolve_destinations(&"/d".to_string(), &listing, &paths(&["a/", "a/.", "b/"]));
    assert_eq!(out, Ok(strings(&["file:///d/a%20(1)", "file:///d/a%20(1)", "file:///d/b"])));
}

use giv::backend::RawChange;
use giv::diff::{compute_diff, contained_diff, diff_text, failure_diff, insert_sorted, line_diff};
use giv::model::{BackendError, FileChange, FileModificationKind};

fn change(kind: FileModificationKind, path: &str, previous: Option<&[u8]>, current: Option<&[u8]>) -> RawChange {
    RawChange {
        kind,
        path: path.to_string(),
        previous: previous.map(|b| b.to_vec()),
        current: current.map(|b| b.to_vec()),
    }
}

fn paths(files: &[FileChange]) -> Vec<String> {
    files.iter().map(|f| f.path.clone()).collect()
}

#[test]
fn files_are_sorted_by_path() {
    let changes = vec![
        change(FileModificationKind::Modification, "z.txt", Some(b"1\n"), Some(b"2\n")),
        change(FileModificationKind::Modification, "a.txt", Some(b"1\n"), Some(b"2\n")),
        change(FileModificationKind::Addition, "m.txt", None, Some(b"new\n")),
    ];
    let diff = compute_diff(&changes).unwrap();
    assert_eq!(paths(&diff.files), vec!["a.txt", "m.txt", "z.txt"]);
    assert_eq!(diff.files[1].kind, FileModificationKind::Addition);
    assert_eq!(diff.files[0].kind, FileModificationKind::Modification);
}

#[test]
fn sorting_is_by_bytes_and_keeps_the_order_of_equal_paths() {
    let changes = vec![
        change(FileModificationKind::Deletion, "b", None, None),
        change(FileModificationKind::Deletion, "B", None, None),
        change(FileModificationKind::Addition, "b", None, None),
        change(FileModificationKind::Deletion, "a/b", None, None),
        change(FileModificationKind::Deletion, "a", None, None),
    ];
    let diff = compute_diff(&changes).unwrap();
    assert_eq!(paths(&diff.files), vec!["B", "a", "a/b", "b", "b"]);
    assert_eq!(diff.files[3].kind, FileModificationKind::Deletion);
    assert_eq!(diff.files[4].kind, FileModificationKind::Addition);
}

#[test]
fn paths_lose_the_white_space_around_them() {
    let changes = vec![change(FileModificationKind::Deletion, " spaced.txt\n", None, None)];
    let diff = compute_diff(&changes).unwrap();
    assert_eq!(diff.files[0].path, "spaced.txt");
}

#[test]
fn no_changes_give_an_empty_diff() {
    let diff = compute_diff(&Vec::new()).unwrap();
    assert!(diff.files.is_empty());
}

#[test]
fn modification_is_a_unified_diff_with_context() {
    let text = line_diff(b"a\nb\nc\n", b"a\nx\nc\n").unwrap();
    assert_eq!(text, "@@ -1,3 +1,3 @@\n a\n-b\n+x\n c\n");
}

#[test]
fn context_is_three_lines_on_either_side() {
    let before = b"1\n2\n3\n4\n5\n6\n7\n8\n9\n";
    let after = b"1\n2\n3\n4\nfive\n6\n7\n8\n9\n";
    let text = line_diff(before, after).unwrap();
    assert_eq!(text, "@@ -2,7 +2,7 @@\n 2\n 3\n 4\n-5\n+five\n 6\n 7\n 8\n");
}

#[test]
fn equal_contents_have_an_empty_diff() {
    assert_eq!(line_diff(b"same\n", b"same\n").unwrap(), "");
    assert_eq!(line_diff(b"", b"").unwrap(), "");
}

#[test]
fn addition_is_diffed_against_empty_content() {
    let added = change(FileModificationKind::Addition, "new", Some(b"ignored\n"), Some(b"x\ny\n"));
    let text = diff_text(&added).unwrap();
    assert_eq!(text, line_diff(b"", b"x\ny\n").unwrap());
    assert!(text.contains("\n+x\n+y\n"));
    assert!(!text.contains("ignored"));
}

#[test]
fn deletion_has_no_text() {
    let gone = change(FileModificationKind::Deletion, "old", Some(b"x\n"), Some(b"y\n"));
    assert_eq!(diff_text(&gone).unwrap(), "");
}

#[test]
fn path_that_is_no_blob_has_no_text() {
    let module = change(FileModificationKind::Modification, "sub", Some(b"x\n"), None);
    assert_eq!(diff_text(&module).unwrap(), "");
    let added = change(FileModificationKind::Addition, "sub", None, None);
    assert_eq!(diff_text(&added).unwrap(), "");
}

#[test]
fn rewrite_is_diffed_against_its_source() {
    let moved = change(
        FileModificationKind::Rewrite { source: "old".to_string() },
        "new",
        Some(b"a\n"),
        Some(b"b\n"),
    );
    assert_eq!(diff_text(&moved).unwrap(), "@@ -1,1 +1,1 @@\n-a\n+b\n");
    let same = change(
        FileModificationKind::Rewrite { source: "old".to_string() },
        "new",
        Some(b"a\n"),
        Some(b"a\n"),
    );
    assert_eq!(diff_text(&same).unwrap(), "");
}

#[test]
fn content_that_is_no_text_fails_the_diff() {
    let bad = change(FileModificationKind::Modification, "bin", Some(b"a\n"), Some(b"\xff\xfe\n"));
    let err = diff_text(&bad).unwrap_err();
    assert!(!err.message.is_empty());
    let changes = vec![
        change(FileModificationKind::Deletion, "a", None, None),
        bad,
        change(FileModificationKind::Deletion, "z", None, None),
    ];
    assert_eq!(compute_diff(&changes).unwrap_err(), err);
}

#[test]
fn failure_becomes_the_one_entry_named_error() {
    let diff = failure_diff(&BackendError { message: "object not found".to_string() });
    assert_eq!(diff.files.len(), 1);
    assert_eq!(diff.files[0].path, "ERROR");
    assert_eq!(diff.files[0].kind, FileModificationKind::Deletion);
    assert_eq!(diff.files[0].diff_text, "error: object not found");
}

#[test]
fn failure_of_the_backend_or_of_a_content_is_contained() {
    let listing = contained_diff(&Err(BackendError { message: "tree is corrupt".to_string() }));
    assert_eq!(paths(&listing.files), vec!["ERROR"]);
    assert_eq!(listing.files[0].diff_text, "error: tree is corrupt");

    let bad = change(FileModificationKind::Addition, "bin", None, Some(b"\xff\n"));
    let why = diff_text(&bad).unwrap_err().message;
    let content = contained_diff(&Ok(vec![change(FileModificationKind::Deletion, "a", None, None), bad]));
    assert_eq!(paths(&content.files), vec!["ERROR"]);
    assert_eq!(content.files[0].diff_text, format!("error: {why}"));

    let fine = contained_diff(&Ok(vec![change(FileModificationKind::Deletion, "a", None, None)]));
    assert_eq!(paths(&fine.files), vec!["a"]);
}

#[test]
fn insertion_goes_behind_equal_paths() {
    let entry = |path: &str, text: &str| FileChange {
        kind: FileModificationKind::Modification,
        path: path.to_string(),
        diff_text: text.to_string(),
    };
    let mut files = vec![entry("a", "1"), entry("c", "2")];
    insert_sorted(&mut files, entry("b", "3"));
    insert_sorted(&mut files, entry("a", "4"));
    insert_sorted(&mut files, entry("d", "5"));
    let texts: Vec<&str> = files.iter().map(|f| f.diff_text.as_str()).collect();
    assert_eq!(paths(&files), vec!["a", "a", "b", "c", "d"]);
    assert_eq!(texts, vec!["1", "4", "3", "2", "5"]);
}

#[test]
fn content_too_large_is_an_error() {
    let big = vec![0u8; 0x7fff_ffff];
    let err = line_diff(&big, b"x\n").unwrap_err();
    assert_eq!(err.message, "content too large for a line diff");
    let err = line_diff(b"x\n", &big).unwrap_err();
    assert_eq!(err.message, "content too large for a line diff");
}

use giv::model::{
    CommitDetail, CommitSummary, Diff, FileChange, FileModificationKind, ParentSummary,
    RevisionDetail, RevisionRef, Signature,
};
use giv::nav::{highlight_index, next_file_target};
use giv::project::{block_lens, describe, file_header_line, file_is_shown, parents_line, project, project_file};
use giv::screen::{blocks_and_highlight, commits_authors_times_lines};
use giv::backend::{Answer, RawChange, RawCommit, RawSignature};
use giv::state::{DetailStep, State};
use giv::window::WindowStep;

fn file(kind: FileModificationKind, path: &str, text: &str) -> FileChange {
    FileChange { kind, path: path.to_string(), diff_text: text.to_string() }
}

fn who(name: &str) -> Signature {
    Signature {
        author_name: name.to_string(),
        author_email: format!("{name}@example.org"),
        time: "2024-01-02 03:04:05 +0000".to_string(),
    }
}

fn parent(id: &str, title: &str) -> ParentSummary {
    ParentSummary { id: format!("{id}ffff"), short_id: id.to_string(), title: title.to_string() }
}

fn detail(files: Vec<FileChange>) -> CommitDetail {
    CommitDetail {
        id: "abcdef".to_string(),
        author: who("ada"),
        committer: who("bob"),
        title: "Fix the parser".to_string(),
        msg_detail: "It lost tokens.\n\nNow it keeps them.\n".to_string(),
        parents: vec![parent("1111", "First"), parent("2222", "Second")],
        diff_parent: Diff { files },
    }
}

#[test]
fn header_is_kind_letter_and_path() {
    assert_eq!(file_header_line(&file(FileModificationKind::Addition, "src/a.rs", "")), "A src/a.rs");
    assert_eq!(file_header_line(&file(FileModificationKind::Deletion, "b", "")), "D b");
    assert_eq!(file_header_line(&file(FileModificationKind::Modification, "c", "")), "M c");
    let moved = FileModificationKind::Rewrite { source: "old".to_string() };
    assert_eq!(file_header_line(&file(moved, "new", "")), "R new");
}

#[test]
fn file_block_is_banner_then_diff_lines() {
    let block = project_file(&file(FileModificationKind::Modification, "a.txt", "@@ -1,1 +1,1 @@\n-a\n+b\n"));
    assert_eq!(block.header, "M a.txt");
    assert_eq!(block.body, vec!["diff a.txt", "@@ -1,1 +1,1 @@", "-a", "+b"]);
}

#[test]
fn renamed_file_has_a_marker_before_its_diff() {
    let moved = FileModificationKind::Rewrite { source: "old.txt".to_string() };
    let block = project_file(&file(moved.clone(), "new.txt", "@@ -1,1 +1,1 @@\n-a\n+b\n"));
    assert_eq!(block.header, "R new.txt");
    assert_eq!(block.body, vec!["diff new.txt", "renamed from old.txt", "@@ -1,1 +1,1 @@", "-a", "+b"]);
    let pure = project_file(&file(moved, "new.txt", ""));
    assert_eq!(pure.body, vec!["diff new.txt", "renamed from old.txt"]);
}

#[test]
fn file_without_text_is_shown_only_if_renamed() {
    assert!(!file_is_shown(&file(FileModificationKind::Deletion, "gone", "")));
    assert!(!file_is_shown(&file(FileModificationKind::Modification, "module", "")));
    assert!(file_is_shown(&file(FileModificationKind::Modification, "a", "+x\n")));
    assert!(file_is_shown(&file(FileModificationKind::Rewrite { source: "o".to_string() }, "n", "")));
}

#[test]
fn parents_are_joined_by_commas() {
    assert_eq!(parents_line(&[].to_vec()), "");
    assert_eq!(parents_line(&vec![parent("1111", "First")]), "1111 First");
    assert_eq!(
        parents_line(&vec![parent("1111", "First"), parent("2222", "Second"), parent("3333", "Third")]),
        "1111 First, 2222 Second, 3333 Third"
    );
}

#[test]
fn description_lists_signatures_parents_title_and_body() {
    let block = describe(&detail(Vec::new()));
    assert_eq!(block.header, "Author: ada <ada@example.org> 2024-01-02 03:04:05 +0000");
    assert_eq!(
        block.body,
        vec![
            "Committer: bob <bob@example.org> 2024-01-02 03:04:05 +0000",
            "Parents: 1111 First, 2222 Second",
            "",
            "Fix the parser",
            "",
            "It lost tokens.",
            "",
            "Now it keeps them.",
        ]
    );
}

#[test]
fn commit_projects_to_description_and_one_block_per_file() {
    let files = vec![
        file(FileModificationKind::Addition, "a", "+1\n"),
        file(FileModificationKind::Modification, "b", "-1\n+2\n"),
    ];
    let blocks = project(&RevisionDetail::FullCommit(detail(files)));
    assert_eq!(blocks.len(), 3);
    assert!(blocks[0].header.starts_with("Author: "));
    assert_eq!(blocks[1].header, "A a");
    assert_eq!(blocks[2].header, "M b");
    assert_eq!(block_lens(&blocks), vec![9, 3, 4]);
}

#[test]
fn files_with_nothing_to_show_are_left_out() {
    let files = vec![
        file(FileModificationKind::Deletion, "a", ""),
        file(FileModificationKind::Modification, "b", "+x\n"),
        file(FileModificationKind::Rewrite { source: "c0".to_string() }, "c", ""),
        file(FileModificationKind::Modification, "d", ""),
    ];
    let blocks = project(&RevisionDetail::IndexDiff(Diff { files }));
    let headers: Vec<&str> = blocks.iter().map(|b| b.header.as_str()).collect();
    assert_eq!(headers, vec!["M b", "R c"]);
}

#[test]
fn pending_changes_have_no_description() {
    let files = vec![file(FileModificationKind::Modification, "w", "+x\n")];
    let worktree = project(&RevisionDetail::WorktreeDiff(Diff { files: files.clone() }));
    assert_eq!(worktree.len(), 1);
    assert_eq!(worktree[0].header, "M w");
    assert!(project(&RevisionDetail::WorktreeDiff(Diff { files: Vec::new() })).is_empty());
    assert_eq!(project(&RevisionDetail::IndexDiff(Diff { files })).len(), 1);
}

#[test]
fn error_projects_to_one_block() {
    let blocks = project(&RevisionDetail::Error("object not found\nat all".to_string()));
    assert_eq!(blocks.len(), 1);
    assert_eq!(blocks[0].header, "Error");
    assert_eq!(blocks[0].body, vec!["object not found", "at all"]);
}

#[test]
fn projection_is_the_same_each_time() {
    let d = RevisionDetail::FullCommit(detail(vec![file(FileModificationKind::Addition, "a", "+1\n")]));
    assert_eq!(project(&d), project(&d));
}

#[test]
fn projected_blocks_feed_the_scroll_arithmetic() {
    let files = vec![
        file(FileModificationKind::Addition, "a", "+1\n"),
        file(FileModificationKind::Modification, "b", "-1\n+2\n"),
    ];
    let d = RevisionDetail::FullCommit(detail(files));
    let lens = block_lens(&project(&d));
    assert_eq!(highlight_index(&lens, 9), Some(1));
    assert_eq!(next_file_target(&lens, 0), 9);
    let (blocks, highlight) = blocks_and_highlight(Some(&d), 13);
    assert_eq!(blocks.len(), 3);
    assert_eq!(highlight, Some(2));
    assert_eq!(blocks_and_highlight(Some(&d), 16).1, None);
    let (none, nothing) = blocks_and_highlight(None, 0);
    assert!(none.is_empty());
    assert_eq!(nothing, None);
}

#[test]
fn list_columns_mark_the_selected_entry() {
    let window = vec![
        CommitSummary { rev: RevisionRef::Worktree, title: "Uncommitted changes".to_string(), signature: Signature::empty() },
        CommitSummary {
            rev: RevisionRef::Commit { id: "abcdef".to_string(), short_id: "abc".to_string() },
            title: "Fix the parser".to_string(),
            signature: who("ada"),
        },
    ];
    let (commits, authors, times) = commits_authors_times_lines(&window, 1);
    assert_eq!(commits[0].text, "Uncommitted changes");
    assert_eq!(commits[1].text, "abc Fix the parser");
    assert_eq!(authors[0].text, "");
    assert_eq!(authors[1].text, "ada <ada@example.org>");
    assert_eq!(times[0].text, "");
    assert_eq!(times[1].text, "2024-01-02 03:04:05 +0000");
    for column in [&commits, &authors, &times] {
        assert!(!column[0].selected);
        assert!(column[1].selected);
    }
    let (unselected, _, _) = commits_authors_times_lines(&window, 5);
    assert!(unselected.iter().all(|l| !l.selected));
}

#[test]
fn frame_shows_the_window_and_the_resolved_selection() {
    let mut state = State::new();
    let empty = state.draw();
    assert!(empty.commits.is_empty());
    assert!(empty.blocks.is_empty());
    assert_eq!(empty.highlight, None);

    let who = RawSignature { name: "ada".to_string(), email: "ada@example.org".to_string(), seconds: 0, offset: 0 };
    let root = RawCommit {
        id: "abcdef".to_string(),
        short_id: "abc".to_string(),
        author: who.clone(),
        committer: who,
        message: b"Fix the parser\n".to_vec(),
        parents: Vec::new(),
    };
    state.get_window(None);
    state.get_window(Some(Answer::PendingChanges { worktree: false, index: true }));
    state.get_window(Some(Answer::Head { id: "abcdef".to_string() }));
    assert_eq!(state.get_window(Some(Answer::Commit(root))), WindowStep::Ready);
    state.get_selected_commit(None);
    let staged = RawChange {
        kind: FileModificationKind::Modification,
        path: "a".to_string(),
        previous: Some(b"1\n".to_vec()),
        current: Some(b"2\n".to_vec()),
    };
    assert_eq!(state.get_selected_commit(Some(Answer::Changes(vec![staged.clone(), staged]))), DetailStep::Ready);
    state.scroll_diff(6);
    let frame = state.draw();
    assert_eq!(frame.commits.len(), 2);
    assert_eq!(frame.commits[0].text, "Staged changes");
    assert_eq!(frame.commits[1].text, "abc Fix the parser");
    assert!(frame.commits[0].selected);
    assert!(!frame.commits[1].selected);
    assert_eq!(frame.authors[1].text, "ada <ada@example.org>");
    assert_eq!(frame.times[1].text, "1970-01-01 00:00:00 +0000");
    assert_eq!(frame.blocks.len(), 2);
    assert_eq!(frame.blocks[0].body, vec!["diff a", "@@ -1,1 +1,1 @@", "-1", "+2"]);
    assert_eq!(frame.highlight, Some(1));
    assert_eq!(frame.diff_scroll, 6);
    assert_eq!(frame.commits_scroll, 0);
    let (commits, _, _) = state.commits_authors_times_lines();
    assert_eq!(commits, frame.commits);
}

#[test]
fn every_line_of_a_block_is_one_line() {
    let moved = FileModificationKind::Rewrite { source: "old\nname".to_string() };
    let block = project_file(&file(moved, "new\nname", "+x\n"));
    assert_eq!(block.header, "R new name");
    assert_eq!(block.body, vec!["diff new name", "renamed from old name", "+x"]);

    let mut odd = detail(Vec::new());
    odd.title = "wrapped\ntitle".to_string();
    odd.author.author_name = "A\nda".to_string();
    odd.parents[0].title = "Fir\nst".to_string();
    let block = describe(&odd);
    assert_eq!(block.header, "Author: A da <ada@example.org> 2024-01-02 03:04:05 +0000");
    assert_eq!(block.body[1], "Parents: 1111 Fir st, 2222 Second");
    assert_eq!(block.body[3], "wrapped title");
    assert_eq!(block_lens(&[block].to_vec()), vec![9]);
}

#[test]
fn every_entry_takes_one_row_of_the_list() {
    let window = vec![CommitSummary {
        rev: RevisionRef::Commit { id: "abcdef".to_string(), short_id: "abc".to_string() },
        title: "wrapped\ntitle".to_string(),
        signature: Signature {
            author_name: "A\nda".to_string(),
            author_email: "ada@example.org".to_string(),
            time: "some\ntime".to_string(),
        },
    }];
    let (commits, authors, times) = commits_authors_times_lines(&window, 0);
    assert_eq!(commits[0].text, "abc wrapped title");
    assert_eq!(authors[0].text, "A da <ada@example.org>");
    assert_eq!(times[0].text, "some time");
}

use giv::backend::{Answer, Query, RawChange, RawCommit, RawSignature};
use giv::model::{BackendError, CommitSummary, FileModificationKind, RevisionDetail, RevisionRef};
use giv::state::{Command, DetailStep, State};
use giv::window::{pseudo_list, PendingChanges, WindowCache, WindowStep};
use std::cell::Cell;
use std::collections::HashMap;

struct Repo {
    worktree: bool,
    index: bool,
    head: Option<String>,
    commits: HashMap<String, RawCommit>,
    trees: HashMap<(String, String), Result<Vec<RawChange>, String>>,
    worktree_changes: Vec<RawChange>,
    index_changes: Vec<RawChange>,
    asked: Cell<usize>,
}

fn failed(why: &str) -> Answer {
    Answer::Failed(BackendError { message: why.to_string() })
}

impl Repo {
    fn answer(&self, query: &Query) -> Answer {
        self.asked.set(self.asked.get() + 1);
        match query {
            Query::PendingChanges => Answer::PendingChanges { worktree: self.worktree, index: self.index },
            Query::Head => match &self.head {
                Some(id) => Answer::Head { id: id.clone() },
                None => failed("no head"),
            },
            Query::Commit { id } => match self.commits.get(id) {
                Some(c) => Answer::Commit(c.clone()),
                None => failed(&format!("object {id} not found")),
            },
            Query::WorktreeChanges => Answer::Changes(self.worktree_changes.clone()),
            Query::IndexChanges => Answer::Changes(self.index_changes.clone()),
            Query::TreeChanges { from, to } => match self.trees.get(&(from.clone(), to.clone())) {
                Some(Ok(list)) => Answer::Changes(list.clone()),
                Some(Err(why)) => failed(why),
                None => Answer::Changes(Vec::new()),
            },
        }
    }
}

fn commit(id: &str, seconds: i64, parents: &[&str]) -> RawCommit {
    let who = RawSignature {
        name: "Ada".to_string(),
        email: "ada@example.org".to_string(),
        seconds,
        offset: 0,
    };
    RawCommit {
        id: id.to_string(),
        short_id: id.to_uppercase(),
        author: who.clone(),
        committer: who,
        message: format!("Commit {id}\n\nThe body of {id}.\n").into_bytes(),
        parents: parents.iter().map(|p| p.to_string()).collect(),
    }
}

fn modified(path: &str, before: &str, after: &str) -> RawChange {
    RawChange {
        kind: FileModificationKind::Modification,
        path: path.to_string(),
        previous: Some(before.as_bytes().to_vec()),
        current: Some(after.as_bytes().to_vec()),
    }
}

/// Three commits in a line, c2 the head and c0 the root.
fn line() -> Repo {
    let commits = [commit("c2", 30, &["c1"]), commit("c1", 20, &["c0"]), commit("c0", 10, &[])];
    let mut trees = HashMap::new();
    trees.insert(("c0".to_string(), "c1".to_string()), Ok(vec![modified("file.txt", "zero\n", "one\n")]));
    trees.insert(("c1".to_string(), "c2".to_string()), Ok(vec![modified("file.txt", "one\n", "two\n")]));
    Repo {
        worktree: false,
        index: false,
        head: Some("c2".to_string()),
        commits: commits.into_iter().map(|c| (c.id.clone(), c)).collect(),
        trees,
        worktree_changes: Vec::new(),
        index_changes: Vec::new(),
        asked: Cell::new(0),
    }
}

fn sized(size: u16) -> State {
    let mut state = State::new();
    state.resize(size);
    state
}

/// Computes the window, putting each question to the repository.
fn get_window(state: &mut State, repo: &Repo) -> Result<Vec<CommitSummary>, BackendError> {
    let mut step = state.get_window(None);
    loop {
        match step {
            WindowStep::Ready => return Ok(state.window().unwrap().clone()),
            WindowStep::Failed(e) => return Err(e),
            WindowStep::Ask(query) => step = state.get_window(Some(repo.answer(&query))),
        }
    }
}

/// Resolves the selection, putting each question to the repository.
fn resolve(state: &mut State, repo: &Repo) -> Option<RevisionDetail> {
    let mut step = state.get_selected_commit(None);
    loop {
        match step {
            DetailStep::Ready => return state.selected().cloned(),
            DetailStep::NoSelection => return None,
            DetailStep::Ask(query) => step = state.get_selected_commit(Some(repo.answer(&query))),
        }
    }
}

fn ids(window: &[CommitSummary]) -> Vec<String> {
    window
        .iter()
        .map(|s| match &s.rev {
            RevisionRef::Worktree => "worktree".to_string(),
            RevisionRef::Index => "index".to_string(),
            RevisionRef::Commit { id, .. } => id.clone(),
        })
        .collect()
}

#[test]
fn window_is_computed_once() {
    let repo = line();
    let mut state = sized(3);
    let first = get_window(&mut state, &repo).unwrap();
    let asked = repo.asked.get();
    assert!(asked > 0);
    let second = get_window(&mut state, &repo).unwrap();
    assert_eq!(first, second);
    assert_eq!(repo.asked.get(), asked);
    assert_eq!(state.get_window(None), WindowStep::Ready);
}

#[test]
fn smaller_request_is_served_from_the_held_window() {
    let repo = line();
    let mut cache = WindowCache::new();
    let mut step = cache.request(3);
    while let WindowStep::Ask(query) = step {
        step = cache.supply(repo.answer(&query));
    }
    assert_eq!(step, WindowStep::Ready);
    let asked = repo.asked.get();
    assert_eq!(cache.request(2), WindowStep::Ready);
    assert_eq!(cache.request(3), WindowStep::Ready);
    assert_eq!(ids(cache.window().unwrap()), vec!["c2", "c1", "c0"]);
    assert_eq!(repo.asked.get(), asked);
    assert_eq!(cache.request(4), WindowStep::Ask(Query::Head));
    assert!(cache.window().is_none());
}

#[test]
fn presence_of_changes_is_asked_once_until_invalidated_by_name() {
    let repo = line();
    let mut state = sized(2);
    assert_eq!(state.get_window(None), WindowStep::Ask(Query::PendingChanges));
    get_window(&mut state, &repo).unwrap();
    state.resize(5);
    assert_eq!(state.get_window(None), WindowStep::Ask(Query::Head));
    get_window(&mut state, &repo).unwrap();
    state.invalidate_caches();
    assert_eq!(state.get_window(None), WindowStep::Ask(Query::PendingChanges));
}

#[test]
fn larger_window_extends_the_smaller_one() {
    let mut repo = line();
    repo.worktree = true;
    for small in 1u16..=5 {
        for large in small..=6 {
            let first = get_window(&mut sized(small), &repo).unwrap();
            let second = get_window(&mut sized(large), &repo).unwrap();
            assert_eq!(first.len(), usize::from(small).min(second.len()));
            assert_eq!(first[..], second[..first.len()]);
        }
    }
}

#[test]
fn window_grows_when_the_terminal_does() {
    let repo = line();
    let mut state = sized(2);
    let first = get_window(&mut state, &repo).unwrap();
    state.handle_event(Command::Resize { height: 3 });
    let second = get_window(&mut state, &repo).unwrap();
    assert_eq!(ids(&first), vec!["c2", "c1"]);
    assert_eq!(ids(&second), vec!["c2", "c1", "c0"]);
}

#[test]
fn worktree_comes_before_index_and_both_before_commits() {
    let mut repo = line();
    repo.worktree = true;
    repo.index = true;
    let window = get_window(&mut sized(4), &repo).unwrap();
    assert_eq!(ids(&window), vec!["worktree", "index", "c2", "c1"]);
    assert_eq!(window[0].title, "Uncommitted changes");
    assert_eq!(window[1].title, "Staged changes");
}

#[test]
fn only_the_changes_that_exist_have_an_entry() {
    let mut repo = line();
    repo.index = true;
    assert_eq!(ids(&get_window(&mut sized(3), &repo).unwrap()), vec!["index", "c2", "c1"]);
    repo.index = false;
    repo.worktree = true;
    assert_eq!(ids(&get_window(&mut sized(3), &repo).unwrap()), vec!["worktree", "c2", "c1"]);
}

#[test]
fn pending_entries_are_never_dropped() {
    let mut repo = line();
    repo.worktree = true;
    repo.index = true;
    assert_eq!(ids(&get_window(&mut sized(1), &repo).unwrap()), vec!["worktree", "index"]);
    assert_eq!(ids(&get_window(&mut sized(0), &repo).unwrap()), vec!["worktree", "index"]);
    assert_eq!(ids(&get_window(&mut sized(2), &repo).unwrap()), vec!["worktree", "index"]);
    assert_eq!(ids(&get_window(&mut sized(3), &repo).unwrap()), vec!["worktree", "index", "c2"]);
}

#[test]
fn pseudo_list_names_the_changes_in_order() {
    assert!(pseudo_list(PendingChanges { worktree: false, index: false }).is_empty());
    let both = pseudo_list(PendingChanges { worktree: true, index: true });
    assert_eq!(both[0].rev, RevisionRef::Worktree);
    assert_eq!(both[1].rev, RevisionRef::Index);
}

#[test]
fn missing_head_fails_the_window() {
    let mut repo = line();
    repo.head = None;
    let mut state = sized(3);
    assert_eq!(get_window(&mut state, &repo).unwrap_err().message, "no head");
    assert!(state.window().is_none());
}

#[test]
fn missing_commit_fails_the_window_with_no_partial_result() {
    let mut repo = line();
    repo.commits.remove("c1");
    let mut state = sized(3);
    assert_eq!(get_window(&mut state, &repo).unwrap_err().message, "object c1 not found");
    assert!(state.window().is_none());
    assert_eq!(ids(&get_window(&mut sized(1), &repo).unwrap()), vec!["c2"]);
}

#[test]
fn commit_whose_time_cannot_be_shown_fails_the_window() {
    let mut repo = line();
    repo.commits.get_mut("c1").unwrap().author.seconds = i64::MAX;
    assert!(get_window(&mut sized(3), &repo).is_err());
}

#[test]
fn answer_that_does_not_fit_fails_the_window() {
    let mut state = sized(3);
    assert_eq!(state.get_window(None), WindowStep::Ask(Query::PendingChanges));
    let step = state.get_window(Some(Answer::Head { id: "c2".to_string() }));
    assert_eq!(
        step,
        WindowStep::Failed(BackendError { message: "unexpected answer from the backend".to_string() })
    );
    let idle = state.get_window(Some(Answer::Head { id: "c2".to_string() }));
    assert!(matches!(idle, WindowStep::Failed(_)));
}

#[test]
fn three_commits_window_of_two() {
    let repo = line();
    let mut state = sized(2);
    let window = get_window(&mut state, &repo).unwrap();
    assert_eq!(ids(&window), vec!["c2", "c1"]);
    assert_eq!(window[0].title, "Commit c2");
    assert_eq!(window[0].signature.time, "1970-01-01 00:00:30 +0000");

    state.handle_event(Command::SelectNext);
    assert_eq!(state.view_state().selection_idx, 1);
    match resolve(&mut state, &repo) {
        Some(RevisionDetail::FullCommit(detail)) => {
            assert_eq!(detail.id, "c1");
            assert_eq!(detail.title, "Commit c1");
            assert_eq!(detail.msg_detail, "The body of c1.\n");
            assert_eq!(detail.author.author_name, "Ada");
            assert_eq!(detail.committer.time, "1970-01-01 00:00:20 +0000");
            assert_eq!(detail.parents.len(), 1);
            assert_eq!(detail.parents[0].id, "c0");
            assert_eq!(detail.parents[0].short_id, "C0");
            assert_eq!(detail.parents[0].title, "Commit c0");
            assert_eq!(detail.diff_parent.files.len(), 1);
            assert_eq!(detail.diff_parent.files[0].path, "file.txt");
            assert_eq!(detail.diff_parent.files[0].diff_text, "@@ -1,1 +1,1 @@\n-zero\n+one\n");
        },
        other => panic!("no full commit: {other:?}"),
    }

    state.handle_event(Command::SelectNext);
    assert_eq!(state.view_state().selection_idx, 2);
    assert_eq!(resolve(&mut state, &repo), None);
    assert_eq!(state.get_selected_commit(None), DetailStep::NoSelection);
}

#[test]
fn root_commit_has_an_empty_diff_and_asks_for_no_tree() {
    let repo = line();
    let mut state = sized(3);
    get_window(&mut state, &repo).unwrap();
    state.move_selection(2);
    assert_eq!(state.get_selected_commit(None), DetailStep::Ask(Query::Commit { id: "c0".to_string() }));
    assert_eq!(state.get_selected_commit(Some(repo.answer(&Query::Commit { id: "c0".to_string() }))), DetailStep::Ready);
    match state.selected() {
        Some(RevisionDetail::FullCommit(detail)) => {
            assert_eq!(detail.id, "c0");
            assert!(detail.parents.is_empty());
            assert!(detail.diff_parent.files.is_empty());
        },
        other => panic!("no full commit: {other:?}"),
    }
}

#[test]
fn commit_is_diffed_against_its_first_parent() {
    let mut repo = line();
    repo.commits.insert("m".to_string(), commit("m", 40, &["c2", "c0"]));
    repo.head = Some("m".to_string());
    let mut state = sized(1);
    get_window(&mut state, &repo).unwrap();
    let mut asked = Vec::new();
    let mut step = state.get_selected_commit(None);
    while let DetailStep::Ask(query) = step {
        asked.push(query.clone());
        step = state.get_selected_commit(Some(repo.answer(&query)));
    }
    assert_eq!(
        asked,
        vec![
            Query::Commit { id: "m".to_string() },
            Query::Commit { id: "c2".to_string() },
            Query::Commit { id: "c0".to_string() },
            Query::TreeChanges { from: "c2".to_string(), to: "m".to_string() },
        ]
    );
    match state.selected() {
        Some(RevisionDetail::FullCommit(detail)) => {
            let parents: Vec<&str> = detail.parents.iter().map(|p| p.id.as_str()).collect();
            assert_eq!(parents, vec!["c2", "c0"]);
        },
        other => panic!("no full commit: {other:?}"),
    }
}

#[test]
fn failure_to_diff_is_contained_in_the_detail() {
    let mut repo = line();
    repo.trees.insert(("c0".to_string(), "c1".to_string()), Err("tree not found".to_string()));
    let mut state = sized(3);
    get_window(&mut state, &repo).unwrap();
    state.move_selection(1);
    match resolve(&mut state, &repo) {
        Some(RevisionDetail::FullCommit(detail)) => {
            assert_eq!(detail.id, "c1");
            assert_eq!(detail.title, "Commit c1");
            assert_eq!(detail.diff_parent.files.len(), 1);
            assert_eq!(detail.diff_parent.files[0].path, "ERROR");
            assert_eq!(detail.diff_parent.files[0].diff_text, "error: tree not found");
        },
        other => panic!("no full commit: {other:?}"),
    }
    state.move_selection(-1);
    assert!(matches!(resolve(&mut state, &repo), Some(RevisionDetail::FullCommit(d)) if d.diff_parent.files[0].path == "file.txt"));
}

#[test]
fn content_that_cannot_be_diffed_is_contained_in_the_detail() {
    let mut repo = line();
    let bad = RawChange {
        kind: FileModificationKind::Addition,
        path: "blob.bin".to_string(),
        previous: None,
        current: Some(vec![0xff, 0xfe, b'\n']),
    };
    repo.trees.insert(("c0".to_string(), "c1".to_string()), Ok(vec![modified("a", "1\n", "2\n"), bad]));
    let mut state = sized(3);
    get_window(&mut state, &repo).unwrap();
    state.move_selection(1);
    match resolve(&mut state, &repo) {
        Some(RevisionDetail::FullCommit(detail)) => {
            assert_eq!(detail.diff_parent.files.len(), 1);
            assert_eq!(detail.diff_parent.files[0].path, "ERROR");
            assert!(detail.diff_parent.files[0].diff_text.starts_with("error: "));
        },
        other => panic!("no full commit: {other:?}"),
    }
}

#[test]
fn commit_that_cannot_be_had_resolves_to_an_error() {
    let mut repo = line();
    let mut state = sized(3);
    get_window(&mut state, &repo).unwrap();
    repo.commits.remove("c1");
    state.move_selection(1);
    assert_eq!(resolve(&mut state, &repo), Some(RevisionDetail::Error("object c1 not found".to_string())));
}

#[test]
fn parent_that_cannot_be_had_resolves_to_an_error() {
    let mut repo = line();
    let mut state = sized(2);
    get_window(&mut state, &repo).unwrap();
    repo.commits.remove("c0");
    state.move_selection(1);
    assert_eq!(resolve(&mut state, &repo), Some(RevisionDetail::Error("object c0 not found".to_string())));
}

#[test]
fn worktree_and_index_resolve_to_their_diffs() {
    let mut repo = line();
    repo.worktree = true;
    repo.index = true;
    repo.worktree_changes = vec![modified("w.txt", "a\n", "b\n")];
    repo.index_changes = vec![modified("z.txt", "a\n", "b\n"), modified("i.txt", "a\n", "b\n")];
    let mut state = sized(4);
    get_window(&mut state, &repo).unwrap();
    match resolve(&mut state, &repo) {
        Some(RevisionDetail::WorktreeDiff(diff)) => {
            assert_eq!(diff.files.len(), 1);
            assert_eq!(diff.files[0].path, "w.txt");
        },
        other => panic!("no worktree diff: {other:?}"),
    }
    state.move_selection(1);
    match resolve(&mut state, &repo) {
        Some(RevisionDetail::IndexDiff(diff)) => {
            let paths: Vec<&str> = diff.files.iter().map(|f| f.path.as_str()).collect();
            assert_eq!(paths, vec!["i.txt", "z.txt"]);
        },
        other => panic!("no index diff: {other:?}"),
    }
}

#[test]
fn detail_is_resolved_once_per_selection() {
    let repo = line();
    let mut state = sized(3);
    get_window(&mut state, &repo).unwrap();
    let first = resolve(&mut state, &repo);
    let asked = repo.asked.get();
    assert_eq!(resolve(&mut state, &repo), first);
    assert_eq!(repo.asked.get(), asked);
    state.scroll_diff(3);
    assert_eq!(state.get_selected_commit(None), DetailStep::Ready);
    state.move_selection(1);
    assert!(state.selected().is_none());
    assert!(matches!(state.get_selected_commit(None), DetailStep::Ask(_)));
}

#[test]
fn resize_and_refresh_drop_the_detail() {
    let repo = line();
    let mut state = sized(3);
    get_window(&mut state, &repo).unwrap();
    resolve(&mut state, &repo).unwrap();
    state.resize(3);
    assert!(state.selected().is_some());
    state.resize(4);
    assert!(state.selected().is_none());
    assert!(state.window().is_none());
    assert_eq!(state.get_selected_commit(None), DetailStep::NoSelection);
    get_window(&mut state, &repo).unwrap();
    resolve(&mut state, &repo).unwrap();
    state.handle_event(Command::Refresh);
    assert!(state.selected().is_none());
    assert!(state.window().is_none());
}

#[test]
fn answer_with_nothing_due_resolves_nothing() {
    let mut state = sized(3);
    assert_eq!(state.get_selected_commit(Some(failed("late"))), DetailStep::NoSelection);
    assert_eq!(state.get_selected_commit(None), DetailStep::NoSelection);
}

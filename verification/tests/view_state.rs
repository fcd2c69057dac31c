use giv::backend::{Answer, Query, RawChange, RawCommit, RawSignature};
use giv::model::FileModificationKind;
use giv::state::{add_clamped, Command, DetailStep, State, ViewState};
use giv::window::WindowStep;
use std::ops::ControlFlow;

fn added(path: &str, lines: usize) -> RawChange {
    RawChange {
        kind: FileModificationKind::Addition,
        path: path.to_string(),
        previous: None,
        current: Some("line\n".repeat(lines).into_bytes()),
    }
}

fn root() -> RawCommit {
    let who = RawSignature { name: "Ada".to_string(), email: "a@b.c".to_string(), seconds: 0, offset: 0 };
    RawCommit {
        id: "c0".to_string(),
        short_id: "c0".to_string(),
        author: who.clone(),
        committer: who,
        message: b"root\n".to_vec(),
        parents: Vec::new(),
    }
}

/// A state that holds, for its selection, the changes of the working tree in
/// blocks 5, 4 and 7 lines long: each a header, a banner, a hunk header and
/// the added lines.
fn with_blocks() -> State {
    let mut state = State::new();
    assert_eq!(state.get_window(None), WindowStep::Ask(Query::PendingChanges));
    let step = state.get_window(Some(Answer::PendingChanges { worktree: true, index: false }));
    assert_eq!(step, WindowStep::Ask(Query::Head));
    let step = state.get_window(Some(Answer::Head { id: "c0".to_string() }));
    assert_eq!(step, WindowStep::Ask(Query::Commit { id: "c0".to_string() }));
    assert_eq!(state.get_window(Some(Answer::Commit(root()))), WindowStep::Ready);
    assert_eq!(state.get_selected_commit(None), DetailStep::Ask(Query::WorktreeChanges));
    let changes = vec![added("a", 2), added("b", 1), added("c", 4)];
    assert_eq!(state.get_selected_commit(Some(Answer::Changes(changes))), DetailStep::Ready);
    state
}

fn scrolled_to(state: &mut State, offset: usize) {
    let at = state.view_state().diff_scroll_idx;
    state.scroll_diff(offset as i64 - at as i64);
    assert_eq!(state.view_state().diff_scroll_idx, offset);
}

#[test]
fn starts_at_the_first_entry_with_nothing_held() {
    let state = State::new();
    assert_eq!(
        state.view_state(),
        ViewState {
            selection_idx: 0,
            diff_scroll_idx: 0,
            commits_scroll_idx: 0,
            last_log_height: 0,
            last_diff_height: 0,
            wanted_commit_list_count: 10,
        }
    );
    assert_eq!(state.generation(), 0);
    assert!(state.window().is_none());
    assert!(state.selected().is_none());
}

#[test]
fn select_previous_at_zero_stays_at_zero() {
    let mut state = State::new();
    for _ in 0..5 {
        assert_eq!(state.handle_event(Command::SelectPrevious), ControlFlow::Continue(()));
        assert_eq!(state.view_state().selection_idx, 0);
    }
    state.handle_event(Command::SelectPreviousPage);
    assert_eq!(state.view_state().selection_idx, 0);
    state.move_selection(i64::MIN);
    assert_eq!(state.view_state().selection_idx, 0);
}

#[test]
fn select_next_has_no_upper_bound() {
    let mut state = State::new();
    for expected in 1..=100 {
        state.handle_event(Command::SelectNext);
        assert_eq!(state.view_state().selection_idx, expected);
    }
    state.move_selection(i64::MAX);
    state.move_selection(i64::MAX);
    state.move_selection(i64::MAX);
    assert_eq!(state.view_state().selection_idx, usize::MAX);
    state.handle_event(Command::SelectNext);
    assert_eq!(state.view_state().selection_idx, usize::MAX);
    state.handle_event(Command::SelectPrevious);
    assert_eq!(state.view_state().selection_idx, usize::MAX - 1);
}

#[test]
fn clamped_sum_stays_within_usize() {
    assert_eq!(add_clamped(5, 3), 8);
    assert_eq!(add_clamped(5, -3), 2);
    assert_eq!(add_clamped(5, -5), 0);
    assert_eq!(add_clamped(5, -6), 0);
    assert_eq!(add_clamped(5, i64::MIN), 0);
    assert_eq!(add_clamped(usize::MAX, 1), usize::MAX);
    assert_eq!(add_clamped(usize::MAX - 2, i64::MAX), usize::MAX);
    assert_eq!(add_clamped(0, 0), 0);
}

#[test]
fn page_moves_by_the_visible_rows() {
    let mut state = State::new();
    state.set_viewports(12, 20);
    state.handle_event(Command::SelectNextPage);
    assert_eq!(state.view_state().selection_idx, 10);
    state.handle_event(Command::SelectNextPage);
    assert_eq!(state.view_state().selection_idx, 20);
    state.handle_event(Command::SelectPreviousPage);
    assert_eq!(state.view_state().selection_idx, 10);
    state.handle_event(Command::ScrollDiffPageDown);
    assert_eq!(state.view_state().diff_scroll_idx, 9);
    state.handle_event(Command::ScrollDiffPageUp);
    assert_eq!(state.view_state().diff_scroll_idx, 0);
}

#[test]
fn list_scrolls_just_far_enough_to_show_the_selection() {
    let mut state = State::new();
    state.set_viewports(7, 7);
    let at = |state: &State| (state.view_state().selection_idx, state.view_state().commits_scroll_idx);
    for _ in 0..4 {
        state.handle_event(Command::SelectNext);
        assert_eq!(state.view_state().commits_scroll_idx, 0);
    }
    state.handle_event(Command::SelectNext);
    assert_eq!(at(&state), (5, 1));
    state.handle_event(Command::SelectNext);
    assert_eq!(at(&state), (6, 2));
    state.handle_event(Command::SelectPrevious);
    assert_eq!(at(&state), (5, 2));
    state.move_selection(-4);
    assert_eq!(at(&state), (1, 1));
    state.move_selection(20);
    assert_eq!(at(&state), (21, 17));
}

#[test]
fn list_that_was_never_drawn_is_not_scrolled() {
    let mut state = State::new();
    state.set_viewports(7, 7);
    state.move_selection(8);
    assert_eq!(state.view_state().commits_scroll_idx, 4);
    state.set_viewports(0, 0);
    state.move_selection(-7);
    assert_eq!(state.view_state().commits_scroll_idx, 4);
    state.move_selection(50);
    assert_eq!(state.view_state().commits_scroll_idx, 4);
}

#[test]
fn diff_scrolls_by_lines_and_stops_at_zero() {
    let mut state = State::new();
    state.handle_event(Command::ScrollDiffUp);
    assert_eq!(state.view_state().diff_scroll_idx, 0);
    state.handle_event(Command::ScrollDiffDown);
    state.handle_event(Command::ScrollDiffDown);
    assert_eq!(state.view_state().diff_scroll_idx, 2);
    state.handle_event(Command::ScrollDiffUp);
    assert_eq!(state.view_state().diff_scroll_idx, 1);
    assert_eq!(state.view_state().selection_idx, 0);
}

#[test]
fn scrolling_keeps_the_resolved_selection() {
    let mut state = with_blocks();
    state.handle_event(Command::ScrollDiffDown);
    assert!(state.selected().is_some());
    state.handle_event(Command::NextFile);
    assert!(state.selected().is_some());
    state.handle_event(Command::SelectNext);
    assert!(state.selected().is_none());
    state.handle_event(Command::SelectPrevious);
    assert!(state.selected().is_none());
}

#[test]
fn next_and_previous_file_jump_between_blocks() {
    let mut state = with_blocks();
    scrolled_to(&mut state, 6);
    state.handle_event(Command::NextFile);
    assert_eq!(state.view_state().diff_scroll_idx, 9);
    state.handle_event(Command::NextFile);
    assert_eq!(state.view_state().diff_scroll_idx, 9);
    scrolled_to(&mut state, 12);
    state.handle_event(Command::NextFile);
    assert_eq!(state.view_state().diff_scroll_idx, 12);
    scrolled_to(&mut state, 6);
    state.handle_event(Command::PreviousFile);
    assert_eq!(state.view_state().diff_scroll_idx, 5);
    state.handle_event(Command::PreviousFile);
    assert_eq!(state.view_state().diff_scroll_idx, 0);
    state.handle_event(Command::PreviousFile);
    assert_eq!(state.view_state().diff_scroll_idx, 0);
    state.handle_event(Command::NextFile);
    assert_eq!(state.view_state().diff_scroll_idx, 5);
}

#[test]
fn file_jumps_do_nothing_where_nothing_is_resolved() {
    let mut state = State::new();
    scrolled_to(&mut state, 4);
    state.jump_file(true);
    assert_eq!(state.view_state().diff_scroll_idx, 4);
    state.jump_file(false);
    assert_eq!(state.view_state().diff_scroll_idx, 4);
    let mut moved = with_blocks();
    moved.move_selection(1);
    scrolled_to(&mut moved, 6);
    moved.jump_file(true);
    assert_eq!(moved.view_state().diff_scroll_idx, 6);
}

#[test]
fn quit_breaks_and_changes_nothing() {
    let mut state = with_blocks();
    scrolled_to(&mut state, 3);
    let before = state.view_state();
    assert_eq!(state.handle_event(Command::Quit), ControlFlow::Break(()));
    assert_eq!(state.view_state(), before);
    assert!(state.selected().is_some());
    assert!(state.window().is_some());
}

#[test]
fn resize_to_the_same_height_keeps_the_caches() {
    let mut state = with_blocks();
    state.handle_event(Command::Resize { height: 10 });
    assert!(state.selected().is_some());
    assert!(state.window().is_some());
    assert_eq!(state.generation(), 0);
    state.handle_event(Command::Resize { height: 11 });
    assert!(state.selected().is_none());
    assert!(state.window().is_none());
    assert_eq!(state.view_state().wanted_commit_list_count, 11);
    assert_eq!(state.generation(), 1);
}

#[test]
fn every_invalidation_of_the_window_is_counted() {
    let mut state = State::new();
    state.invalidate_caches();
    state.resize(3);
    state.resize(3);
    state.handle_event(Command::Refresh);
    state.move_selection(1);
    assert_eq!(state.generation(), 3);
}

//! The state of the browser: what is selected, how far the two views are
//! scrolled, and the two caches. Commands change it; the questions that the
//! caches need answered are handed out and the answers taken in, so that
//! nothing here touches the backend or the terminal.

use std::ops::ControlFlow;
use vstd::prelude::*;
use crate::backend::{Answer, AnswerView, Query, QueryView};
use crate::model::{
    CommitSummary, CommitSummaryView, RevisionDetail, RevisionDetailView, RevisionRefView,
    sorted_by_path, summary_views,
};
use crate::nav::{
    checked_total, next_file_target, next_target, prev_file_target, prev_target, total_lines,
};
use crate::project::{block_lens, block_views, blocks_of, lens_of, project};
use crate::resolver::{Resolver, ResolverView, Step, StepView};
use crate::screen::{
    ListLine, Screen, author_column, blocks_and_highlight, commit_column,
    commits_authors_times_lines, highlights, line_views, shown_blocks, time_column,
};
use crate::window::{ProgressView, WindowCache, WindowStep, WindowView};

verus! {

/// What the user asked for.
#[derive(Clone, Copy, Debug, PartialEq, Eq)]
pub enum Command {
    Quit,
    SelectNext,
    SelectPrevious,
    SelectNextPage,
    SelectPreviousPage,
    ScrollDiffDown,
    ScrollDiffUp,
    ScrollDiffPageDown,
    ScrollDiffPageUp,
    NextFile,
    PreviousFile,
    /// The terminal now has `height` rows.
    Resize { height: u16 },
    /// Forget all that was read from the repository.
    Refresh,
}

/// How the resolving of the selected entry stands.
#[derive(Clone, Debug, PartialEq, Eq)]
pub enum DetailStep {
    /// The detail is held.
    Ready,
    /// This question is due.
    Ask(Query),
    /// The selection points at no entry of the window.
    NoSelection,
}

/// What is selected and how the views stand.
#[derive(Clone, Copy, Debug, PartialEq, Eq)]
pub struct ViewState {
    /// Index of the selected entry; it may lie past the window.
    pub selection_idx: usize,
    /// First visible line of the diff view.
    pub diff_scroll_idx: usize,
    /// First visible entry of the history list.
    pub commits_scroll_idx: usize,
    /// Height of the history list when it was last drawn, borders included;
    /// 0 before the first frame.
    pub last_log_height: u16,
    /// Height of the diff view when it was last drawn, borders included.
    pub last_diff_height: u16,
    /// Size of the window that is asked for.
    pub wanted_commit_list_count: usize,
}

/// All that the browser keeps between two frames.
pub struct State {
    view: ViewState,
    /// Counts the invalidations of the window.
    generation: u64,
    window: WindowCache,
    /// The resolved selection, with the selection and the generation it was
    /// resolved for.
    selected_commit_cached: Option<(usize, u64, RevisionDetail)>,
    /// The resolver of the selection, while questions are due.
    resolving: Option<Resolver>,
}

/// What the state holds besides what it shows.
pub struct CachesView {
    /// How often the window was invalidated, counted modulo 2^64.
    pub generation: u64,
    pub window: WindowView,
    /// The detail last resolved, with the selection and the generation that
    /// it was resolved for.
    pub detail: Option<(usize, u64, RevisionDetailView)>,
    /// The resolver at work, if one is.
    pub resolving: Option<ResolverView>,
}

/// `x + delta`, held within what a `usize` counts.
pub open spec fn clamp_add(x: usize, delta: int) -> usize {
    if x + delta < 0 {
        0
    } else if x + delta > usize::MAX {
        usize::MAX
    } else {
        (x + delta) as usize
    }
}

/// Rows of a bordered view of height `h` that show content.
pub open spec fn visible_rows(h: u16) -> int {
    if h >= 2 {
        h - 2
    } else {
        0
    }
}

/// The scroll offset of the list that shows entry `sel`, moved from `scroll`
/// by no more than that takes. A list that was never drawn is not scrolled.
pub open spec fn scroll_to_show(scroll: usize, sel: usize, log_height: u16) -> usize {
    let rows = visible_rows(log_height);
    if log_height == 0 {
        scroll
    } else if sel < scroll {
        sel
    } else if rows > 0 && sel - scroll >= rows {
        (sel - rows + 1) as usize
    } else {
        scroll
    }
}

/// Where "next file" (`forward`) or "previous file" scrolls the blocks of
/// `detail` to, from `offset`. Nothing moves where nothing is resolved, or
/// where the blocks have more lines than a `usize` counts.
pub open spec fn file_target(detail: Option<RevisionDetailView>, offset: usize, forward: bool) -> int {
    match detail {
        None => offset as int,
        Some(d) => {
            let lens = lens_of(blocks_of(d));
            if total_lines(lens) > usize::MAX {
                offset as int
            } else if forward {
                next_target(lens, offset as int)
            } else {
                prev_target(lens, offset as int)
            }
        },
    }
}

/// The count of invalidations after one more.
pub open spec fn next_generation(generation: u64) -> u64 {
    if generation == u64::MAX {
        0
    } else {
        (generation + 1) as u64
    }
}

impl ViewState {
    /// The view after the selection moved by `delta`: the index held at 0
    /// from below, the list scrolled just far enough to show it.
    pub open spec fn moved(self, delta: int) -> ViewState {
        ViewState {
            selection_idx: clamp_add(self.selection_idx, delta),
            commits_scroll_idx: scroll_to_show(
                self.commits_scroll_idx,
                clamp_add(self.selection_idx, delta),
                self.last_log_height,
            ),
            ..self
        }
    }

    /// The view with the diff scrolled by `delta` lines, not above its top.
    pub open spec fn scrolled(self, delta: int) -> ViewState {
        ViewState { diff_scroll_idx: clamp_add(self.diff_scroll_idx, delta), ..self }
    }
}

impl CachesView {
    /// The caches without the resolved selection.
    pub open spec fn without_detail(self) -> CachesView {
        CachesView { detail: None, resolving: None, ..self }
    }

    /// The caches after the window was invalidated: what is known of
    /// uncommitted changes stays.
    pub open spec fn without_window(self) -> CachesView {
        CachesView {
            generation: next_generation(self.generation),
            window: WindowView {
                pending: self.window.pending,
                cached: None,
                progress: ProgressView::Idle,
            },
            detail: None,
            resolving: None,
        }
    }

    /// The caches after all was invalidated.
    pub open spec fn emptied(self) -> CachesView {
        CachesView {
            generation: next_generation(self.generation),
            window: WindowView::fresh(),
            detail: None,
            resolving: None,
        }
    }

    /// The window that is held; empty where none is.
    pub open spec fn held_window(self) -> Seq<CommitSummaryView> {
        match self.window.cached {
            Some(held) => held.1,
            None => Seq::empty(),
        }
    }

    /// The detail that is held for selection `sel`, if one is: the one last
    /// resolved, if it was resolved for this selection and generation.
    pub open spec fn held_detail(self, sel: usize) -> Option<RevisionDetailView> {
        match self.detail {
            Some(held) => if held.0 == sel && held.1 == self.generation {
                Some(held.2)
            } else {
                None
            },
            None => None,
        }
    }

    /// The entry that selection `sel` points at, if it points at one of the
    /// window.
    pub open spec fn selected_entry(self, sel: usize) -> Option<RevisionRefView> {
        if sel < self.held_window().len() {
            Some(self.held_window()[sel as int].rev)
        } else {
            None
        }
    }

    /// What asking for the detail of selection `sel` leads to. A detail that
    /// is held is ready and nothing changes. A selection that points at no
    /// entry of the window resolves to nothing. Any other starts a resolver
    /// for its entry, whose first question is due.
    pub open spec fn detail_requested(self, sel: usize) -> (CachesView, DetailStepView) {
        if self.held_detail(sel) is Some {
            (self, DetailStepView::Ready)
        } else {
            match self.selected_entry(sel) {
                None => (self.without_detail(), DetailStepView::NoSelection),
                Some(rev) => (
                    CachesView {
                        detail: None,
                        resolving: Some(ResolverView::start(rev)),
                        ..self
                    },
                    DetailStepView::Ask(ResolverView::start(rev).wants()),
                ),
            }
        }
    }

    /// What answer `a` to the question that was due leads to, for selection
    /// `sel`. With no resolver at work nothing changes and nothing is
    /// resolved.
    pub open spec fn detail_supplied(self, sel: usize, a: AnswerView) -> (
        CachesView,
        DetailStepView,
    ) {
        match self.resolving {
            None => (self, DetailStepView::NoSelection),
            Some(v) => match v.step(a) {
                StepView::Next(next) => (
                    CachesView { resolving: Some(next), ..self },
                    DetailStepView::Ask(next.wants()),
                ),
                StepView::Done(detail) => (
                    CachesView {
                        detail: Some((sel, self.generation, detail)),
                        resolving: None,
                        ..self
                    },
                    DetailStepView::Ready,
                ),
            },
        }
    }
}

/// How the resolving stands, as the contracts speak of it.
pub enum DetailStepView {
    Ready,
    Ask(QueryView),
    NoSelection,
}

impl View for DetailStep {
    type V = DetailStepView;

    open spec fn view(&self) -> DetailStepView {
        match self {
            DetailStep::Ready => DetailStepView::Ready,
            DetailStep::Ask(q) => DetailStepView::Ask(q@),
            DetailStep::NoSelection => DetailStepView::NoSelection,
        }
    }
}

/// "Select previous" at the first entry stays there.
pub proof fn lemma_selection_stays_at_zero(delta: int)
    requires
        delta <= 0,
    ensures
        clamp_add(0, delta) == 0,
{
}

/// "Select next" always has a result: one further, or the largest index.
pub proof fn lemma_selection_moves_on(x: usize)
    ensures
        clamp_add(x, 1) == if x < usize::MAX {
            (x + 1) as usize
        } else {
            x
        },
{
}

/// After the list was scrolled to show an entry, the entry is among the
/// visible rows; and a list that showed it before is not scrolled at all.
pub proof fn lemma_scroll_to_show(scroll: usize, sel: usize, log_height: u16)
    requires
        visible_rows(log_height) > 0,
    ensures
        scroll_to_show(scroll, sel, log_height) <= sel < scroll_to_show(scroll, sel, log_height)
            + visible_rows(log_height),
        scroll <= sel < scroll + visible_rows(log_height) ==> scroll_to_show(
            scroll,
            sel,
            log_height,
        ) == scroll,
{
}

/// A selection past the window resolves to nothing, whatever else is held,
/// unless a detail is held for it.
pub proof fn lemma_selection_past_window(c: CachesView, sel: usize)
    requires
        sel >= c.held_window().len(),
        c.held_detail(sel) is None,
    ensures
        c.detail_requested(sel).1 is NoSelection,
{
}

/// A detail is resolved once. Asking again after it was made ready finds it
/// ready, changes nothing and asks nothing of the backend.
pub proof fn lemma_ready_detail_is_held(c: CachesView, sel: usize, a: AnswerView)
    ensures
        c.detail_requested(sel).1 is Ready ==> c.detail_requested(sel).0.detail_requested(sel) == (
            c.detail_requested(sel).0,
            DetailStepView::Ready,
        ),
        c.detail_supplied(sel, a).1 is Ready ==> c.detail_supplied(sel, a).0.detail_requested(sel)
            == (c.detail_supplied(sel, a).0, DetailStepView::Ready),
{
}

/// `x + delta`, held within what a `usize` counts.
pub fn add_clamped(x: usize, delta: i64) -> (r: usize)
    ensures
        r == clamp_add(x, delta as int),
{
    if delta >= 0 {
        let d: u64 = delta as u64;
        let room: u64 = (usize::MAX - x) as u64;
        if d > room {
            usize::MAX
        } else {
            x + d as usize
        }
    } else {
        let d: u64 = (-(delta + 1)) as u64 + 1;
        if d > x as u64 {
            0
        } else {
            x - d as usize
        }
    }
}

impl State {
    /// The caches are well formed.
    pub closed spec fn wf(&self) -> bool {
        &&& self.window.wf()
        &&& self.resolving matches Some(r) ==> r@.wf()
        &&& self.selected_commit_cached matches Some(held) ==> held.2.wf()
    }

    /// What is selected and how the views stand.
    pub closed spec fn shown(&self) -> ViewState {
        self.view
    }

    /// What the state holds besides what it shows.
    pub closed spec fn caches(&self) -> CachesView {
        CachesView {
            generation: self.generation,
            window: self.window@,
            detail: match self.selected_commit_cached {
                Some(held) => Some((held.0, held.1, held.2@)),
                None => None,
            },
            resolving: match self.resolving {
                Some(r) => Some(r@),
                None => None,
            },
        }
    }

    /// In a well-formed state the window that is held is in order, the
    /// resolver at work is well formed, and the files of the detail last
    /// resolved are in order.
    pub proof fn lemma_wf(&self)
        requires
            self.wf(),
        ensures
            self.caches().window.wf(),
            self.caches().resolving matches Some(r) ==> r.wf(),
            self.caches().detail matches Some(held) ==> sorted_by_path(
                held.2.files(),
            ),
    {
        self.window.lemma_wf();
    }

    /// The detail that is held for the present selection, if one is.
    pub open spec fn held_detail(&self) -> Option<RevisionDetailView> {
        self.caches().held_detail(self.shown().selection_idx)
    }

    /// The state at start: the first entry selected, nothing scrolled, a
    /// window of ten entries wanted, nothing held.
    pub fn new() -> (r: State)
        ensures
            r.wf(),
            r.shown() == (ViewState {
                selection_idx: 0,
                diff_scroll_idx: 0,
                commits_scroll_idx: 0,
                last_log_height: 0,
                last_diff_height: 0,
                wanted_commit_list_count: 10,
            }),
            r.caches() == (CachesView {
                generation: 0,
                window: WindowView::fresh(),
                detail: None,
                resolving: None,
            }),
    {
        State {
            view: ViewState {
                selection_idx: 0,
                diff_scroll_idx: 0,
                commits_scroll_idx: 0,
                last_log_height: 0,
                last_diff_height: 0,
                wanted_commit_list_count: 10,
            },
            generation: 0,
            window: WindowCache::new(),
            selected_commit_cached: None,
            resolving: None,
        }
    }

    /// What is selected and how the views stand.
    pub fn view_state(&self) -> (r: ViewState)
        ensures
            r == self.shown(),
    {
        self.view
    }

    /// How often the window was invalidated, counted modulo 2^64.
    pub fn generation(&self) -> (r: u64)
        ensures
            r == self.caches().generation,
    {
        self.generation
    }

    /// The window that is held, if one is.
    pub fn window(&self) -> (r: Option<&Vec<CommitSummary>>)
        ensures
            match r {
                Some(list) => self.caches().window.cached is Some && summary_views(list@)
                    == self.caches().held_window(),
                None => self.caches().window.cached is None,
            },
    {
        self.window.window()
    }

    /// The detail that is held for the present selection.
    pub fn selected(&self) -> (r: Option<&RevisionDetail>)
        ensures
            match r {
                Some(d) => self.held_detail() == Some(d@) && (self.wf() ==> d.wf()),
                None => self.held_detail() is None,
            },
    {
        match &self.selected_commit_cached {
            Some(held) => {
                if held.0 == self.view.selection_idx && held.1 == self.generation {
                    Some(&held.2)
                } else {
                    None
                }
            },
            None => None,
        }
    }

    /// Empties all caches: the window, what is known of uncommitted changes,
    /// and the resolved selection.
    pub fn invalidate_caches(&mut self)
        ensures
            final(self).wf(),
            final(self).shown() == old(self).shown(),
            final(self).caches() == old(self).caches().emptied(),
    {
        proof {
            assert(vstd::wrapping::u64_specs::wrapping_add(self.generation, 1) == next_generation(
                self.generation,
            ));
        }
        self.generation = self.generation.wrapping_add(1);
        self.window.invalidate_all();
        self.selected_commit_cached = None;
        self.resolving = None;
    }

    /// Takes note that the terminal has `height` rows, which is the size of
    /// the window to ask for. Where that is the size already asked for,
    /// nothing changes; else the window and the resolved selection are
    /// dropped.
    pub fn resize(&mut self, height: u16)
        ensures
            old(self).wf() ==> final(self).wf(),
            if old(self).shown().wanted_commit_list_count == height {
                *final(self) == *old(self)
            } else {
                &&& final(self).shown() == (ViewState {
                    wanted_commit_list_count: height as usize,
                    ..old(self).shown()
                })
                &&& final(self).caches() == old(self).caches().without_window()
            },
    {
        if self.view.wanted_commit_list_count != height as usize {
            proof {
                assert(vstd::wrapping::u64_specs::wrapping_add(self.generation, 1)
                    == next_generation(self.generation));
            }
            self.view.wanted_commit_list_count = height as usize;
            self.generation = self.generation.wrapping_add(1);
            self.window.invalidate();
            self.selected_commit_cached = None;
            self.resolving = None;
        }
    }

    /// Takes note of the heights at which the two views were drawn.
    pub fn set_viewports(&mut self, log_height: u16, diff_height: u16)
        ensures
            old(self).wf() ==> final(self).wf(),
            final(self).shown() == (ViewState {
                last_log_height: log_height,
                last_diff_height: diff_height,
                ..old(self).shown()
            }),
            final(self).caches() == old(self).caches(),
    {
        self.view.last_log_height = log_height;
        self.view.last_diff_height = diff_height;
    }

    /// Moves the selection by `delta` entries and drops the resolved
    /// selection. The list is scrolled as far as it takes to show the entry.
    pub fn move_selection(&mut self, delta: i64)
        ensures
            old(self).wf() ==> final(self).wf(),
            final(self).shown() == old(self).shown().moved(delta as int),
            final(self).caches() == old(self).caches().without_detail(),
    {
        let selection: usize = add_clamped(self.view.selection_idx, delta);
        self.view.selection_idx = selection;
        self.selected_commit_cached = None;
        self.resolving = None;
        if self.view.last_log_height != 0 {
            let rows: usize = if self.view.last_log_height >= 2 {
                (self.view.last_log_height - 2) as usize
            } else {
                0
            };
            if selection < self.view.commits_scroll_idx {
                self.view.commits_scroll_idx = selection;
            } else if rows > 0 && selection - self.view.commits_scroll_idx >= rows {
                self.view.commits_scroll_idx = selection - rows + 1;
            }
        }
    }

    /// Scrolls the diff view by `delta` lines. The caches stay as they are.
    pub fn scroll_diff(&mut self, delta: i64)
        ensures
            old(self).wf() ==> final(self).wf(),
            final(self).shown() == old(self).shown().scrolled(delta as int),
            final(self).caches() == old(self).caches(),
    {
        self.view.diff_scroll_idx = add_clamped(self.view.diff_scroll_idx, delta);
    }

    /// Scrolls the diff view to the next file (`forward`) or the previous
    /// one. The caches stay as they are.
    pub fn jump_file(&mut self, forward: bool)
        ensures
            old(self).wf() ==> final(self).wf(),
            final(self).shown() == (ViewState {
                diff_scroll_idx: file_target(
                    old(self).held_detail(),
                    old(self).shown().diff_scroll_idx,
                    forward,
                ) as usize,
                ..old(self).shown()
            }),
            0 <= file_target(old(self).held_detail(), old(self).shown().diff_scroll_idx, forward)
                <= usize::MAX,
            final(self).caches() == old(self).caches(),
    {
        let offset: usize = self.view.diff_scroll_idx;
        let target: usize = match self.selected() {
            None => offset,
            Some(detail) => {
                let blocks = project(detail);
                let lens = block_lens(&blocks);
                match checked_total(lens.as_slice()) {
                    None => offset,
                    Some(_) => {
                        if forward {
                            next_file_target(lens.as_slice(), offset)
                        } else {
                            prev_file_target(lens.as_slice(), offset)
                        }
                    },
                }
            },
        };
        self.view.diff_scroll_idx = target;
    }

    /// Computes the window of the size that is wanted. Called with `None` it
    /// asks for the window; called with the answer to the question that was
    /// due it goes on. A window that is held is ready at once, and nothing is
    /// asked of the backend.
    pub fn get_window(&mut self, answer: Option<Answer>) -> (r: WindowStep)
        requires
            old(self).wf(),
        ensures
            final(self).wf(),
            final(self).shown() == old(self).shown(),
            match answer {
                None => (final(self).caches().window, r@) == old(self).caches().window.requested(
                    old(self).shown().wanted_commit_list_count as nat,
                ),
                Some(a) => (final(self).caches().window, r@) == old(self).caches().window.supplied(
                    a@,
                ),
            },
            answer is None && old(self).caches().window.holds(
                old(self).shown().wanted_commit_list_count as nat,
            ) ==> r is Ready && *final(self) == *old(self),
            final(self).caches() == (CachesView {
                window: final(self).caches().window,
                ..old(self).caches()
            }),
    {
        match answer {
            None => self.window.request(self.view.wanted_commit_list_count),
            Some(a) => self.window.supply(a),
        }
    }

    /// Resolves the selected entry. Called with `None` it asks for the
    /// detail; called with the answer to the question that was due it goes
    /// on. A selection past the window, or with no window held, resolves to
    /// nothing. A detail that is held for the selection is ready at once.
    pub fn get_selected_commit(&mut self, answer: Option<Answer>) -> (r: DetailStep)
        requires
            old(self).wf(),
        ensures
            final(self).wf(),
            final(self).shown() == old(self).shown(),
            match answer {
                None => (final(self).caches(), r@) == old(self).caches().detail_requested(
                    old(self).shown().selection_idx,
                ),
                Some(a) => (final(self).caches(), r@) == old(self).caches().detail_supplied(
                    old(self).shown().selection_idx,
                    a@,
                ),
            },
            answer is None && old(self).held_detail() is Some ==> *final(self) == *old(self),
    {
        match answer {
            None => {
                if self.selected().is_some() {
                    return DetailStep::Ready;
                }
                self.selected_commit_cached = None;
                self.resolving = None;
                let rev = match self.window.window() {
                    Some(list) => {
                        if self.view.selection_idx < list.len() {
                            Some(list[self.view.selection_idx].rev.clone())
                        } else {
                            None
                        }
                    },
                    None => None,
                };
                match rev {
                    None => DetailStep::NoSelection,
                    Some(rev) => {
                        let resolver = Resolver::begin(rev);
                        let query = resolver.wanted();
                        self.resolving = Some(resolver);
                        DetailStep::Ask(query)
                    },
                }
            },
            Some(a) => {
                let mut resolving: Option<Resolver> = None;
                std::mem::swap(&mut self.resolving, &mut resolving);
                match resolving {
                    None => DetailStep::NoSelection,
                    Some(resolver) => match resolver.advance(a) {
                        Step::Next(next) => {
                            let query = next.wanted();
                            self.resolving = Some(next);
                            DetailStep::Ask(query)
                        },
                        Step::Done(detail) => {
                            self.selected_commit_cached = Some(
                                (self.view.selection_idx, self.generation, detail),
                            );
                            DetailStep::Ready
                        },
                    },
                }
            },
        }
    }

    /// The three columns of the history list, for the window that is held.
    pub fn commits_authors_times_lines(&self) -> (r: (Vec<ListLine>, Vec<ListLine>, Vec<ListLine>))
        ensures
            line_views(r.0@) == commit_column(
                self.caches().held_window(),
                self.shown().selection_idx as int,
            ),
            line_views(r.1@) == author_column(
                self.caches().held_window(),
                self.shown().selection_idx as int,
            ),
            line_views(r.2@) == time_column(
                self.caches().held_window(),
                self.shown().selection_idx as int,
            ),
    {
        match self.window.window() {
            Some(list) => commits_authors_times_lines(list, self.view.selection_idx),
            None => {
                let none: Vec<CommitSummary> = Vec::new();
                assert(summary_views(none@) =~= Seq::empty());
                commits_authors_times_lines(&none, self.view.selection_idx)
            },
        }
    }

    /// All that the next frame shows: the history list of the window that is
    /// held, and the blocks of the selection as far as it is resolved.
    pub fn draw(&self) -> (r: Screen)
        ensures
            line_views(r.commits@) == commit_column(
                self.caches().held_window(),
                self.shown().selection_idx as int,
            ),
            line_views(r.authors@) == author_column(
                self.caches().held_window(),
                self.shown().selection_idx as int,
            ),
            line_views(r.times@) == time_column(
                self.caches().held_window(),
                self.shown().selection_idx as int,
            ),
            r.commits_scroll == self.shown().commits_scroll_idx,
            block_views(r.blocks@) == shown_blocks(self.held_detail()),
            highlights(block_views(r.blocks@), self.shown().diff_scroll_idx as int, r.highlight),
            r.diff_scroll == self.shown().diff_scroll_idx,
    {
        let (commits, authors, times) = self.commits_authors_times_lines();
        let (blocks, highlight) = blocks_and_highlight(self.selected(), self.view.diff_scroll_idx);
        Screen {
            commits,
            authors,
            times,
            commits_scroll: self.view.commits_scroll_idx,
            blocks,
            highlight,
            diff_scroll: self.view.diff_scroll_idx,
        }
    }

    /// Applies one command. The result is `Break` for `Quit`, which changes
    /// nothing, and `Continue` for every other command. Moving the selection
    /// drops the resolved selection; scrolling the diff and jumping between
    /// files leave the caches as they are; a resize to another height drops
    /// the window and the resolved selection; a refresh empties all caches.
    pub fn handle_event(&mut self, command: Command) -> (r: ControlFlow<(), ()>)
        ensures
            old(self).wf() ==> final(self).wf(),
            r is Break <==> command is Quit,
            ({
                let view = old(self).shown();
                let caches = old(self).caches();
                let now = (final(self).shown(), final(self).caches());
                match command {
                    Command::Quit => *final(self) == *old(self),
                    Command::SelectNext => now == (view.moved(1), caches.without_detail()),
                    Command::SelectPrevious => now == (view.moved(-1), caches.without_detail()),
                    Command::SelectNextPage => now == (
                        view.moved(visible_rows(view.last_log_height)),
                        caches.without_detail(),
                    ),
                    Command::SelectPreviousPage => now == (
                        view.moved(-visible_rows(view.last_log_height)),
                        caches.without_detail(),
                    ),
                    Command::ScrollDiffDown => now == (view.scrolled(1), caches),
                    Command::ScrollDiffUp => now == (view.scrolled(-1), caches),
                    Command::ScrollDiffPageDown => now == (
                        view.scrolled(visible_rows(view.last_diff_height) / 2),
                        caches,
                    ),
                    Command::ScrollDiffPageUp => now == (
                        view.scrolled(-(visible_rows(view.last_diff_height) / 2)),
                        caches,
                    ),
                    Command::NextFile => now == (
                        ViewState {
                            diff_scroll_idx: file_target(
                                old(self).held_detail(),
                                view.diff_scroll_idx,
                                true,
                            ) as usize,
                            ..view
                        },
                        caches,
                    ),
                    Command::PreviousFile => now == (
                        ViewState {
                            diff_scroll_idx: file_target(
                                old(self).held_detail(),
                                view.diff_scroll_idx,
                                false,
                            ) as usize,
                            ..view
                        },
                        caches,
                    ),
                    Command::Resize { height } => if view.wanted_commit_list_count == height {
                        *final(self) == *old(self)
                    } else {
                        now == (
                            ViewState { wanted_commit_list_count: height as usize, ..view },
                            caches.without_window(),
                        )
                    },
                    Command::Refresh => now == (view, caches.emptied()),
                }
            }),
    {
        let log_rows: i64 = if self.view.last_log_height >= 2 {
            (self.view.last_log_height - 2) as i64
        } else {
            0
        };
        let diff_rows: i64 = if self.view.last_diff_height >= 2 {
            (self.view.last_diff_height - 2) as i64
        } else {
            0
        };
        match command {
            Command::Quit => {
                return ControlFlow::Break(());
            },
            Command::SelectNext => self.move_selection(1),
            Command::SelectPrevious => self.move_selection(-1),
            Command::SelectNextPage => self.move_selection(log_rows),
            Command::SelectPreviousPage => self.move_selection(-log_rows),
            Command::ScrollDiffDown => self.scroll_diff(1),
            Command::ScrollDiffUp => self.scroll_diff(-1),
            Command::ScrollDiffPageDown => self.scroll_diff(diff_rows / 2),
            Command::ScrollDiffPageUp => self.scroll_diff(-(diff_rows / 2)),
            Command::NextFile => self.jump_file(true),
            Command::PreviousFile => self.jump_file(false),
            Command::Resize { height } => self.resize(height),
            Command::Refresh => self.invalidate_caches(),
        }
        ControlFlow::Continue(())
    }
}

} // verus!

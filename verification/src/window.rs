//! The window: the entries of the history that are held at one time, as many
//! as were asked for. Entries for uncommitted changes come first, the commits
//! of the walk after them.
//!
//! The window is kept until a larger one is asked for or it is invalidated.
//! Whether there are uncommitted changes is kept apart from it, until that is
//! invalidated by name. Computing a window takes questions to the backend:
//! `request` and `supply` each say how it stands, and with `Ask` which
//! question is due.

use vstd::prelude::*;
use crate::backend::{Answer, AnswerView, Query, QueryView, unexpected};
use crate::commit::{make_node, node_of};
use crate::model::{
    BackendError, CommitSummary, CommitSummaryView, RevisionRef, RevisionRefView, Signature,
    SignatureView, summary_views,
};
use crate::walker::{
    NodeView, Walker, WalkerView, is_prefix, lemma_supply, lemma_window_grows, run,
};

verus! {

/// Whether the working tree and the index hold uncommitted changes.
#[derive(Clone, Copy, Debug, PartialEq, Eq)]
pub struct PendingChanges {
    pub worktree: bool,
    pub index: bool,
}

/// The entry that stands for the changes of the working tree.
pub open spec fn worktree_entry() -> CommitSummaryView {
    CommitSummaryView {
        rev: RevisionRefView::Worktree,
        title: "Uncommitted changes"@,
        signature: SignatureView {
            author_name: Seq::empty(),
            author_email: Seq::empty(),
            time: Seq::empty(),
        },
    }
}

/// The entry that stands for the changes staged in the index.
pub open spec fn index_entry() -> CommitSummaryView {
    CommitSummaryView {
        rev: RevisionRefView::Index,
        title: "Staged changes"@,
        signature: SignatureView {
            author_name: Seq::empty(),
            author_email: Seq::empty(),
            time: Seq::empty(),
        },
    }
}

/// The entries for the uncommitted changes that there are: the working tree
/// before the index.
pub open spec fn pseudo_entries(p: PendingChanges) -> Seq<CommitSummaryView> {
    if p.worktree && p.index {
        seq![worktree_entry(), index_entry()]
    } else if p.worktree {
        seq![worktree_entry()]
    } else if p.index {
        seq![index_entry()]
    } else {
        Seq::empty()
    }
}

/// How many commits a window of `size` entries has room for.
pub open spec fn walk_limit(size: nat, p: PendingChanges) -> nat {
    if size > pseudo_entries(p).len() {
        (size - pseudo_entries(p).len()) as nat
    } else {
        0
    }
}

/// The window that a walk gives: the entries for uncommitted changes, then
/// the commits in the order the walk emitted them.
pub open spec fn window_entries(p: PendingChanges, w: WalkerView) -> Seq<CommitSummaryView> {
    pseudo_entries(p) + w.summaries()
}

/// The window opens with the entries for the uncommitted changes and holds
/// nothing but commits after them.
pub open spec fn is_ordered(p: PendingChanges, window: Seq<CommitSummaryView>) -> bool {
    &&& is_prefix(pseudo_entries(p), window)
    &&& forall|i: int|
        pseudo_entries(p).len() <= i < window.len() ==> (#[trigger] window[i]).rev is Commit
}

/// Every commit that the walk was told of has a commit's entry.
pub open spec fn holds_commits(w: WalkerView) -> bool {
    forall|i: int| 0 <= i < w.loaded.len() ==> (#[trigger] w.loaded[i]).summary.rev is Commit
}

/// How far the computing of a window is, as the contracts speak of it.
pub enum ProgressView {
    /// No window is being computed.
    Idle,
    /// A window of `size` waits to hear of uncommitted changes.
    AwaitPending { size: nat },
    /// A window of `size` waits to hear which commit is the head.
    AwaitHead { size: nat },
    /// A window of `size` waits for a commit of its walk.
    Walking { size: nat, walker: WalkerView },
}

/// The window cache as the contracts speak of it.
pub struct WindowView {
    pub pending: Option<PendingChanges>,
    /// The window held, with the size it was asked for.
    pub cached: Option<(nat, Seq<CommitSummaryView>)>,
    pub progress: ProgressView,
}

/// How the computing of a window stands.
pub enum WindowStepView {
    /// The window is held.
    Ready,
    /// This question is due.
    Ask(QueryView),
    /// The backend failed; no window is held.
    Failed(Seq<char>),
}

impl WindowView {
    /// Nothing held, nothing under way.
    pub open spec fn fresh() -> WindowView {
        WindowView { pending: None, cached: None, progress: ProgressView::Idle }
    }

    /// A window of at least `size` is held.
    pub open spec fn holds(self, size: nat) -> bool {
        self.cached is Some && size <= (self.cached->0).0
    }

    /// The state and step once it is known which changes are pending: a
    /// window with no room for commits is done, any other asks for the head.
    pub open spec fn begun(self, size: nat, p: PendingChanges) -> (WindowView, WindowStepView) {
        if walk_limit(size, p) == 0 {
            (
                WindowView {
                    pending: Some(p),
                    cached: Some((size, pseudo_entries(p))),
                    progress: ProgressView::Idle,
                },
                WindowStepView::Ready,
            )
        } else {
            (
                WindowView {
                    pending: Some(p),
                    cached: None,
                    progress: ProgressView::AwaitHead { size },
                },
                WindowStepView::Ask(QueryView::Head),
            )
        }
    }

    /// What asking for a window of `size` leads to. A held window of that size
    /// or more stays as it is and nothing is asked of the backend.
    pub open spec fn requested(self, size: nat) -> (WindowView, WindowStepView) {
        if self.holds(size) {
            (self, WindowStepView::Ready)
        } else {
            match self.pending {
                Some(p) => self.begun(size, p),
                None => (
                    WindowView {
                        pending: None,
                        cached: None,
                        progress: ProgressView::AwaitPending { size },
                    },
                    WindowStepView::Ask(QueryView::PendingChanges),
                ),
            }
        }
    }

    /// The state after a failure: what was under way is dropped.
    pub open spec fn failed(self, why: Seq<char>) -> (WindowView, WindowStepView) {
        (WindowView { progress: ProgressView::Idle, ..self }, WindowStepView::Failed(why))
    }

    /// What the answer `a` to the question that was due leads to.
    pub open spec fn supplied(self, a: AnswerView) -> (WindowView, WindowStepView) {
        match self.progress {
            ProgressView::Idle => self.failed(unexpected()),
            ProgressView::AwaitPending { size } => match a {
                AnswerView::PendingChanges { worktree, index } => self.begun(
                    size,
                    PendingChanges { worktree, index },
                ),
                AnswerView::Failed(why) => self.failed(why),
                _ => self.failed(unexpected()),
            },
            ProgressView::AwaitHead { size } => match a {
                AnswerView::Head { id } => (
                    WindowView {
                        progress: ProgressView::Walking {
                            size,
                            walker: WalkerView::start(walk_limit(size, self.pending->0), id),
                        },
                        ..self
                    },
                    WindowStepView::Ask(QueryView::Commit { id }),
                ),
                AnswerView::Failed(why) => self.failed(why),
                _ => self.failed(unexpected()),
            },
            ProgressView::Walking { size, walker } => match a.commit(walker.wants()->0) {
                Err(why) => self.failed(why),
                Ok(c) => match node_of(c) {
                    Err(why) => self.failed(why),
                    Ok(node) => {
                        let next = walker.supply(node);
                        match next.wants() {
                            Some(id) => (
                                WindowView {
                                    progress: ProgressView::Walking { size, walker: next },
                                    ..self
                                },
                                WindowStepView::Ask(QueryView::Commit { id }),
                            ),
                            None => (
                                WindowView {
                                    cached: Some((size, window_entries(self.pending->0, next))),
                                    progress: ProgressView::Idle,
                                    ..self
                                },
                                WindowStepView::Ready,
                            ),
                        }
                    },
                },
            },
        }
    }

    /// A window that is held is in order.
    pub open spec fn held_in_order(self) -> bool {
        self.cached matches Some(held) ==> self.pending is Some && is_ordered(
            self.pending->0,
            held.1,
        )
    }

    /// A window that is held is in order, and while one is computed none is
    /// held and its walk is well formed and waits for a commit.
    pub open spec fn wf(self) -> bool {
        &&& self.held_in_order()
        &&& match self.progress {
            ProgressView::Idle => true,
            ProgressView::AwaitPending { size } => self.cached is None,
            ProgressView::AwaitHead { size } => {
                &&& self.cached is None
                &&& self.pending is Some
                &&& walk_limit(size, self.pending->0) > 0
            },
            ProgressView::Walking { size, walker } => {
                &&& self.cached is None
                &&& self.pending is Some
                &&& walker.wf()
                &&& walker.limit == walk_limit(size, self.pending->0)
                &&& walker.wants() is Some
                &&& holds_commits(walker)
            },
        }
    }
}

/// The window of a walk is in order.
pub proof fn lemma_window_entries_ordered(p: PendingChanges, w: WalkerView)
    requires
        holds_commits(w),
        w.wf(),
    ensures
        is_ordered(p, window_entries(p, w)),
{
    let window = window_entries(p, w);
    let n = pseudo_entries(p).len();
    assert(pseudo_entries(p) =~= window.subrange(0, n as int));
    assert forall|i: int| n <= i < window.len() implies (#[trigger] window[i]).rev is Commit by {
        let k = i - n;
        assert(window[i] == w.summaries()[k]);
        assert(0 <= w.emitted[k] < w.loaded.len());
    }
}

/// In a window the working tree comes before the index, and both before any
/// commit.
pub proof fn lemma_pseudo_entries_first(p: PendingChanges, window: Seq<CommitSummaryView>)
    requires
        is_ordered(p, window),
    ensures
        ({
            let n = pseudo_entries(p).len();
            &&& n == (if p.worktree { 1nat } else { 0nat }) + (if p.index { 1nat } else { 0nat })
            &&& n <= window.len()
            &&& p.worktree ==> window[0].rev is Worktree
            &&& p.index ==> window[n - 1].rev is Index
            &&& forall|i: int| n <= i < window.len() ==> (#[trigger] window[i]).rev is Commit
            &&& forall|i: int| 0 <= i < n ==> !((#[trigger] window[i]).rev is Commit)
        }),
{
    let n = pseudo_entries(p).len();
    assert forall|i: int| 0 <= i < n implies window[i] == pseudo_entries(p)[i] by {
        assert(window.subrange(0, n as int)[i] == window[i]);
    }
}

/// Every step keeps the state well formed: what is held stays in order.
pub proof fn lemma_steps_keep_wf(s: WindowView, size: nat, a: AnswerView)
    requires
        s.wf(),
    ensures
        s.requested(size).0.wf(),
        s.supplied(a).0.wf(),
{
    assert forall|p: PendingChanges| is_ordered(p, pseudo_entries(p)) by {
        assert(pseudo_entries(p) =~= pseudo_entries(p).subrange(0, pseudo_entries(p).len() as int));
    }
    match s.progress {
        ProgressView::Walking { size, walker } => {
            match a.commit(walker.wants()->0) {
                Ok(c) => match node_of(c) {
                    Ok(node) => {
                        lemma_supply(walker, node);
                        lemma_window_entries_ordered(s.pending->0, walker.supply(node));
                    },
                    Err(_) => {},
                },
                Err(_) => {},
            }
        },
        ProgressView::AwaitHead { size } => {
            match a {
                AnswerView::Head { id } => {
                    let w = WalkerView::start(walk_limit(size, s.pending->0), id);
                    assert(w.seen.no_duplicates());
                },
                _ => {},
            }
        },
        _ => {},
    }
}

/// A failure leaves no window: while a window is being computed none is
/// held, and an answer that fails the computation leaves none.
pub proof fn lemma_failure_leaves_no_window(s: WindowView, a: AnswerView)
    requires
        s.wf(),
        !(s.progress is Idle),
        s.supplied(a).1 is Failed,
    ensures
        s.cached is None,
        s.supplied(a).0.cached is None,
        s.supplied(a).0.progress is Idle,
{
}

/// A window is computed once. Asking again for a window that was just made
/// ready, at its size or a smaller one, finds it ready, changes nothing and
/// asks nothing of the backend.
pub proof fn lemma_ready_window_is_held(s: WindowView, size: nat, smaller: nat, a: AnswerView)
    requires
        smaller <= size,
    ensures
        s.requested(size).1 is Ready ==> s.requested(size).0.requested(smaller) == (
            s.requested(size).0,
            WindowStepView::Ready,
        ),
        (s.progress matches ProgressView::AwaitPending { size: n } && n == size)
            && s.supplied(a).1 is Ready ==> s.supplied(a).0.requested(smaller) == (
            s.supplied(a).0,
            WindowStepView::Ready,
        ),
        (s.progress matches ProgressView::Walking { size: n, .. } && n == size)
            && s.supplied(a).1 is Ready ==> s.supplied(a).0.requested(smaller) == (
            s.supplied(a).0,
            WindowStepView::Ready,
        ),
{
}

/// The steps that a backend's answers lead through: from `step`, each
/// question is put to `backend` and its answer supplied, until the window is
/// ready, the backend fails, or `fuel` questions were put.
pub open spec fn drive(
    backend: spec_fn(QueryView) -> AnswerView,
    s: WindowView,
    step: WindowStepView,
    fuel: nat,
) -> (WindowView, WindowStepView)
    decreases fuel,
{
    match step {
        WindowStepView::Ask(q) => if fuel == 0 {
            (s, step)
        } else {
            drive(backend, s.supplied(backend(q)).0, s.supplied(backend(q)).1, (fuel - 1) as nat)
        },
        _ => (s, step),
    }
}

/// The commits that a backend holds, as the walk takes them.
pub open spec fn nodes_of(backend: spec_fn(QueryView) -> AnswerView) -> Map<Seq<char>, NodeView> {
    Map::new(
        |id: Seq<char>|
            backend(QueryView::Commit { id }).commit(id) is Ok && node_of(
                backend(QueryView::Commit { id }).commit(id)->Ok_0,
            ) is Ok,
        |id: Seq<char>| node_of(backend(QueryView::Commit { id }).commit(id)->Ok_0)->Ok_0,
    )
}

/// The window that `backend` gives for `size` where `p` is pending: the
/// entries for what is pending and, if there is room for commits, those that
/// a finished walk from the head emits.
pub open spec fn is_window_of(
    backend: spec_fn(QueryView) -> AnswerView,
    p: PendingChanges,
    size: nat,
    window: Seq<CommitSummaryView>,
) -> bool {
    if walk_limit(size, p) == 0 {
        window == pseudo_entries(p)
    } else {
        &&& backend(QueryView::Head) is Head
        &&& exists|fuel: nat|
            {
                let w = #[trigger] run(
                    nodes_of(backend),
                    WalkerView::start(walk_limit(size, p), backend(QueryView::Head)->Head_id),
                    fuel,
                );
                &&& w is Some
                &&& w->0.finished()
                &&& window == window_entries(p, w->0)
            }
    }
}

/// Nothing is driven once no question is due.
proof fn lemma_drive_rests(
    backend: spec_fn(QueryView) -> AnswerView,
    s: WindowView,
    step: WindowStepView,
    fuel: nat,
)
    requires
        !(step is Ask),
    ensures
        drive(backend, s, step, fuel) == (s, step),
{
}

/// One question is put and the rest is driven from its answer.
proof fn lemma_drive_asks(
    backend: spec_fn(QueryView) -> AnswerView,
    s: WindowView,
    q: QueryView,
    fuel: nat,
)
    requires
        fuel > 0,
    ensures
        drive(backend, s, WindowStepView::Ask(q), fuel) == drive(
            backend,
            s.supplied(backend(q)).0,
            s.supplied(backend(q)).1,
            (fuel - 1) as nat,
        ),
{
}

/// Driving a walk to a ready window is running the walk over the backend's
/// commits.
proof fn lemma_drive_walks(backend: spec_fn(QueryView) -> AnswerView, s: WindowView, fuel: nat)
    requires
        s.wf(),
        s.progress is Walking,
        drive(
            backend,
            s,
            WindowStepView::Ask(QueryView::Commit { id: s.progress->walker.wants()->0 }),
            fuel,
        ).1 is Ready,
    ensures
        ({
            let end = drive(
                backend,
                s,
                WindowStepView::Ask(QueryView::Commit { id: s.progress->walker.wants()->0 }),
                fuel,
            ).0;
            let w = run(nodes_of(backend), s.progress->walker, fuel);
            &&& w is Some
            &&& w->0.finished()
            &&& end.pending == s.pending
            &&& end.cached == Some(
                (s.progress->Walking_size, window_entries(s.pending->0, w->0)),
            )
        }),
    decreases fuel,
{
    let walker = s.progress->walker;
    let id = walker.wants()->0;
    let q = QueryView::Commit { id };
    let a = backend(q);
    assert(fuel > 0);
    lemma_drive_asks(backend, s, q, fuel);
    let after = s.supplied(a);
    let rest = (fuel - 1) as nat;
    let c = a.commit(id)->Ok_0;
    let node = node_of(c)->Ok_0;
    assert(a.commit(id) is Ok && node_of(c) is Ok) by {
        if !(a.commit(id) is Ok && node_of(c) is Ok) {
            assert(after.1 is Failed);
            lemma_drive_rests(backend, after.0, after.1, rest);
        }
    }
    assert(nodes_of(backend).contains_key(id));
    assert(nodes_of(backend)[id] == node);
    assert(node.id == id);
    lemma_supply(walker, node);
    lemma_steps_keep_wf(s, 0, a);
    let next = walker.supply(node);
    assert(run(nodes_of(backend), walker, fuel) == run(nodes_of(backend), next, rest));
    if next.wants() is Some {
        assert(after.0.progress is Walking);
        assert(after.1 == WindowStepView::Ask(QueryView::Commit { id: next.wants()->0 }));
        lemma_drive_walks(backend, after.0, rest);
    } else {
        lemma_drive_rests(backend, after.0, after.1, rest);
        assert(run(nodes_of(backend), next, rest) == Some(next));
    }
}

/// What a ready window holds is the backend's window: driving the steps from
/// a request that finds no window held leaves, once ready, the window that
/// the backend gives for what is pending.
pub proof fn lemma_ready_window(
    backend: spec_fn(QueryView) -> AnswerView,
    s: WindowView,
    size: nat,
    fuel: nat,
)
    requires
        s.wf(),
        !s.holds(size),
        drive(backend, s.requested(size).0, s.requested(size).1, fuel).1 is Ready,
    ensures
        ({
            let end = drive(backend, s.requested(size).0, s.requested(size).1, fuel).0;
            &&& end.wf()
            &&& end.pending is Some
            &&& s.pending is Some ==> end.pending == s.pending
            &&& end.cached is Some
            &&& (end.cached->0).0 == size
            &&& is_window_of(backend, end.pending->0, size, (end.cached->0).1)
        }),
{
    let asked = s.requested(size);
    lemma_steps_keep_wf(s, size, backend(QueryView::Head));
    match s.pending {
        Some(p) => {
            lemma_begun_is_window(backend, s, size, p, fuel);
        },
        None => {
            assert(fuel > 0);
            let q = QueryView::PendingChanges;
            let a = backend(q);
            let rest = (fuel - 1) as nat;
            lemma_drive_asks(backend, asked.0, q, fuel);
            lemma_steps_keep_wf(asked.0, size, a);
            match a {
                AnswerView::PendingChanges { worktree, index } => {
                    lemma_begun_is_window(
                        backend,
                        asked.0,
                        size,
                        PendingChanges { worktree, index },
                        rest,
                    );
                },
                _ => {
                    lemma_drive_rests(backend, asked.0.supplied(a).0, asked.0.supplied(a).1, rest);
                },
            }
        },
    }
}

/// The same, from the point at which it is known what is pending.
proof fn lemma_begun_is_window(
    backend: spec_fn(QueryView) -> AnswerView,
    s: WindowView,
    size: nat,
    p: PendingChanges,
    fuel: nat,
)
    requires
        s.wf(),
        drive(backend, s.begun(size, p).0, s.begun(size, p).1, fuel).1 is Ready,
    ensures
        ({
            let end = drive(backend, s.begun(size, p).0, s.begun(size, p).1, fuel).0;
            &&& end.wf()
            &&& end.pending == Some(p)
            &&& end.cached is Some
            &&& (end.cached->0).0 == size
            &&& is_window_of(backend, p, size, (end.cached->0).1)
        }),
{
    let begun = s.begun(size, p);
    assert(is_ordered(p, pseudo_entries(p))) by {
        assert(pseudo_entries(p) =~= pseudo_entries(p).subrange(0, pseudo_entries(p).len() as int));
    }
    assert(begun.0.wf());
    if walk_limit(size, p) > 0 {
        assert(fuel > 0);
        let q = QueryView::Head;
        let a = backend(q);
        let rest = (fuel - 1) as nat;
        lemma_drive_asks(backend, begun.0, q, fuel);
        lemma_steps_keep_wf(begun.0, size, a);
        let after = begun.0.supplied(a);
        match a {
            AnswerView::Head { id } => {
                let start = WalkerView::start(walk_limit(size, p), id);
                assert(start.wants() == Some(id));
                assert(after.0.progress is Walking);
                lemma_drive_walks(backend, after.0, rest);
                lemma_drive_keeps_wf(backend, after.0, after.1, rest);
                let w = run(nodes_of(backend), start, rest);
                assert(w is Some && w->0.finished());
            },
            _ => {
                lemma_drive_rests(backend, after.0, after.1, rest);
            },
        }
    } else {
        lemma_drive_rests(backend, begun.0, begun.1, fuel);
    }
}

/// Driving keeps the state well formed.
pub proof fn lemma_drive_keeps_wf(
    backend: spec_fn(QueryView) -> AnswerView,
    s: WindowView,
    step: WindowStepView,
    fuel: nat,
)
    requires
        s.wf(),
    ensures
        drive(backend, s, step, fuel).0.wf(),
    decreases fuel,
{
    match step {
        WindowStepView::Ask(q) => {
            if fuel > 0 {
                lemma_steps_keep_wf(s, 0, backend(q));
                lemma_drive_keeps_wf(
                    backend,
                    s.supplied(backend(q)).0,
                    s.supplied(backend(q)).1,
                    (fuel - 1) as nat,
                );
            }
        },
        _ => {},
    }
}

/// A larger window extends a smaller one. Over one repository, from one head
/// and with the same uncommitted changes, the window of the smaller size is
/// the start of the window of the larger size: as long as its size says, or
/// all of the larger window. A size under the number of entries for
/// uncommitted changes is left out: those entries are never dropped.
pub proof fn lemma_larger_window_extends(
    p: PendingChanges,
    repo: Map<Seq<char>, NodeView>,
    head: Seq<char>,
    small: nat,
    large: nat,
    fuel_small: nat,
    fuel_large: nat,
)
    requires
        pseudo_entries(p).len() <= small <= large,
        run(repo, WalkerView::start(walk_limit(small, p), head), fuel_small) is Some,
        run(repo, WalkerView::start(walk_limit(large, p), head), fuel_large) is Some,
        run(repo, WalkerView::start(walk_limit(small, p), head), fuel_small)->0.finished(),
        run(repo, WalkerView::start(walk_limit(large, p), head), fuel_large)->0.finished(),
    ensures
        ({
            let first = window_entries(
                p,
                run(repo, WalkerView::start(walk_limit(small, p), head), fuel_small)->0,
            );
            let second = window_entries(
                p,
                run(repo, WalkerView::start(walk_limit(large, p), head), fuel_large)->0,
            );
            &&& is_prefix(first, second)
            &&& first.len() == if small <= second.len() {
                small
            } else {
                second.len()
            }
        }),
{
    let a = run(repo, WalkerView::start(walk_limit(small, p), head), fuel_small)->0;
    let b = run(repo, WalkerView::start(walk_limit(large, p), head), fuel_large)->0;
    lemma_window_grows(
        repo,
        head,
        walk_limit(small, p),
        walk_limit(large, p),
        fuel_small,
        fuel_large,
    );
    assert(window_entries(p, a) =~= window_entries(p, b).subrange(
        0,
        window_entries(p, a).len() as int,
    ));
}

/// Growing the window extends it. Where a window of `small` entries was
/// computed, and after it, with nothing invalidated, one of `large` entries
/// from the same backend, the first is the start of the second: as long as
/// its size says, or all of the second. Sizes under the number of entries for
/// uncommitted changes are left out: those entries are never dropped.
pub proof fn lemma_growing_window_extends(
    backend: spec_fn(QueryView) -> AnswerView,
    s: WindowView,
    small: nat,
    large: nat,
    fuel_small: nat,
    fuel_large: nat,
)
    requires
        s.wf(),
        s.cached is None,
        small < large,
        drive(backend, s.requested(small).0, s.requested(small).1, fuel_small).1 is Ready,
        ({
            let first = drive(backend, s.requested(small).0, s.requested(small).1, fuel_small).0;
            &&& drive(backend, first.requested(large).0, first.requested(large).1, fuel_large).1 is Ready
            &&& pseudo_entries(first.pending->0).len() <= small
        }),
    ensures
        ({
            let first = drive(backend, s.requested(small).0, s.requested(small).1, fuel_small).0;
            let second = drive(
                backend,
                first.requested(large).0,
                first.requested(large).1,
                fuel_large,
            ).0;
            &&& first.cached is Some
            &&& second.cached is Some
            &&& is_prefix((first.cached->0).1, (second.cached->0).1)
            &&& (first.cached->0).1.len() == if small <= (second.cached->0).1.len() {
                small
            } else {
                (second.cached->0).1.len()
            }
        }),
{
    lemma_ready_window(backend, s, small, fuel_small);
    let first = drive(backend, s.requested(small).0, s.requested(small).1, fuel_small).0;
    lemma_ready_window(backend, first, large, fuel_large);
    let second = drive(backend, first.requested(large).0, first.requested(large).1, fuel_large).0;
    let p = first.pending->0;
    let w1 = (first.cached->0).1;
    let w2 = (second.cached->0).1;
    if walk_limit(small, p) == 0 {
        lemma_pseudo_entries_first(p, w2);
        assert(w1 =~= w2.subrange(0, w1.len() as int));
    } else {
        let head = backend(QueryView::Head)->Head_id;
        let f1 = choose|fuel: nat|
            {
                let w = #[trigger] run(
                    nodes_of(backend),
                    WalkerView::start(walk_limit(small, p), head),
                    fuel,
                );
                w is Some && w->0.finished() && w1 == window_entries(p, w->0)
            };
        let f2 = choose|fuel: nat|
            {
                let w = #[trigger] run(
                    nodes_of(backend),
                    WalkerView::start(walk_limit(large, p), head),
                    fuel,
                );
                w is Some && w->0.finished() && w2 == window_entries(p, w->0)
            };
        lemma_larger_window_extends(p, nodes_of(backend), head, small, large, f1, f2);
    }
}

/// How far the computing of a window is.
pub enum Progress {
    /// No window is being computed.
    Idle,
    /// A window of `size` waits to hear of uncommitted changes.
    AwaitPending { size: usize },
    /// A window of `size` waits to hear which commit is the head.
    AwaitHead { size: usize },
    /// A window of `size` waits for a commit of its walk.
    Walking { size: usize, walker: Walker },
}

impl View for Progress {
    type V = ProgressView;

    open spec fn view(&self) -> ProgressView {
        match self {
            Progress::Idle => ProgressView::Idle,
            Progress::AwaitPending { size } => ProgressView::AwaitPending { size: *size as nat },
            Progress::AwaitHead { size } => ProgressView::AwaitHead { size: *size as nat },
            Progress::Walking { size, walker } => ProgressView::Walking {
                size: *size as nat,
                walker: walker@,
            },
        }
    }
}

/// How the computing of a window stands.
#[derive(Clone, Debug, PartialEq, Eq)]
pub enum WindowStep {
    /// The window is held.
    Ready,
    /// This question is due.
    Ask(Query),
    /// The backend failed; no window is held.
    Failed(BackendError),
}

impl View for WindowStep {
    type V = WindowStepView;

    open spec fn view(&self) -> WindowStepView {
        match self {
            WindowStep::Ready => WindowStepView::Ready,
            WindowStep::Ask(q) => WindowStepView::Ask(q@),
            WindowStep::Failed(e) => WindowStepView::Failed(e.message@),
        }
    }
}

/// The window that is held, and the one that is being computed.
pub struct WindowCache {
    pending: Option<PendingChanges>,
    cached: Option<(usize, Vec<CommitSummary>)>,
    progress: Progress,
}

/// The held window as the contracts speak of it.
pub open spec fn cached_view(c: Option<(usize, Vec<CommitSummary>)>) -> Option<
    (nat, Seq<CommitSummaryView>),
> {
    match c {
        Some((size, list)) => Some((size as nat, summary_views(list@))),
        None => None,
    }
}

impl View for WindowCache {
    type V = WindowView;

    closed spec fn view(&self) -> WindowView {
        WindowView {
            pending: self.pending,
            cached: cached_view(self.cached),
            progress: self.progress@,
        }
    }
}

/// The entries for the uncommitted changes that there are.
pub fn pseudo_list(p: PendingChanges) -> (r: Vec<CommitSummary>)
    ensures
        summary_views(r@) == pseudo_entries(p),
{
    let mut out: Vec<CommitSummary> = Vec::new();
    if p.worktree {
        out.push(
            CommitSummary {
                rev: RevisionRef::Worktree,
                title: "Uncommitted changes".to_string(),
                signature: Signature::empty(),
            },
        );
    }
    if p.index {
        out.push(
            CommitSummary {
                rev: RevisionRef::Index,
                title: "Staged changes".to_string(),
                signature: Signature::empty(),
            },
        );
    }
    proof {
        let s = SignatureView {
            author_name: Seq::<char>::empty(),
            author_email: Seq::<char>::empty(),
            time: Seq::<char>::empty(),
        };
        assert forall|i: int| 0 <= i < out@.len() implies (#[trigger] out@[i])@.signature == s by {
            let g = out@[i]@.signature;
            assert(g.author_name =~= s.author_name);
            assert(g.author_email =~= s.author_email);
            assert(g.time =~= s.time);
        }
        assert(summary_views(out@) =~= pseudo_entries(p));
    }
    out
}

/// How many commits a window of `size` entries has room for.
pub fn commit_room(size: usize, p: PendingChanges) -> (r: usize)
    ensures
        r == walk_limit(size as nat, p),
{
    let taken: usize = if p.worktree && p.index {
        2
    } else if p.worktree || p.index {
        1
    } else {
        0
    };
    size.saturating_sub(taken)
}

impl WindowCache {
    /// The cache is well formed, and so is the walk under way.
    pub closed spec fn wf(&self) -> bool {
        &&& self@.wf()
        &&& self.progress matches Progress::Walking { walker, .. } ==> walker.wf()
    }

    /// A well-formed cache is well formed as the contracts speak of it: the
    /// window that it holds is in order.
    pub proof fn lemma_wf(&self)
        requires
            self.wf(),
        ensures
            self@.wf(),
    {
    }

    /// Nothing held, nothing under way.
    pub fn new() -> (r: WindowCache)
        ensures
            r.wf(),
            r@ == WindowView::fresh(),
    {
        WindowCache { pending: None, cached: None, progress: Progress::Idle }
    }

    /// The window that is held, if one is.
    pub fn window(&self) -> (r: Option<&Vec<CommitSummary>>)
        ensures
            match r {
                Some(list) => self@.cached is Some && (self@.cached->0).1 == summary_views(list@),
                None => self@.cached is None,
            },
    {
        match &self.cached {
            Some(held) => Some(&held.1),
            None => None,
        }
    }

    /// Drops the window and what is under way. What is known of uncommitted
    /// changes stays.
    pub fn invalidate(&mut self)
        ensures
            final(self).wf(),
            final(self)@ == (WindowView {
                pending: old(self)@.pending,
                cached: None,
                progress: ProgressView::Idle,
            }),
    {
        self.cached = None;
        self.progress = Progress::Idle;
    }

    /// Drops all that is held.
    pub fn invalidate_all(&mut self)
        ensures
            final(self).wf(),
            final(self)@ == WindowView::fresh(),
    {
        self.pending = None;
        self.cached = None;
        self.progress = Progress::Idle;
    }

    /// Goes on once it is known which changes are pending.
    fn begin(&mut self, size: usize, p: PendingChanges) -> (r: WindowStep)
        ensures
            final(self).wf(),
            (final(self)@, r@) == old(self)@.begun(size as nat, p),
    {
        self.pending = Some(p);
        proof {
            assert(pseudo_entries(p) =~= pseudo_entries(p).subrange(
                0,
                pseudo_entries(p).len() as int,
            ));
        }
        if commit_room(size, p) == 0 {
            self.cached = Some((size, pseudo_list(p)));
            self.progress = Progress::Idle;
            WindowStep::Ready
        } else {
            self.cached = None;
            self.progress = Progress::AwaitHead { size };
            WindowStep::Ask(Query::Head)
        }
    }

    /// Drops what is under way and reports `error`.
    fn fail(&mut self, error: BackendError) -> (r: WindowStep)
        requires
            old(self)@.held_in_order(),
        ensures
            final(self).wf(),
            final(self).pending == old(self).pending,
            final(self).cached == old(self).cached,
            final(self).progress is Idle,
            r@ == WindowStepView::Failed(error.message@),
    {
        self.progress = Progress::Idle;
        WindowStep::Failed(error)
    }

    /// Asks for a window of `size` entries. Where a window of that size or
    /// more is held, it is ready and nothing changes. Otherwise what is held
    /// is dropped and the window is computed anew.
    pub fn request(&mut self, size: usize) -> (r: WindowStep)
        requires
            old(self).wf(),
        ensures
            final(self).wf(),
            (final(self)@, r@) == old(self)@.requested(size as nat),
            old(self)@.holds(size as nat) ==> *final(self) == *old(self) && r is Ready,
    {
        let held = match &self.cached {
            Some(held) => size <= held.0,
            None => false,
        };
        if held {
            return WindowStep::Ready;
        }
        match self.pending {
            Some(p) => self.begin(size, p),
            None => {
                self.cached = None;
                self.progress = Progress::AwaitPending { size };
                WindowStep::Ask(Query::PendingChanges)
            },
        }
    }

    /// Takes the answer to the question that was due.
    pub fn supply(&mut self, answer: Answer) -> (r: WindowStep)
        requires
            old(self).wf(),
        ensures
            final(self).wf(),
            (final(self)@, r@) == old(self)@.supplied(answer@),
    {
        let mut progress = Progress::Idle;
        std::mem::swap(&mut self.progress, &mut progress);
        match progress {
            Progress::Idle => self.fail(
                BackendError { message: "unexpected answer from the backend".to_string() },
            ),
            Progress::AwaitPending { size } => match answer {
                Answer::PendingChanges { worktree, index } => self.begin(
                    size,
                    PendingChanges { worktree, index },
                ),
                Answer::Failed(e) => self.fail(e),
                _ => self.fail(
                    BackendError { message: "unexpected answer from the backend".to_string() },
                ),
            },
            Progress::AwaitHead { size } => match answer {
                Answer::Head { id } => {
                    let p = match self.pending {
                        Some(p) => p,
                        None => PendingChanges { worktree: false, index: false },
                    };
                    let ask = id.clone();
                    let walker = Walker::new(commit_room(size, p), id);
                    self.progress = Progress::Walking { size, walker };
                    WindowStep::Ask(Query::Commit { id: ask })
                },
                Answer::Failed(e) => self.fail(e),
                _ => self.fail(
                    BackendError { message: "unexpected answer from the backend".to_string() },
                ),
            },
            Progress::Walking { size, walker } => {
                let mut walker = walker;
                let id = match walker.wanted() {
                    Some(id) => id,
                    None => String::new(),
                };
                match answer.into_commit(&id) {
                    Err(e) => self.fail(e),
                    Ok(commit) => match make_node(&commit) {
                        Err(e) => self.fail(e),
                        Ok(node) => {
                            proof {
                                lemma_supply(walker@, node@);
                            }
                            walker.supply(node);
                            match walker.wanted() {
                                Some(next) => {
                                    self.progress = Progress::Walking { size, walker };
                                    WindowStep::Ask(Query::Commit { id: next })
                                },
                                None => {
                                    let p = match self.pending {
                                        Some(p) => p,
                                        None => PendingChanges { worktree: false, index: false },
                                    };
                                    let mut list = pseudo_list(p);
                                    let mut commits = walker.summaries();
                                    proof {
                                        assert(summary_views(list@ + commits@) =~= summary_views(
                                            list@,
                                        ) + summary_views(commits@));
                                        lemma_window_entries_ordered(p, walker@);
                                    }
                                    list.append(&mut commits);
                                    self.cached = Some((size, list));
                                    WindowStep::Ready
                                },
                            }
                        },
                    },
                }
            },
        }
    }
}

} // verus!

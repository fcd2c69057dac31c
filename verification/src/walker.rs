//! The walk of the commit graph, most recent commit first.
//!
//! The walk holds identifiers and what it has been told of them, never a
//! handle into the backend. It says which commit it wants to be told of next
//! (`wanted`), takes what the backend holds for it (`supply`), and between two
//! such questions emits every commit that it can. A commit can be emitted
//! once all commits discovered so far are known, since any of them may be the
//! most recent.
//!
//! The commits that wait to be emitted are kept in the order of their
//! discovery, and the most recent is found by a scan. Of commits of one time
//! the one discovered first is emitted first, so that the order of the walk
//! depends on the repository alone.

use vstd::prelude::*;
use crate::model::{CommitSummary, CommitSummaryView, summary_views};
use crate::text::views;

verus! {

/// A commit as the walk sees it.
pub struct NodeView {
    pub id: Seq<char>,
    pub time: i64,
    pub parents: Seq<Seq<char>>,
    pub summary: CommitSummaryView,
}

/// A walk as the contracts speak of it.
pub struct WalkerView {
    /// How many commits the walk may emit.
    pub limit: nat,
    /// The identifiers discovered, in the order of their discovery.
    pub seen: Seq<Seq<char>>,
    /// The commits told of so far: `loaded[i]` is the commit `seen[i]`.
    pub loaded: Seq<NodeView>,
    /// Indices into `loaded` of the commits emitted, in the order of emission.
    pub emitted: Seq<int>,
}

/// `a` is the start of `b`.
pub open spec fn is_prefix<A>(a: Seq<A>, b: Seq<A>) -> bool {
    a.len() <= b.len() && a == b.subrange(0, a.len() as int)
}

/// `seen` with those of `parents` appended that it does not hold yet, each
/// once, in their order.
pub open spec fn add_unseen(seen: Seq<Seq<char>>, parents: Seq<Seq<char>>) -> Seq<Seq<char>>
    decreases parents.len(),
{
    if parents.len() == 0 {
        seen
    } else if seen.contains(parents[0]) {
        add_unseen(seen, parents.drop_first())
    } else {
        add_unseen(seen.push(parents[0]), parents.drop_first())
    }
}

impl WalkerView {
    /// The walk before anything is known but the head.
    pub open spec fn start(limit: nat, head: Seq<char>) -> WalkerView {
        WalkerView { limit, seen: seq![head], loaded: Seq::empty(), emitted: Seq::empty() }
    }

    /// What is known is known of what was discovered, nothing was discovered
    /// or emitted twice, no more was emitted than the limit allows, and the
    /// parents of what was emitted are discovered.
    pub open spec fn wf(self) -> bool {
        &&& self.loaded.len() <= self.seen.len()
        &&& forall|i: int| 0 <= i < self.loaded.len() ==> (#[trigger] self.loaded[i]).id == self.seen[i]
        &&& self.seen.no_duplicates()
        &&& self.emitted.len() <= self.limit
        &&& self.emitted.no_duplicates()
        &&& forall|k: int|
            0 <= k < self.emitted.len() ==> 0 <= (#[trigger] self.emitted[k]) < self.loaded.len()
        &&& forall|k: int, j: int|
            0 <= k < self.emitted.len() && 0 <= j < self.loaded[self.emitted[k]].parents.len()
                ==> self.seen.contains(#[trigger] self.loaded[self.emitted[k]].parents[j])
    }

    /// The commit that the walk needs to be told of next, if any.
    pub open spec fn wants(self) -> Option<Seq<char>> {
        if self.emitted.len() < self.limit && self.loaded.len() < self.seen.len() {
            Some(self.seen[self.loaded.len() as int])
        } else {
            None
        }
    }

    /// Commit `i` is known and not emitted yet.
    pub open spec fn waits(self, i: int) -> bool {
        0 <= i < self.loaded.len() && !self.emitted.contains(i)
    }

    /// Commit `i` is the one to emit next: of those that wait it is the most
    /// recent, and of several that recent the one discovered first.
    pub open spec fn is_pick(self, i: int) -> bool {
        &&& self.waits(i)
        &&& forall|j: int| #[trigger]
            self.waits(j) ==> self.loaded[j].time < self.loaded[i].time || (self.loaded[j].time
                == self.loaded[i].time && i <= j)
    }

    /// The commit to emit next, where one waits.
    pub open spec fn pick(self) -> int {
        choose|i: int| self.is_pick(i)
    }

    /// A commit can be emitted now: the limit is not reached, every commit
    /// discovered is known, and one of them waits.
    pub open spec fn can_emit(self) -> bool {
        &&& self.emitted.len() < self.limit
        &&& self.loaded.len() == self.seen.len()
        &&& exists|i: int| self.is_pick(i)
    }

    /// The walk after it emitted commit `i` and discovered its parents.
    pub open spec fn emit(self, i: int) -> WalkerView {
        WalkerView {
            emitted: self.emitted.push(i),
            seen: add_unseen(self.seen, self.loaded[i].parents),
            ..self
        }
    }

    /// The walk after it emitted all it can.
    pub open spec fn settle(self) -> WalkerView
        decreases self.limit - self.emitted.len(),
    {
        if self.can_emit() {
            self.emit(self.pick()).settle()
        } else {
            self
        }
    }

    /// The walk after it was told of the commit it wanted.
    pub open spec fn supply(self, node: NodeView) -> WalkerView {
        WalkerView { loaded: self.loaded.push(node), ..self }.settle()
    }

    /// Nothing is left to do: nothing is wanted and nothing can be emitted.
    pub open spec fn finished(self) -> bool {
        self.wants() is None && !self.can_emit()
    }

    /// The summaries of the commits emitted, in the order of emission.
    pub open spec fn summaries(self) -> Seq<CommitSummaryView> {
        Seq::new(self.emitted.len(), |k: int| self.loaded[self.emitted[k]].summary)
    }

    /// `self` is at most as far as `other` on the same walk: whatever it
    /// emitted, `other` emitted first and in that order, and until `self` has
    /// reached its limit the two know the same.
    pub open spec fn behind(self, other: WalkerView) -> bool {
        &&& self.limit <= other.limit
        &&& is_prefix(self.emitted, other.emitted)
        &&& is_prefix(self.loaded, other.loaded)
        &&& self.emitted.len() < self.limit ==> {
            &&& self.seen == other.seen
            &&& self.loaded == other.loaded
            &&& self.emitted == other.emitted
        }
    }
}

/// The walk over a repository that holds the commits `repo`, after at most
/// `fuel` commits were asked for. `None` where a commit that the walk wanted
/// is not in the repository.
pub open spec fn run(repo: Map<Seq<char>, NodeView>, w: WalkerView, fuel: nat) -> Option<WalkerView>
    decreases fuel,
{
    match w.wants() {
        None => Some(w),
        Some(id) => if fuel == 0 {
            Some(w)
        } else if repo.contains_key(id) && repo[id].id == id {
            run(repo, w.supply(repo[id]), (fuel - 1) as nat)
        } else {
            None
        },
    }
}

/// Being a start is transitive.
pub proof fn lemma_prefix_transitive<A>(a: Seq<A>, b: Seq<A>, c: Seq<A>)
    requires
        is_prefix(a, b),
        is_prefix(b, c),
    ensures
        is_prefix(a, c),
{
    assert(a =~= c.subrange(0, a.len() as int));
}

/// Discovering parents keeps what was seen, in place, and adds nothing twice.
pub proof fn lemma_add_unseen(seen: Seq<Seq<char>>, parents: Seq<Seq<char>>)
    requires
        seen.no_duplicates(),
    ensures
        is_prefix(seen, add_unseen(seen, parents)),
        add_unseen(seen, parents).no_duplicates(),
        forall|k: int| 0 <= k < parents.len() ==> add_unseen(seen, parents).contains(#[trigger] parents[k]),
    decreases parents.len(),
{
    if parents.len() > 0 {
        let next = if seen.contains(parents[0]) {
            seen
        } else {
            seen.push(parents[0])
        };
        assert(next.contains(parents[0])) by {
            if !seen.contains(parents[0]) {
                assert(next[seen.len() as int] == parents[0]);
            }
        }
        lemma_add_unseen(next, parents.drop_first());
        let all = add_unseen(seen, parents);
        assert(seen =~= next.subrange(0, seen.len() as int));
        lemma_prefix_transitive(seen, next, all);
        assert forall|k: int| 0 <= k < parents.len() implies all.contains(#[trigger] parents[k]) by {
            if k == 0 {
                let at = choose|at: int| 0 <= at < next.len() && next[at] == parents[0];
                assert(all.subrange(0, next.len() as int)[at] == all[at]);
            } else {
                assert(parents.drop_first()[k - 1] == parents[k]);
            }
        }
    } else {
        assert(seen =~= seen.subrange(0, seen.len() as int));
    }
}

/// Where a commit waits, one of those that wait is the next to emit.
pub proof fn lemma_pick_exists(w: WalkerView, n: int)
    requires
        0 <= n <= w.loaded.len(),
    ensures
        (forall|j: int| 0 <= j < n ==> !w.waits(j)) || (exists|b: int|
            {
                &&& 0 <= b < n
                &&& w.waits(b)
                &&& forall|j: int| #[trigger]
                    w.waits(j) && j < n ==> w.loaded[j].time < w.loaded[b].time || (
                    w.loaded[j].time == w.loaded[b].time && b <= j)
            }),
    decreases n,
{
    if n > 0 {
        lemma_pick_exists(w, n - 1);
        let i = n - 1;
        if forall|j: int| 0 <= j < i ==> !w.waits(j) {
            if w.waits(i) {
                assert(forall|j: int| #[trigger]
                    w.waits(j) && j < n ==> w.loaded[j].time < w.loaded[i].time || (
                    w.loaded[j].time == w.loaded[i].time && i <= j));
            }
        } else {
            let b = choose|b: int|
                {
                    &&& 0 <= b < i
                    &&& w.waits(b)
                    &&& forall|j: int| #[trigger]
                        w.waits(j) && j < i ==> w.loaded[j].time < w.loaded[b].time || (
                        w.loaded[j].time == w.loaded[b].time && b <= j)
                };
            if w.waits(i) && w.loaded[i].time > w.loaded[b].time {
                assert(forall|j: int| #[trigger]
                    w.waits(j) && j < n ==> w.loaded[j].time < w.loaded[i].time || (
                    w.loaded[j].time == w.loaded[i].time && i <= j));
            } else {
                assert(forall|j: int| #[trigger]
                    w.waits(j) && j < n ==> w.loaded[j].time < w.loaded[b].time || (
                    w.loaded[j].time == w.loaded[b].time && b <= j));
            }
        }
    }
}

/// No commit is emitted twice: the commits emitted differ in their
/// identifiers.
pub proof fn lemma_emitted_once(w: WalkerView, a: int, b: int)
    requires
        w.wf(),
        0 <= a < w.emitted.len(),
        0 <= b < w.emitted.len(),
        a != b,
    ensures
        w.loaded[w.emitted[a]].id != w.loaded[w.emitted[b]].id,
{
    assert(0 <= w.emitted[a] < w.loaded.len());
    assert(0 <= w.emitted[b] < w.loaded.len());
}

/// A finished walk stopped at its limit or explored all there is: it emitted
/// every commit that it discovered, and with each commit all its parents.
pub proof fn lemma_finished_walk(w: WalkerView)
    requires
        w.wf(),
        w.finished(),
        w.emitted.len() < w.limit,
    ensures
        w.loaded.len() == w.seen.len(),
        forall|i: int| 0 <= i < w.seen.len() ==> w.emitted.contains(i),
        forall|k: int, j: int|
            0 <= k < w.emitted.len() && 0 <= j < w.loaded[w.emitted[k]].parents.len() ==> exists|
                m: int,
            |
                0 <= m < w.emitted.len() && w.loaded[w.emitted[m]].id
                    == #[trigger] w.loaded[w.emitted[k]].parents[j],
{
    lemma_pick_exists(w, w.loaded.len() as int);
    assert forall|i: int| 0 <= i < w.seen.len() implies w.emitted.contains(i) by {
        if w.waits(i) {
            let b = choose|b: int|
                {
                    &&& 0 <= b < w.loaded.len()
                    &&& w.waits(b)
                    &&& forall|j: int| #[trigger]
                        w.waits(j) && j < w.loaded.len() ==> w.loaded[j].time < w.loaded[b].time
                            || (w.loaded[j].time == w.loaded[b].time && b <= j)
                };
            assert(w.is_pick(b));
        }
    }
    assert forall|k: int, j: int|
        0 <= k < w.emitted.len() && 0 <= j < w.loaded[w.emitted[k]].parents.len() implies exists|
        m: int,
    |
        0 <= m < w.emitted.len() && w.loaded[w.emitted[m]].id
            == #[trigger] w.loaded[w.emitted[k]].parents[j] by {
        let p = w.loaded[w.emitted[k]].parents[j];
        assert(w.seen.contains(p));
        let i = choose|i: int| 0 <= i < w.seen.len() && w.seen[i] == p;
        assert(w.emitted.contains(i));
        let m = choose|m: int| 0 <= m < w.emitted.len() && w.emitted[m] == i;
        assert(w.loaded[w.emitted[m]].id == p);
    }
}

/// Only one commit can be the next to emit.
pub proof fn lemma_pick_unique(w: WalkerView, i: int, j: int)
    requires
        w.is_pick(i),
        w.is_pick(j),
    ensures
        i == j,
{
    assert(w.waits(i) && w.waits(j));
}

/// Emitting the next commit keeps the walk well formed.
pub proof fn lemma_emit_wf(w: WalkerView)
    requires
        w.wf(),
        w.can_emit(),
    ensures
        w.emit(w.pick()).wf(),
        w.emit(w.pick()).loaded == w.loaded,
        w.emit(w.pick()).limit == w.limit,
        w.emit(w.pick()).emitted == w.emitted.push(w.pick()),
{
    let i = w.pick();
    let e = w.emit(i);
    assert(w.waits(i));
    lemma_add_unseen(w.seen, w.loaded[i].parents);
    assert forall|k: int| 0 <= k < e.loaded.len() implies (#[trigger] e.loaded[k]).id == e.seen[k] by {
        assert(e.seen.subrange(0, w.seen.len() as int)[k] == e.seen[k]);
    }
    assert(e.emitted.no_duplicates()) by {
        assert forall|a: int, b: int| 0 <= a < e.emitted.len() && 0 <= b < e.emitted.len() && a != b implies e.emitted[a] != e.emitted[b] by {
            if a == w.emitted.len() {
                assert(w.emitted[b] == e.emitted[b]);
            } else if b == w.emitted.len() {
                assert(w.emitted[a] == e.emitted[a]);
            }
        }
    }
}

/// Settling keeps the walk well formed, keeps what is known and only adds to
/// what was emitted. Nothing can be emitted once it is done.
pub proof fn lemma_settle(w: WalkerView)
    requires
        w.wf(),
    ensures
        w.settle().wf(),
        w.settle().limit == w.limit,
        w.settle().loaded == w.loaded,
        is_prefix(w.emitted, w.settle().emitted),
        !w.settle().can_emit(),
    decreases w.limit - w.emitted.len(),
{
    if w.can_emit() {
        lemma_emit_wf(w);
        let e = w.emit(w.pick());
        lemma_settle(e);
        assert(w.emitted =~= e.emitted.subrange(0, w.emitted.len() as int));
        lemma_prefix_transitive(w.emitted, e.emitted, w.settle().emitted);
    } else {
        assert(w.emitted =~= w.emitted.subrange(0, w.emitted.len() as int));
    }
}

/// Telling the walk of the commit it wanted keeps it well formed and adds to
/// what is known and emitted.
pub proof fn lemma_supply(w: WalkerView, node: NodeView)
    requires
        w.wf(),
        w.wants() == Some(node.id),
    ensures
        w.supply(node).wf(),
        w.supply(node).limit == w.limit,
        w.supply(node).loaded == w.loaded.push(node),
        is_prefix(w.emitted, w.supply(node).emitted),
        !w.supply(node).can_emit(),
{
    let told = WalkerView { loaded: w.loaded.push(node), ..w };
    assert(told.wf());
    lemma_settle(told);
}

/// Two walks that know the same and differ in their limit at most stay on one
/// walk while they settle.
proof fn lemma_settle_behind(a: WalkerView, b: WalkerView)
    requires
        a.wf(),
        b.wf(),
        a.limit <= b.limit,
        a.seen == b.seen,
        a.loaded == b.loaded,
        a.emitted == b.emitted,
    ensures
        a.settle().behind(b.settle()),
    decreases a.limit - a.emitted.len(),
{
    lemma_settle(a);
    lemma_settle(b);
    assert forall|i: int| a.is_pick(i) == b.is_pick(i) by {
        assert forall|j: int| a.waits(j) == b.waits(j) by {}
    }
    if a.can_emit() {
        assert(b.can_emit());
        assert(a.pick() == b.pick());
        lemma_emit_wf(a);
        lemma_emit_wf(b);
        lemma_settle_behind(a.emit(a.pick()), b.emit(b.pick()));
    } else if a.emitted.len() < a.limit {
        assert(!b.can_emit());
        assert(a.loaded =~= b.loaded.subrange(0, a.loaded.len() as int));
    } else {
        assert(a.loaded =~= b.loaded.subrange(0, a.loaded.len() as int));
    }
}

/// A run keeps the walk well formed and only adds to what is known and
/// emitted.
pub proof fn lemma_run_extends(repo: Map<Seq<char>, NodeView>, w: WalkerView, fuel: nat)
    requires
        w.wf(),
        run(repo, w, fuel) is Some,
    ensures
        run(repo, w, fuel)->0.wf(),
        run(repo, w, fuel)->0.limit == w.limit,
        is_prefix(w.emitted, run(repo, w, fuel)->0.emitted),
        is_prefix(w.loaded, run(repo, w, fuel)->0.loaded),
    decreases fuel,
{
    match w.wants() {
        None => {
            assert(w.emitted =~= w.emitted.subrange(0, w.emitted.len() as int));
            assert(w.loaded =~= w.loaded.subrange(0, w.loaded.len() as int));
        },
        Some(id) => {
            if fuel == 0 {
                assert(w.emitted =~= w.emitted.subrange(0, w.emitted.len() as int));
                assert(w.loaded =~= w.loaded.subrange(0, w.loaded.len() as int));
            } else {
                let next = w.supply(repo[id]);
                lemma_supply(w, repo[id]);
                lemma_run_extends(repo, next, (fuel - 1) as nat);
                let last = run(repo, w, fuel)->0;
                lemma_prefix_transitive(w.emitted, next.emitted, last.emitted);
                assert(w.loaded =~= next.loaded.subrange(0, w.loaded.len() as int));
                lemma_prefix_transitive(w.loaded, next.loaded, last.loaded);
            }
        },
    }
}

/// Two finished runs over one repository, the first of a walk that is behind
/// the second: the first emitted a start of what the second emitted, and
/// stopped short of the second only at its limit.
proof fn lemma_run_behind(
    repo: Map<Seq<char>, NodeView>,
    a: WalkerView,
    b: WalkerView,
    fuel_a: nat,
    fuel_b: nat,
)
    requires
        a.wf(),
        b.wf(),
        a.behind(b),
        run(repo, a, fuel_a) is Some,
        run(repo, b, fuel_b) is Some,
        run(repo, a, fuel_a)->0.finished(),
        run(repo, b, fuel_b)->0.finished(),
    ensures
        run(repo, a, fuel_a)->0.behind(run(repo, b, fuel_b)->0),
        run(repo, a, fuel_a)->0.emitted.len() < a.limit ==> run(repo, a, fuel_a)->0.emitted
            == run(repo, b, fuel_b)->0.emitted,
    decreases fuel_a,
{
    let ra = run(repo, a, fuel_a)->0;
    let rb = run(repo, b, fuel_b)->0;
    lemma_run_extends(repo, b, fuel_b);
    match a.wants() {
        None => {
            assert(ra == a);
            if a.emitted.len() < a.limit {
                assert(!b.can_emit()) by {
                    assert forall|i: int| a.is_pick(i) == b.is_pick(i) by {
                        assert forall|j: int| a.waits(j) == b.waits(j) by {}
                    }
                }
                assert(b.wants() is None);
                assert(rb == b);
            } else {
                lemma_prefix_transitive(a.emitted, b.emitted, rb.emitted);
                lemma_prefix_transitive(a.loaded, b.loaded, rb.loaded);
            }
        },
        Some(id) => {
            assert(fuel_a > 0);
            assert(b.wants() == Some(id));
            assert(fuel_b > 0);
            let node = repo[id];
            lemma_supply(a, node);
            lemma_supply(b, node);
            let told_a = WalkerView { loaded: a.loaded.push(node), ..a };
            let told_b = WalkerView { loaded: b.loaded.push(node), ..b };
            assert(told_a.wf());
            assert(told_b.wf());
            lemma_settle_behind(told_a, told_b);
            lemma_run_behind(repo, a.supply(node), b.supply(node), (fuel_a - 1) as nat, (fuel_b - 1) as nat);
        },
    }
}

/// Summaries of a walk that is behind another are a start of the other's.
pub proof fn lemma_behind_summaries(a: WalkerView, b: WalkerView)
    requires
        a.wf(),
        a.behind(b),
    ensures
        is_prefix(a.summaries(), b.summaries()),
{
    assert forall|k: int| 0 <= k < a.emitted.len() implies a.summaries()[k] == b.summaries()[k] by {
        assert(b.emitted.subrange(0, a.emitted.len() as int)[k] == b.emitted[k]);
        let i = a.emitted[k];
        assert(b.loaded.subrange(0, a.loaded.len() as int)[i] == b.loaded[i]);
    }
    assert(a.summaries() =~= b.summaries().subrange(0, a.summaries().len() as int));
}

/// A larger window extends a smaller one. Of two finished walks from one head
/// over one repository, the first with the smaller limit, the first emitted
/// exactly the commits that the second emitted first: as many as its limit
/// allows, or all of them.
pub proof fn lemma_window_grows(
    repo: Map<Seq<char>, NodeView>,
    head: Seq<char>,
    small: nat,
    large: nat,
    fuel_small: nat,
    fuel_large: nat,
)
    requires
        small <= large,
        run(repo, WalkerView::start(small, head), fuel_small) is Some,
        run(repo, WalkerView::start(large, head), fuel_large) is Some,
        run(repo, WalkerView::start(small, head), fuel_small)->0.finished(),
        run(repo, WalkerView::start(large, head), fuel_large)->0.finished(),
    ensures
        ({
            let first = run(repo, WalkerView::start(small, head), fuel_small)->0.summaries();
            let second = run(repo, WalkerView::start(large, head), fuel_large)->0.summaries();
            &&& is_prefix(first, second)
            &&& first.len() == if small <= second.len() {
                small
            } else {
                second.len()
            }
        }),
{
    let a = WalkerView::start(small, head);
    let b = WalkerView::start(large, head);
    assert(a.emitted =~= b.emitted.subrange(0, 0));
    assert(a.loaded =~= b.loaded.subrange(0, 0));
    lemma_run_behind(repo, a, b, fuel_small, fuel_large);
    lemma_run_extends(repo, a, fuel_small);
    lemma_run_extends(repo, b, fuel_large);
    let ra = run(repo, a, fuel_small)->0;
    let rb = run(repo, b, fuel_large)->0;
    lemma_behind_summaries(ra, rb);
}

/// A commit as the walk needs it.
#[derive(Clone, Debug, PartialEq, Eq)]
pub struct Node {
    /// Full identifier.
    pub id: String,
    /// When it was committed, in seconds since the epoch: its recency.
    pub time: i64,
    /// Identifiers of its parents.
    pub parents: Vec<String>,
    /// The line that the history list shows for it.
    pub summary: CommitSummary,
}

impl View for Node {
    type V = NodeView;

    open spec fn view(&self) -> NodeView {
        NodeView {
            id: self.id@,
            time: self.time,
            parents: views(self.parents@),
            summary: self.summary@,
        }
    }
}

/// The views of a sequence of nodes.
pub open spec fn node_views(nodes: Seq<Node>) -> Seq<NodeView> {
    nodes.map_values(|n: Node| n@)
}

/// A walk in progress.
pub struct Walker {
    limit: usize,
    seen: Vec<String>,
    loaded: Vec<Node>,
    emitted: Vec<usize>,
    /// `taken[i]` tells whether commit `i` was emitted.
    taken: Vec<bool>,
}

impl View for Walker {
    type V = WalkerView;

    closed spec fn view(&self) -> WalkerView {
        WalkerView {
            limit: self.limit as nat,
            seen: views(self.seen@),
            loaded: node_views(self.loaded@),
            emitted: self.emitted@.map_values(|i: usize| i as int),
        }
    }
}

/// Tells whether `list` holds `id`.
fn holds(list: &Vec<String>, id: &String) -> (r: bool)
    ensures
        r == views(list@).contains(id@),
{
    let mut k: usize = 0;
    while k < list.len()
        invariant
            k <= list.len(),
            forall|j: int| 0 <= j < k ==> views(list@)[j] != id@,
        decreases list.len() - k,
    {
        if list[k] == *id {
            assert(views(list@)[k as int] == id@);
            return true;
        }
        k += 1;
    }
    false
}

impl Walker {
    /// A well-formed walk is well formed as the contracts speak of it, and
    /// has emitted all it can.
    pub proof fn lemma_wf(&self)
        requires
            self.wf(),
        ensures
            self@.wf(),
            !self@.can_emit(),
    {
    }

    /// The walk is well formed and has emitted all it can.
    pub closed spec fn wf(&self) -> bool {
        &&& self@.wf()
        &&& !self@.can_emit()
        &&& self.taken@.len() == self.loaded@.len()
        &&& forall|i: int|
            0 <= i < self.taken@.len() ==> (#[trigger] self.taken@[i]) == self@.emitted.contains(i)
    }

    /// A walk from `head` that emits at most `limit` commits.
    pub fn new(limit: usize, head: String) -> (r: Walker)
        ensures
            r.wf(),
            r@ == WalkerView::start(limit as nat, head@),
    {
        let mut seen: Vec<String> = Vec::new();
        seen.push(head);
        let r = Walker { limit, seen, loaded: Vec::new(), emitted: Vec::new(), taken: Vec::new() };
        proof {
            assert(r@.seen =~= seq![head@]);
            assert(r@.loaded =~= Seq::empty());
            assert(r@.emitted =~= Seq::empty());
        }
        r
    }

    /// The identifier of the commit that the walk needs to be told of next.
    /// `None` once the walk is finished.
    pub fn wanted(&self) -> (r: Option<String>)
        requires
            self.wf(),
        ensures
            match r {
                Some(id) => self@.wants() == Some(id@),
                None => self@.wants() is None && self@.finished(),
            },
    {
        if self.emitted.len() < self.limit && self.loaded.len() < self.seen.len() {
            Some(self.seen[self.loaded.len()].clone())
        } else {
            None
        }
    }

    /// Index of the commit to emit next, if one waits.
    fn next_pick(&self) -> (r: Option<usize>)
        requires
            self@.wf(),
            self.taken@.len() == self.loaded@.len(),
            forall|i: int|
                0 <= i < self.taken@.len() ==> (#[trigger] self.taken@[i]) == self@.emitted.contains(
                    i,
                ),
        ensures
            match r {
                Some(i) => self@.is_pick(i as int),
                None => forall|i: int| !self@.is_pick(i),
            },
    {
        let mut best: Option<usize> = None;
        let mut n: usize = 0;
        while n < self.loaded.len()
            invariant
                n <= self.loaded.len(),
                self.taken@.len() == self.loaded@.len(),
                forall|i: int|
                    0 <= i < self.taken@.len() ==> (#[trigger] self.taken@[i])
                        == self@.emitted.contains(i),
                match best {
                    Some(b) => {
                        &&& b < n
                        &&& self@.waits(b as int)
                        &&& forall|j: int| #[trigger]
                            self@.waits(j) && j < n ==> self@.loaded[j].time < self@.loaded[b as int].time
                                || (self@.loaded[j].time == self@.loaded[b as int].time && b <= j)
                    },
                    None => forall|j: int| #[trigger] self@.waits(j) ==> j >= n,
                },
            decreases self.loaded.len() - n,
        {
            if !self.taken[n] {
                assert(self@.waits(n as int));
                match best {
                    Some(b) => {
                        if self.loaded[n].time > self.loaded[b].time {
                            best = Some(n);
                        }
                    },
                    None => {
                        best = Some(n);
                    },
                }
            }
            n += 1;
        }
        best
    }

    /// Appends to `seen` the identifiers in `parents` that it does not hold.
    fn discover(seen: &mut Vec<String>, parents: &Vec<String>)
        ensures
            views(final(seen)@) == add_unseen(views(old(seen)@), views(parents@)),
    {
        let mut k: usize = 0;
        assert(views(parents@).subrange(0, parents@.len() as int) =~= views(parents@));
        while k < parents.len()
            invariant
                k <= parents.len(),
                add_unseen(views(old(seen)@), views(parents@)) == add_unseen(
                    views(seen@),
                    views(parents@).subrange(k as int, parents@.len() as int),
                ),
            decreases parents.len() - k,
        {
            let ghost rest = views(parents@).subrange(k as int, parents@.len() as int);
            assert(rest.drop_first() =~= views(parents@).subrange(
                k as int + 1,
                parents@.len() as int,
            ));
            assert(rest[0] == parents@[k as int]@);
            if !holds(seen, &parents[k]) {
                let id = parents[k].clone();
                assert(views(seen@.push(id)) =~= views(seen@).push(id@));
                seen.push(id);
            }
            k += 1;
        }
    }

    /// Emits every commit that can be emitted.
    fn settle(&mut self)
        requires
            old(self)@.wf(),
            old(self).taken@.len() == old(self).loaded@.len(),
            forall|i: int|
                0 <= i < old(self).taken@.len() ==> (#[trigger] old(self).taken@[i]) == old(
                    self,
                )@.emitted.contains(i),
        ensures
            final(self).wf(),
            final(self)@ == old(self)@.settle(),
    {
        while self.emitted.len() < self.limit && self.loaded.len() == self.seen.len()
            invariant
                self@.wf(),
                self.taken@.len() == self.loaded@.len(),
                forall|i: int|
                    0 <= i < self.taken@.len() ==> (#[trigger] self.taken@[i])
                        == self@.emitted.contains(i),
                self@.settle() == old(self)@.settle(),
            ensures
                !self@.can_emit(),
            decreases self.limit - self.emitted.len(),
        {
            match self.next_pick() {
                None => {
                    break;
                },
                Some(i) => {
                    proof {
                        lemma_pick_unique(self@, i as int, self@.pick());
                        lemma_emit_wf(self@);
                    }
                    let ghost before = self@;
                    self.emitted.push(i);
                    self.taken.set(i, true);
                    Walker::discover(&mut self.seen, &self.loaded[i].parents);
                    proof {
                        assert(self@.emitted =~= before.emitted.push(i as int));
                        assert(self@ == before.emit(i as int));
                        assert forall|j: int| 0 <= j < self.taken@.len() implies (
                        #[trigger] self.taken@[j]) == self@.emitted.contains(j) by {
                            if j == i {
                                assert(self@.emitted[before.emitted.len() as int] == i);
                            } else if before.emitted.contains(j) {
                                let at = choose|at: int|
                                    0 <= at < before.emitted.len() && before.emitted[at] == j;
                                assert(self@.emitted[at] == j);
                            }
                        }
                    }
                },
            }
        }
    }

    /// Tells the walk of `node`. Where `node` is the commit that the walk
    /// wanted, the walk takes it, emits all it can, and the result is `true`.
    /// Otherwise nothing changes.
    pub fn supply(&mut self, node: Node) -> (r: bool)
        requires
            old(self).wf(),
        ensures
            final(self).wf(),
            r == (old(self)@.wants() == Some(node@.id)),
            r ==> final(self)@ == old(self)@.supply(node@),
            !r ==> final(self)@ == old(self)@,
    {
        if !(self.emitted.len() < self.limit && self.loaded.len() < self.seen.len()) {
            return false;
        }
        if !(self.seen[self.loaded.len()] == node.id) {
            return false;
        }
        proof {
            assert(node_views(self.loaded@.push(node)) =~= node_views(self.loaded@).push(node@));
            assert forall|i: int| !self@.emitted.contains(i) || i != self.loaded@.len() by {
                if self@.emitted.contains(i) {
                    let at = choose|at: int| 0 <= at < self@.emitted.len() && self@.emitted[at] == i;
                    assert(0 <= self@.emitted[at] < self@.loaded.len());
                }
            }
        }
        self.loaded.push(node);
        self.taken.push(false);
        self.settle();
        true
    }

    /// The summaries of the commits emitted so far, in the order of emission.
    pub fn summaries(&self) -> (r: Vec<CommitSummary>)
        requires
            self.wf(),
        ensures
            summary_views(r@) == self@.summaries(),
    {
        let mut out: Vec<CommitSummary> = Vec::new();
        let mut k: usize = 0;
        while k < self.emitted.len()
            invariant
                self.wf(),
                k <= self.emitted.len(),
                out@.len() == k,
                forall|j: int| 0 <= j < k ==> (#[trigger] out@[j])@ == self@.summaries()[j],
            decreases self.emitted.len() - k,
        {
            let i: usize = self.emitted[k];
            assert(0 <= self@.emitted[k as int] < self@.loaded.len());
            out.push(self.loaded[i].summary.clone());
            k += 1;
        }
        assert(summary_views(out@) =~= self@.summaries());
        out
    }
}

} // verus!

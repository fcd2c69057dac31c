//! Resolving one entry of the history into all that is shown of it.
//!
//! The resolver never reaches into the backend. It names the question that it
//! needs answered next (`wanted`), takes the answer (`advance`), and either
//! goes on to the next question or hands out the detail. For a commit it asks
//! for the commit, then for each of its parents, then for the changed paths
//! against the first parent; a root commit has none and is done without that
//! last question.

use vstd::prelude::*;
use crate::backend::{
    Answer, AnswerView, Query, QueryView, RawChangeView, RawCommit, RawCommitView,
};
use crate::commit::{
    body_of, make_parent, make_signature, message_detail, message_title_line, parent_of,
    signature_of, title_of,
};
use crate::diff::{contained_diff, diff_of, failure_entry, first_failure};
use crate::model::{
    CommitDetail, CommitDetailView, Diff, FileChangeView, ParentSummary, ParentSummaryView,
    RevisionDetail, RevisionDetailView, RevisionRef, RevisionRefView, parent_views,
};

verus! {

/// A resolver as the contracts speak of it.
pub struct ResolverView {
    /// The entry that is being resolved.
    pub rev: RevisionRefView,
    /// The commit, once the backend gave it.
    pub commit: Option<RawCommitView>,
    /// The parents told of so far, in the order the commit lists them.
    pub parents: Seq<ParentSummaryView>,
}

/// What an answer leads to.
pub enum StepView {
    /// Another question is due.
    Next(ResolverView),
    /// The entry is resolved.
    Done(RevisionDetailView),
}

/// All that is shown of commit `c` with the parents and the diff given. An
/// error where one of its signatures cannot be shown.
pub open spec fn detail_of(
    c: RawCommitView,
    parents: Seq<ParentSummaryView>,
    diff: Seq<FileChangeView>,
) -> RevisionDetailView {
    match (signature_of(c.author), signature_of(c.committer)) {
        (Ok(author), Ok(committer)) => RevisionDetailView::FullCommit(
            CommitDetailView {
                id: c.id,
                author,
                committer,
                title: title_of(c.message),
                msg_detail: body_of(c.message),
                parents,
                diff_parent: diff,
            },
        ),
        (Err(why), _) => RevisionDetailView::Error(why),
        (_, Err(why)) => RevisionDetailView::Error(why),
    }
}

impl ResolverView {
    /// Before the first question.
    pub open spec fn start(rev: RevisionRefView) -> ResolverView {
        ResolverView { rev, commit: None, parents: Seq::empty() }
    }

    /// Parents are told of only once the commit is, and no more of them
    /// than it lists.
    pub open spec fn wf(self) -> bool {
        match self.commit {
            None => self.parents.len() == 0,
            Some(c) => self.rev is Commit && c.parents.len() > 0 && self.parents.len()
                <= c.parents.len(),
        }
    }

    /// The question that is due.
    pub open spec fn wants(self) -> QueryView {
        match self.rev {
            RevisionRefView::Worktree => QueryView::WorktreeChanges,
            RevisionRefView::Index => QueryView::IndexChanges,
            RevisionRefView::Commit { id, .. } => match self.commit {
                None => QueryView::Commit { id },
                Some(c) => if self.parents.len() < c.parents.len() {
                    QueryView::Commit { id: c.parents[self.parents.len() as int] }
                } else {
                    QueryView::TreeChanges { from: c.parents[0], to: id }
                },
            },
        }
    }

    /// What answer `a` to the question that is due leads to.
    pub open spec fn step(self, a: AnswerView) -> StepView {
        match self.rev {
            RevisionRefView::Worktree => StepView::Done(
                RevisionDetailView::WorktreeDiff(diff_of(a.changes())),
            ),
            RevisionRefView::Index => StepView::Done(
                RevisionDetailView::IndexDiff(diff_of(a.changes())),
            ),
            RevisionRefView::Commit { id, .. } => match self.commit {
                None => match a.commit(id) {
                    Err(why) => StepView::Done(RevisionDetailView::Error(why)),
                    Ok(c) => if c.parents.len() == 0 {
                        StepView::Done(detail_of(c, Seq::empty(), Seq::empty()))
                    } else {
                        StepView::Next(ResolverView { commit: Some(c), ..self })
                    },
                },
                Some(c) => if self.parents.len() < c.parents.len() {
                    match a.commit(c.parents[self.parents.len() as int]) {
                        Err(why) => StepView::Done(RevisionDetailView::Error(why)),
                        Ok(p) => StepView::Next(
                            ResolverView { parents: self.parents.push(parent_of(p)), ..self },
                        ),
                    }
                } else {
                    StepView::Done(detail_of(c, self.parents, diff_of(a.changes())))
                },
            },
        }
    }
}

/// A failure to diff is contained. Where the commit and its parents were had
/// and its signatures can be shown, a backend that fails to list the changed
/// paths, or content that cannot be diffed, still leaves the full detail of
/// the commit: its diff holds the one entry `ERROR` with the failure's text.
pub proof fn lemma_failure_is_contained(s: ResolverView, a: AnswerView, why: Seq<char>)
    requires
        s.wf(),
        s.rev is Commit,
        s.commit is Some,
        s.parents.len() == s.commit->0.parents.len(),
        signature_of(s.commit->0.author) is Ok,
        signature_of(s.commit->0.committer) is Ok,
        a.changes() == Err::<Seq<RawChangeView>, Seq<char>>(why) || (a.changes() is Ok
            && first_failure(a.changes()->Ok_0) == Some(why)),
    ensures
        s.step(a) is Done,
        s.step(a)->Done_0 is FullCommit,
        s.step(a)->Done_0->FullCommit_0.diff_parent == seq![failure_entry(why)],
        s.step(a)->Done_0->FullCommit_0.diff_parent[0].path == "ERROR"@,
        s.step(a)->Done_0->FullCommit_0.diff_parent[0].diff_text == "error: "@ + why,
{
}

/// An entry on its way to being resolved.
pub struct Resolver {
    rev: RevisionRef,
    commit: Option<RawCommit>,
    parents: Vec<ParentSummary>,
}

/// The commit, if there is one, as the contracts speak of it.
pub open spec fn commit_view(c: Option<RawCommit>) -> Option<RawCommitView> {
    match c {
        Some(c) => Some(c@),
        None => None,
    }
}

impl View for Resolver {
    type V = ResolverView;

    closed spec fn view(&self) -> ResolverView {
        ResolverView {
            rev: self.rev@,
            commit: commit_view(self.commit),
            parents: parent_views(self.parents@),
        }
    }
}

/// What an answer led to.
pub enum Step {
    /// Another question is due.
    Next(Resolver),
    /// The entry is resolved.
    Done(RevisionDetail),
}

impl Step {
    /// The resolver that goes on is well formed; the detail handed out has
    /// its files in order.
    pub open spec fn wf(self) -> bool {
        match self {
            Step::Next(r) => r@.wf(),
            Step::Done(d) => d.wf(),
        }
    }
}

impl View for Step {
    type V = StepView;

    open spec fn view(&self) -> StepView {
        match self {
            Step::Next(r) => StepView::Next(r@),
            Step::Done(d) => StepView::Done(d@),
        }
    }
}

/// All that is shown of a commit, with the parents and the diff given.
pub fn commit_detail(commit: &RawCommit, parents: Vec<ParentSummary>, diff: Diff) -> (r:
    RevisionDetail)
    ensures
        r@ == detail_of(commit@, parent_views(parents@), diff@),
        diff.wf() ==> r.wf(),
{
    let author = match make_signature(&commit.author) {
        Ok(s) => s,
        Err(e) => {
            return RevisionDetail::Error(e.message);
        },
    };
    let committer = match make_signature(&commit.committer) {
        Ok(s) => s,
        Err(e) => {
            return RevisionDetail::Error(e.message);
        },
    };
    RevisionDetail::FullCommit(
        CommitDetail {
            id: commit.id.clone(),
            author,
            committer,
            title: message_title_line(&commit.message),
            msg_detail: message_detail(&commit.message),
            parents,
            diff_parent: diff,
        },
    )
}

impl Resolver {
    /// A resolver for the entry `rev`, before its first question.
    pub fn begin(rev: RevisionRef) -> (r: Resolver)
        ensures
            r@ == ResolverView::start(rev@),
            r@.wf(),
    {
        let r = Resolver { rev, commit: None, parents: Vec::new() };
        assert(r@.parents =~= Seq::empty());
        r
    }

    /// The question that is due.
    pub fn wanted(&self) -> (r: Query)
        requires
            self@.wf(),
        ensures
            r@ == self@.wants(),
    {
        match &self.rev {
            RevisionRef::Worktree => Query::WorktreeChanges,
            RevisionRef::Index => Query::IndexChanges,
            RevisionRef::Commit { id, .. } => match &self.commit {
                None => Query::Commit { id: id.clone() },
                Some(c) => {
                    if self.parents.len() < c.parents.len() {
                        Query::Commit { id: c.parents[self.parents.len()].clone() }
                    } else {
                        Query::TreeChanges { from: c.parents[0].clone(), to: id.clone() }
                    }
                },
            },
        }
    }

    /// Takes the answer to the question that was due.
    pub fn advance(self, answer: Answer) -> (r: Step)
        requires
            self@.wf(),
        ensures
            r@ == self@.step(answer@),
            r.wf(),
    {
        let Resolver { rev, commit, parents } = self;
        match &rev {
            RevisionRef::Worktree => {
                let diff = contained_diff(&answer.into_changes());
                Step::Done(RevisionDetail::WorktreeDiff(diff))
            },
            RevisionRef::Index => {
                let diff = contained_diff(&answer.into_changes());
                Step::Done(RevisionDetail::IndexDiff(diff))
            },
            RevisionRef::Commit { id, .. } => match commit {
                None => match answer.into_commit(id) {
                    Err(e) => Step::Done(RevisionDetail::Error(e.message)),
                    Ok(c) => {
                        if c.parents.len() == 0 {
                            let none: Vec<ParentSummary> = Vec::new();
                            assert(parent_views(none@) =~= Seq::empty());
                            let diff = Diff::empty();
                            assert(diff@ =~= Seq::empty());
                            Step::Done(commit_detail(&c, none, diff))
                        } else {
                            Step::Next(Resolver { rev, commit: Some(c), parents })
                        }
                    },
                },
                Some(c) => {
                    if parents.len() < c.parents.len() {
                        match answer.into_commit(&c.parents[parents.len()]) {
                            Err(e) => Step::Done(RevisionDetail::Error(e.message)),
                            Ok(p) => {
                                let mut parents = parents;
                                let parent = make_parent(&p);
                                assert(parent_views(parents@.push(parent)) =~= parent_views(
                                    parents@,
                                ).push(parent@));
                                parents.push(parent);
                                Step::Next(Resolver { rev, commit: Some(c), parents })
                            },
                        }
                    } else {
                        let diff = contained_diff(&answer.into_changes());
                        Step::Done(commit_detail(&c, parents, diff))
                    }
                },
            },
        }
    }
}

} // verus!

//! What the version control backend hands over, as plain values. The backend
//! itself stays outside: whoever drives the browser puts the queries to it and
//! brings the answers back.

use vstd::prelude::*;
use crate::model::{BackendError, FileModificationKind, FileModificationKindView};

verus! {

/// A signature as a commit records it.
#[derive(Clone, Debug, PartialEq, Eq)]
pub struct RawSignature {
    pub name: String,
    pub email: String,
    /// Seconds since the epoch.
    pub seconds: i64,
    /// Offset of the signer's clock from UTC, in seconds.
    pub offset: i32,
}

/// A recorded signature as the contracts speak of it.
pub struct RawSignatureView {
    pub name: Seq<char>,
    pub email: Seq<char>,
    pub seconds: i64,
    pub offset: i32,
}

impl View for RawSignature {
    type V = RawSignatureView;

    open spec fn view(&self) -> RawSignatureView {
        RawSignatureView {
            name: self.name@,
            email: self.email@,
            seconds: self.seconds,
            offset: self.offset,
        }
    }
}

/// A commit as the backend stores it.
#[derive(Clone, Debug, PartialEq, Eq)]
pub struct RawCommit {
    /// Full identifier, in hexadecimal.
    pub id: String,
    /// Shortest prefix of `id` that the repository tells from all others.
    pub short_id: String,
    pub author: RawSignature,
    pub committer: RawSignature,
    pub message: Vec<u8>,
    /// Identifiers of the parents, first parent first.
    pub parents: Vec<String>,
}

/// A stored commit as the contracts speak of it.
pub struct RawCommitView {
    pub id: Seq<char>,
    pub short_id: Seq<char>,
    pub author: RawSignatureView,
    pub committer: RawSignatureView,
    pub message: Seq<u8>,
    pub parents: Seq<Seq<char>>,
}

impl View for RawCommit {
    type V = RawCommitView;

    open spec fn view(&self) -> RawCommitView {
        RawCommitView {
            id: self.id@,
            short_id: self.short_id@,
            author: self.author@,
            committer: self.committer@,
            message: self.message@,
            parents: crate::text::views(self.parents@),
        }
    }
}

/// One changed path between two trees, with the content on either side where
/// that side is a blob.
#[derive(Clone, Debug, PartialEq, Eq)]
pub struct RawChange {
    pub kind: FileModificationKind,
    pub path: String,
    pub previous: Option<Vec<u8>>,
    pub current: Option<Vec<u8>>,
}

/// A changed path as the contracts speak of it.
pub struct RawChangeView {
    pub kind: FileModificationKindView,
    pub path: Seq<char>,
    pub previous: Option<Seq<u8>>,
    pub current: Option<Seq<u8>>,
}

/// The bytes of an optional content.
pub open spec fn content_view(c: Option<Vec<u8>>) -> Option<Seq<u8>> {
    match c {
        Some(b) => Some(b@),
        None => None,
    }
}

impl View for RawChange {
    type V = RawChangeView;

    open spec fn view(&self) -> RawChangeView {
        RawChangeView {
            kind: self.kind@,
            path: self.path@,
            previous: content_view(self.previous),
            current: content_view(self.current),
        }
    }
}

/// The views of a sequence of raw changes.
pub open spec fn change_views(changes: Seq<RawChange>) -> Seq<RawChangeView> {
    changes.map_values(|c: RawChange| c@)
}

/// A question to the backend.
#[derive(Clone, Debug, PartialEq, Eq)]
pub enum Query {
    /// Are there uncommitted changes in the working tree, and in the index?
    PendingChanges,
    /// Which commit is the head?
    Head,
    /// The commit `id`.
    Commit { id: String },
    /// The changed paths of the working tree against the index.
    WorktreeChanges,
    /// The changed paths of the index against the head's tree.
    IndexChanges,
    /// The changed paths between the trees of the commits `from` and `to`.
    TreeChanges { from: String, to: String },
}

/// A question as the contracts speak of it.
pub enum QueryView {
    PendingChanges,
    Head,
    Commit { id: Seq<char> },
    WorktreeChanges,
    IndexChanges,
    TreeChanges { from: Seq<char>, to: Seq<char> },
}

impl View for Query {
    type V = QueryView;

    open spec fn view(&self) -> QueryView {
        match self {
            Query::PendingChanges => QueryView::PendingChanges,
            Query::Head => QueryView::Head,
            Query::Commit { id } => QueryView::Commit { id: id@ },
            Query::WorktreeChanges => QueryView::WorktreeChanges,
            Query::IndexChanges => QueryView::IndexChanges,
            Query::TreeChanges { from, to } => QueryView::TreeChanges { from: from@, to: to@ },
        }
    }
}

/// What the backend had to say to a question.
#[derive(Clone, Debug, PartialEq, Eq)]
pub enum Answer {
    PendingChanges { worktree: bool, index: bool },
    Head { id: String },
    Commit(RawCommit),
    Changes(Vec<RawChange>),
    Failed(BackendError),
}

/// An answer as the contracts speak of it.
pub enum AnswerView {
    PendingChanges { worktree: bool, index: bool },
    Head { id: Seq<char> },
    Commit(RawCommitView),
    Changes(Seq<RawChangeView>),
    Failed(Seq<char>),
}

impl View for Answer {
    type V = AnswerView;

    open spec fn view(&self) -> AnswerView {
        match self {
            Answer::PendingChanges { worktree, index } => AnswerView::PendingChanges {
                worktree: *worktree,
                index: *index,
            },
            Answer::Head { id } => AnswerView::Head { id: id@ },
            Answer::Commit(c) => AnswerView::Commit(c@),
            Answer::Changes(list) => AnswerView::Changes(change_views(list@)),
            Answer::Failed(e) => AnswerView::Failed(e.message@),
        }
    }
}

/// What is reported for an answer that does not fit the question.
pub open spec fn unexpected() -> Seq<char> {
    "unexpected answer from the backend"@
}

impl AnswerView {
    /// The commit `id` that the answer brings, or why it brings none.
    pub open spec fn commit(self, id: Seq<char>) -> Result<RawCommitView, Seq<char>> {
        match self {
            AnswerView::Commit(c) => if c.id == id {
                Ok(c)
            } else {
                Err(unexpected())
            },
            AnswerView::Failed(why) => Err(why),
            _ => Err(unexpected()),
        }
    }

    /// The changed paths that the answer brings, or why it brings none.
    pub open spec fn changes(self) -> Result<Seq<RawChangeView>, Seq<char>> {
        match self {
            AnswerView::Changes(list) => Ok(list),
            AnswerView::Failed(why) => Err(why),
            _ => Err(unexpected()),
        }
    }
}

impl Answer {
    /// The commit `id` that the answer brings, or why it brings none.
    pub fn into_commit(self, id: &String) -> (r: Result<RawCommit, BackendError>)
        ensures
            match r {
                Ok(c) => self@.commit(id@) == Ok::<RawCommitView, Seq<char>>(c@),
                Err(e) => self@.commit(id@) == Err::<RawCommitView, Seq<char>>(e.message@),
            },
    {
        match self {
            Answer::Commit(c) => {
                if c.id == *id {
                    Ok(c)
                } else {
                    Err(BackendError { message: "unexpected answer from the backend".to_string() })
                }
            },
            Answer::Failed(e) => Err(e),
            _ => Err(BackendError { message: "unexpected answer from the backend".to_string() }),
        }
    }

    /// The changed paths that the answer brings, or why it brings none.
    pub fn into_changes(self) -> (r: Result<Vec<RawChange>, BackendError>)
        ensures
            match r {
                Ok(list) => self@.changes() == Ok::<Seq<RawChangeView>, Seq<char>>(
                    change_views(list@),
                ),
                Err(e) => self@.changes() == Err::<Seq<RawChangeView>, Seq<char>>(e.message@),
            },
    {
        match self {
            Answer::Changes(list) => Ok(list),
            Answer::Failed(e) => Err(e),
            _ => Err(BackendError { message: "unexpected answer from the backend".to_string() }),
        }
    }
}

} // verus!

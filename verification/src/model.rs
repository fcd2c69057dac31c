//! The data that the browser shows: revisions, signatures, summaries, diffs.

use vstd::prelude::*;
use vstd::string::*;

verus! {

/// A failure reported by the version control backend, or found in what it
/// handed over.
#[derive(Debug, PartialEq, Eq)]
pub struct BackendError {
    pub message: String,
}

impl Clone for BackendError {
    fn clone(&self) -> (r: Self)
        ensures
            r == *self,
    {
        BackendError { message: self.message.clone() }
    }
}

/// Who wrote or committed a revision, and when.
#[derive(Debug, PartialEq, Eq)]
pub struct Signature {
    pub author_name: String,
    pub author_email: String,
    /// ISO 8601 date, time and offset.
    pub time: String,
}

/// A signature as the contracts speak of it.
pub struct SignatureView {
    pub author_name: Seq<char>,
    pub author_email: Seq<char>,
    pub time: Seq<char>,
}

impl View for Signature {
    type V = SignatureView;

    open spec fn view(&self) -> SignatureView {
        SignatureView {
            author_name: self.author_name@,
            author_email: self.author_email@,
            time: self.time@,
        }
    }
}

impl SignatureView {
    /// `name <email>`
    pub open spec fn text(self) -> Seq<char> {
        self.author_name + " <"@ + self.author_email + ">"@
    }

    /// `name <email> time`
    pub open spec fn text_with_time(self) -> Seq<char> {
        self.author_name + " <"@ + self.author_email + "> "@ + self.time
    }
}

impl Clone for Signature {
    fn clone(&self) -> (r: Self)
        ensures
            r == *self,
    {
        Signature {
            author_name: self.author_name.clone(),
            author_email: self.author_email.clone(),
            time: self.time.clone(),
        }
    }
}

impl Signature {
    /// A signature with no name, address or time, as the entries for
    /// uncommitted changes carry.
    pub fn empty() -> (r: Signature)
        ensures
            r@.author_name.len() == 0,
            r@.author_email.len() == 0,
            r@.time.len() == 0,
    {
        Signature { author_name: String::new(), author_email: String::new(), time: String::new() }
    }

    /// The signature as `name <email>`.
    pub fn to_text(&self) -> (r: String)
        ensures
            r@ == self@.text(),
    {
        let mut out = self.author_name.clone();
        out.append(" <");
        out.append(self.author_email.as_str());
        out.append(">");
        out
    }

    /// The signature as `name <email> time`.
    pub fn format_with_time(&self) -> (r: String)
        ensures
            r@ == self@.text_with_time(),
    {
        let mut out = self.author_name.clone();
        out.append(" <");
        out.append(self.author_email.as_str());
        out.append("> ");
        out.append(self.time.as_str());
        out
    }
}

/// What an entry of the history stands for: the uncommitted changes of the
/// working tree, those staged in the index, or a commit.
#[derive(Debug, PartialEq, Eq)]
pub enum RevisionRef {
    Worktree,
    Index,
    Commit {
        /// Full identifier, in hexadecimal.
        id: String,
        /// The prefix of it that is shown.
        short_id: String,
    },
}

/// A revision as the contracts speak of it.
pub enum RevisionRefView {
    Worktree,
    Index,
    Commit { id: Seq<char>, short_id: Seq<char> },
}

impl View for RevisionRef {
    type V = RevisionRefView;

    open spec fn view(&self) -> RevisionRefView {
        match self {
            RevisionRef::Worktree => RevisionRefView::Worktree,
            RevisionRef::Index => RevisionRefView::Index,
            RevisionRef::Commit { id, short_id } => RevisionRefView::Commit {
                id: id@,
                short_id: short_id@,
            },
        }
    }
}

impl Clone for RevisionRef {
    fn clone(&self) -> (r: Self)
        ensures
            r == *self,
    {
        match self {
            RevisionRef::Worktree => RevisionRef::Worktree,
            RevisionRef::Index => RevisionRef::Index,
            RevisionRef::Commit { id, short_id } => RevisionRef::Commit {
                id: id.clone(),
                short_id: short_id.clone(),
            },
        }
    }
}

/// One line of the history list.
#[derive(Debug, PartialEq, Eq)]
pub struct CommitSummary {
    pub rev: RevisionRef,
    /// The title, on one line.
    pub title: String,
    pub signature: Signature,
}

/// A line of the history list as the contracts speak of it.
pub struct CommitSummaryView {
    pub rev: RevisionRefView,
    pub title: Seq<char>,
    pub signature: SignatureView,
}

impl View for CommitSummary {
    type V = CommitSummaryView;

    open spec fn view(&self) -> CommitSummaryView {
        CommitSummaryView { rev: self.rev@, title: self.title@, signature: self.signature@ }
    }
}

impl Clone for CommitSummary {
    fn clone(&self) -> (r: Self)
        ensures
            r == *self,
    {
        CommitSummary {
            rev: self.rev.clone(),
            title: self.title.clone(),
            signature: self.signature.clone(),
        }
    }
}

/// The views of a sequence of summaries.
pub open spec fn summary_views(list: Seq<CommitSummary>) -> Seq<CommitSummaryView> {
    list.map_values(|s: CommitSummary| s@)
}

/// How a file differs between two trees.
#[derive(Debug, PartialEq, Eq)]
pub enum FileModificationKind {
    Addition,
    Deletion,
    Modification,
    /// The file was moved here from `source`, with or without a change of
    /// content.
    Rewrite { source: String },
}

/// A kind of change as the contracts speak of it.
pub enum FileModificationKindView {
    Addition,
    Deletion,
    Modification,
    Rewrite { source: Seq<char> },
}

impl View for FileModificationKind {
    type V = FileModificationKindView;

    open spec fn view(&self) -> FileModificationKindView {
        match self {
            FileModificationKind::Addition => FileModificationKindView::Addition,
            FileModificationKind::Deletion => FileModificationKindView::Deletion,
            FileModificationKind::Modification => FileModificationKindView::Modification,
            FileModificationKind::Rewrite { source } => FileModificationKindView::Rewrite {
                source: source@,
            },
        }
    }
}

impl Clone for FileModificationKind {
    fn clone(&self) -> (r: Self)
        ensures
            r == *self,
    {
        match self {
            FileModificationKind::Addition => FileModificationKind::Addition,
            FileModificationKind::Deletion => FileModificationKind::Deletion,
            FileModificationKind::Modification => FileModificationKind::Modification,
            FileModificationKind::Rewrite { source } => FileModificationKind::Rewrite {
                source: source.clone(),
            },
        }
    }
}

impl FileModificationKindView {
    /// The letter that stands for the kind in a file's header line.
    pub open spec fn letter(self) -> char {
        match self {
            FileModificationKindView::Addition => 'A',
            FileModificationKindView::Deletion => 'D',
            FileModificationKindView::Modification => 'M',
            FileModificationKindView::Rewrite { .. } => 'R',
        }
    }
}

/// One changed file of a diff.
#[derive(Debug, PartialEq, Eq)]
pub struct FileChange {
    pub kind: FileModificationKind,
    /// Where the file is after the change.
    pub path: String,
    /// The change of content as a unified diff; empty where there is none to
    /// show.
    pub diff_text: String,
}

/// A changed file as the contracts speak of it.
pub struct FileChangeView {
    pub kind: FileModificationKindView,
    pub path: Seq<char>,
    pub diff_text: Seq<char>,
}

impl View for FileChange {
    type V = FileChangeView;

    open spec fn view(&self) -> FileChangeView {
        FileChangeView { kind: self.kind@, path: self.path@, diff_text: self.diff_text@ }
    }
}

impl Clone for FileChange {
    fn clone(&self) -> (r: Self)
        ensures
            r == *self,
    {
        FileChange {
            kind: self.kind.clone(),
            path: self.path.clone(),
            diff_text: self.diff_text.clone(),
        }
    }
}

/// The views of a sequence of file changes.
pub open spec fn file_views(files: Seq<FileChange>) -> Seq<FileChangeView> {
    files.map_values(|f: FileChange| f@)
}

/// The paths rise in byte order from each file to the next.
pub open spec fn sorted_by_path(files: Seq<FileChangeView>) -> bool {
    forall|i: int, j: int|
        0 <= i < j < files.len() ==> crate::text::lex_le(
            crate::text::sort_key(#[trigger] files[i].path),
            crate::text::sort_key(#[trigger] files[j].path),
        )
}

/// The changed files between two trees, in the byte order of their paths.
#[derive(Clone, Debug, PartialEq, Eq)]
pub struct Diff {
    pub files: Vec<FileChange>,
}

impl View for Diff {
    type V = Seq<FileChangeView>;

    open spec fn view(&self) -> Seq<FileChangeView> {
        file_views(self.files@)
    }
}

impl Diff {
    /// The files are in order.
    pub open spec fn wf(&self) -> bool {
        sorted_by_path(self@)
    }

    /// The diff of two equal trees.
    pub fn empty() -> (r: Diff)
        ensures
            r@.len() == 0,
            r.wf(),
    {
        Diff { files: Vec::new() }
    }
}

/// A parent of a commit, as the description names it.
#[derive(Clone, Debug, PartialEq, Eq)]
pub struct ParentSummary {
    pub id: String,
    pub short_id: String,
    pub title: String,
}

/// A parent as the contracts speak of it.
pub struct ParentSummaryView {
    pub id: Seq<char>,
    pub short_id: Seq<char>,
    pub title: Seq<char>,
}

impl View for ParentSummary {
    type V = ParentSummaryView;

    open spec fn view(&self) -> ParentSummaryView {
        ParentSummaryView { id: self.id@, short_id: self.short_id@, title: self.title@ }
    }
}

/// The views of a sequence of parents.
pub open spec fn parent_views(list: Seq<ParentSummary>) -> Seq<ParentSummaryView> {
    list.map_values(|p: ParentSummary| p@)
}

/// All that is shown of a commit.
#[derive(Clone, Debug, PartialEq, Eq)]
pub struct CommitDetail {
    pub id: String,
    pub author: Signature,
    pub committer: Signature,
    pub title: String,
    /// The message below the title, without its trailers.
    pub msg_detail: String,
    pub parents: Vec<ParentSummary>,
    /// The diff against the first parent; empty for a root commit.
    pub diff_parent: Diff,
}

/// The detail of a commit as the contracts speak of it.
pub struct CommitDetailView {
    pub id: Seq<char>,
    pub author: SignatureView,
    pub committer: SignatureView,
    pub title: Seq<char>,
    pub msg_detail: Seq<char>,
    pub parents: Seq<ParentSummaryView>,
    pub diff_parent: Seq<FileChangeView>,
}

impl View for CommitDetail {
    type V = CommitDetailView;

    open spec fn view(&self) -> CommitDetailView {
        CommitDetailView {
            id: self.id@,
            author: self.author@,
            committer: self.committer@,
            title: self.title@,
            msg_detail: self.msg_detail@,
            parents: parent_views(self.parents@),
            diff_parent: self.diff_parent@,
        }
    }
}

/// The selected entry of the history, resolved.
#[derive(Clone, Debug, PartialEq, Eq)]
pub enum RevisionDetail {
    FullCommit(CommitDetail),
    WorktreeDiff(Diff),
    IndexDiff(Diff),
    /// The commit itself could not be had.
    Error(String),
}

/// A resolved entry as the contracts speak of it.
pub enum RevisionDetailView {
    FullCommit(CommitDetailView),
    WorktreeDiff(Seq<FileChangeView>),
    IndexDiff(Seq<FileChangeView>),
    Error(Seq<char>),
}

impl View for RevisionDetail {
    type V = RevisionDetailView;

    open spec fn view(&self) -> RevisionDetailView {
        match self {
            RevisionDetail::FullCommit(c) => RevisionDetailView::FullCommit(c@),
            RevisionDetail::WorktreeDiff(d) => RevisionDetailView::WorktreeDiff(d@),
            RevisionDetail::IndexDiff(d) => RevisionDetailView::IndexDiff(d@),
            RevisionDetail::Error(m) => RevisionDetailView::Error(m@),
        }
    }
}

impl RevisionDetail {
    /// The files of the diff are in order.
    pub open spec fn wf(&self) -> bool {
        sorted_by_path(self@.files())
    }
}

impl RevisionDetailView {
    /// The files of the diff that the detail holds; none for an error.
    pub open spec fn files(self) -> Seq<FileChangeView> {
        match self {
            RevisionDetailView::FullCommit(c) => c.diff_parent,
            RevisionDetailView::WorktreeDiff(d) => d,
            RevisionDetailView::IndexDiff(d) => d,
            RevisionDetailView::Error(_) => Seq::empty(),
        }
    }
}

} // verus!

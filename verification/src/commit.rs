//! From a commit as the backend stores it to what the browser shows of it.

use vstd::prelude::*;
use crate::backend::{RawCommit, RawCommitView, RawSignature, RawSignatureView};
use crate::model::{
    BackendError, CommitSummary, CommitSummaryView, ParentSummary, ParentSummaryView,
    RevisionRef, RevisionRefView, Signature, SignatureView,
};
use crate::text::{lemma_on_one_line, on_one_line, single_line, trim, trimmed};
use crate::trusted::{
    format_iso8601, iso8601, message_body, message_body_text, message_title, message_title_text,
};
use crate::walker::{Node, NodeView};

verus! {

/// The signature shown for a recorded one: name and address without the
/// white space around them, and the time as ISO 8601 text. An error where the
/// time cannot be written so.
pub open spec fn signature_of(s: RawSignatureView) -> Result<SignatureView, Seq<char>> {
    match iso8601(s.seconds, s.offset) {
        Ok(time) => Ok(
            SignatureView { author_name: trimmed(s.name), author_email: trimmed(s.email), time },
        ),
        Err(why) => Err(why),
    }
}

/// The title shown for a commit message: its title without the white space
/// around it, on one line.
pub open spec fn title_of(message: Seq<u8>) -> Seq<char> {
    on_one_line(trimmed(message_title(message)))
}

/// A title is one line.
pub proof fn lemma_title_is_one_line(message: Seq<u8>)
    ensures
        forall|i: int| 0 <= i < title_of(message).len() ==> title_of(message)[i] != '\n',
{
    lemma_on_one_line(trimmed(message_title(message)));
}

/// What is shown below the title: the body without its trailers, or nothing.
pub open spec fn body_of(message: Seq<u8>) -> Seq<char> {
    match message_body(message) {
        Some(body) => body,
        None => Seq::empty(),
    }
}

/// The line of the history list that a commit gives: its identifier, its title
/// and its author.
pub open spec fn summary_of(c: RawCommitView) -> Result<CommitSummaryView, Seq<char>> {
    match signature_of(c.author) {
        Ok(signature) => Ok(
            CommitSummaryView {
                rev: RevisionRefView::Commit { id: c.id, short_id: c.short_id },
                title: title_of(c.message),
                signature,
            },
        ),
        Err(why) => Err(why),
    }
}

/// The commit as the walk takes it: ordered by the time it was committed.
pub open spec fn node_of(c: RawCommitView) -> Result<NodeView, Seq<char>> {
    match summary_of(c) {
        Ok(summary) => Ok(
            NodeView { id: c.id, time: c.committer.seconds, parents: c.parents, summary },
        ),
        Err(why) => Err(why),
    }
}

/// How a commit is named as a parent of another.
pub open spec fn parent_of(c: RawCommitView) -> ParentSummaryView {
    ParentSummaryView { id: c.id, short_id: c.short_id, title: title_of(c.message) }
}

/// The signature shown for a recorded one.
pub fn make_signature(sig: &RawSignature) -> (r: Result<Signature, BackendError>)
    ensures
        match r {
            Ok(s) => signature_of(sig@) == Ok::<SignatureView, Seq<char>>(s@),
            Err(e) => signature_of(sig@) == Err::<SignatureView, Seq<char>>(e.message@),
        },
{
    match format_iso8601(sig.seconds, sig.offset) {
        Ok(time) => Ok(
            Signature {
                author_name: trim(sig.name.as_str()),
                author_email: trim(sig.email.as_str()),
                time,
            },
        ),
        Err(why) => Err(BackendError { message: why }),
    }
}

/// The title shown for a commit message.
pub fn message_title_line(message: &Vec<u8>) -> (r: String)
    ensures
        r@ == title_of(message@),
{
    let title = message_title_text(message.as_slice());
    single_line(trim(title.as_str()).as_str())
}

/// What is shown of a commit message below its title.
pub fn message_detail(message: &Vec<u8>) -> (r: String)
    ensures
        r@ == body_of(message@),
{
    match message_body_text(message.as_slice()) {
        Some(body) => body,
        None => String::new(),
    }
}

/// The line of the history list for a commit.
pub fn summarize(commit: &RawCommit) -> (r: Result<CommitSummary, BackendError>)
    ensures
        match r {
            Ok(s) => summary_of(commit@) == Ok::<CommitSummaryView, Seq<char>>(s@),
            Err(e) => summary_of(commit@) == Err::<CommitSummaryView, Seq<char>>(e.message@),
        },
{
    match make_signature(&commit.author) {
        Ok(signature) => Ok(
            CommitSummary {
                rev: RevisionRef::Commit {
                    id: commit.id.clone(),
                    short_id: commit.short_id.clone(),
                },
                title: message_title_line(&commit.message),
                signature,
            },
        ),
        Err(e) => Err(e),
    }
}

/// A copy of a list of identifiers.
pub fn clone_ids(ids: &Vec<String>) -> (r: Vec<String>)
    ensures
        r@ == ids@,
{
    let mut out: Vec<String> = Vec::new();
    let mut k: usize = 0;
    while k < ids.len()
        invariant
            k <= ids.len(),
            out@ == ids@.subrange(0, k as int),
        decreases ids.len() - k,
    {
        out.push(ids[k].clone());
        assert(ids@.subrange(0, k as int).push(ids@[k as int]) =~= ids@.subrange(0, k as int + 1));
        k += 1;
    }
    assert(ids@.subrange(0, k as int) =~= ids@);
    out
}

/// The commit as the walk takes it.
pub fn make_node(commit: &RawCommit) -> (r: Result<Node, BackendError>)
    ensures
        match r {
            Ok(n) => node_of(commit@) == Ok::<NodeView, Seq<char>>(n@),
            Err(e) => node_of(commit@) == Err::<NodeView, Seq<char>>(e.message@),
        },
{
    match summarize(commit) {
        Ok(summary) => Ok(
            Node {
                id: commit.id.clone(),
                time: commit.committer.seconds,
                parents: clone_ids(&commit.parents),
                summary,
            },
        ),
        Err(e) => Err(e),
    }
}

/// How a commit is named as a parent of another.
pub fn make_parent(commit: &RawCommit) -> (r: ParentSummary)
    ensures
        r@ == parent_of(commit@),
{
    ParentSummary {
        id: commit.id.clone(),
        short_id: commit.short_id.clone(),
        title: message_title_line(&commit.message),
    }
}

} // verus!

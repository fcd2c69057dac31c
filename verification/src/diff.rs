//! From the changed paths of a revision to its diff: the text of each change,
//! the order of the files, and what becomes of a failure on the way.

use vstd::prelude::*;
use vstd::string::*;
use vstd::seq_lib::*;
use crate::backend::{RawChange, RawChangeView, change_views};
use crate::model::{
    BackendError, Diff, FileChange, FileChangeView, FileModificationKind,
    FileModificationKindView, file_views, sorted_by_path,
};
use crate::text::{
    lemma_lex_le_total, lemma_lex_le_transitive, lex_le, sort_key, str_le, trim, trimmed,
};
use crate::trusted::{MAX_DIFF_INPUT, unified_diff, unified_diff_text};

verus! {

/// Lines shown before and after each change of a diff.
pub const CONTEXT_LINES: u32 = 3;

/// What is reported for a content too long to diff.
pub open spec fn too_large() -> Seq<char> {
    "content too large for a line diff"@
}

/// The line diff of two contents: the unified diff with three lines of
/// context, or an error for content that is too long or no text.
pub open spec fn line_diff_of(before: Seq<u8>, after: Seq<u8>) -> Result<Seq<char>, Seq<char>> {
    if before.len() > MAX_DIFF_INPUT || after.len() > MAX_DIFF_INPUT {
        Err(too_large())
    } else {
        unified_diff(before, after, CONTEXT_LINES)
    }
}

/// The diff text of one change. A deletion has none, nor has a path whose new
/// content is no blob. An addition is diffed against the empty content, any
/// other change against the previous content.
pub open spec fn change_text(c: RawChangeView) -> Result<Seq<char>, Seq<char>> {
    match (c.kind, c.current) {
        (FileModificationKindView::Deletion, _) => Ok(Seq::empty()),
        (_, None) => Ok(Seq::empty()),
        (FileModificationKindView::Addition, Some(now)) => line_diff_of(Seq::empty(), now),
        (_, Some(now)) => line_diff_of(
            match c.previous {
                Some(before) => before,
                None => Seq::empty(),
            },
            now,
        ),
    }
}

/// The file entry that a change gives, where its text can be had.
pub open spec fn file_of(c: RawChangeView) -> FileChangeView {
    FileChangeView {
        kind: c.kind,
        path: trimmed(c.path),
        diff_text: match change_text(c) {
            Ok(text) => text,
            Err(_) => Seq::empty(),
        },
    }
}

/// The file entries of all changes, in the order of the changes.
pub open spec fn files_of(changes: Seq<RawChangeView>) -> Seq<FileChangeView> {
    changes.map_values(|c: RawChangeView| file_of(c))
}

/// What the first change whose text cannot be had reports, if there is one.
pub open spec fn first_failure(changes: Seq<RawChangeView>) -> Option<Seq<char>>
    decreases changes.len(),
{
    if changes.len() == 0 {
        None
    } else {
        match first_failure(changes.drop_last()) {
            Some(why) => Some(why),
            None => match change_text(changes.last()) {
                Err(why) => Some(why),
                Ok(_) => None,
            },
        }
    }
}

/// `files` with `x` put in behind the last entry whose path is at most its
/// own.
pub open spec fn insert_by_path(files: Seq<FileChangeView>, x: FileChangeView) -> Seq<
    FileChangeView,
>
    decreases files.len(),
{
    if files.len() == 0 {
        seq![x]
    } else if lex_le(sort_key(files.last().path), sort_key(x.path)) {
        files.push(x)
    } else {
        insert_by_path(files.drop_last(), x).push(files.last())
    }
}

/// `files` in the byte order of their paths, entries of one path in the order
/// they had.
pub open spec fn sort_by_path(files: Seq<FileChangeView>) -> Seq<FileChangeView>
    decreases files.len(),
{
    if files.len() == 0 {
        Seq::empty()
    } else {
        insert_by_path(sort_by_path(files.drop_last()), files.last())
    }
}

/// The diff that the backend's answer for a revision gives. A failure to list
/// the changes, or to diff the content of one, leaves the one entry that
/// reports it.
pub open spec fn diff_of(changes: Result<Seq<RawChangeView>, Seq<char>>) -> Seq<FileChangeView> {
    match changes {
        Err(why) => seq![failure_entry(why)],
        Ok(list) => match first_failure(list) {
            Some(why) => seq![failure_entry(why)],
            None => sort_by_path(files_of(list)),
        },
    }
}

/// The one entry that stands for a diff that could not be computed.
pub open spec fn failure_entry(message: Seq<char>) -> FileChangeView {
    FileChangeView {
        kind: FileModificationKindView::Deletion,
        path: "ERROR"@,
        diff_text: "error: "@ + message,
    }
}

/// The unified diff between two contents, three lines of context around each
/// hunk.
pub fn line_diff(before: &[u8], after: &[u8]) -> (r: Result<String, BackendError>)
    ensures
        match r {
            Ok(text) => line_diff_of(before@, after@) == Ok::<Seq<char>, Seq<char>>(text@),
            Err(e) => line_diff_of(before@, after@) == Err::<Seq<char>, Seq<char>>(e.message@),
        },
{
    if before.len() > MAX_DIFF_INPUT || after.len() > MAX_DIFF_INPUT {
        return Err(BackendError { message: "content too large for a line diff".to_string() });
    }
    match unified_diff_text(before, after, CONTEXT_LINES) {
        Ok(text) => Ok(text),
        Err(why) => Err(BackendError { message: why }),
    }
}

/// The diff text of one change.
pub fn diff_text(change: &RawChange) -> (r: Result<String, BackendError>)
    ensures
        match r {
            Ok(text) => change_text(change@) == Ok::<Seq<char>, Seq<char>>(text@),
            Err(e) => change_text(change@) == Err::<Seq<char>, Seq<char>>(e.message@),
        },
{
    let none: Vec<u8> = Vec::new();
    match &change.kind {
        FileModificationKind::Deletion => Ok(String::new()),
        FileModificationKind::Addition => match &change.current {
            Some(now) => line_diff(none.as_slice(), now.as_slice()),
            None => Ok(String::new()),
        },
        _ => match &change.current {
            Some(now) => match &change.previous {
                Some(before) => line_diff(before.as_slice(), now.as_slice()),
                None => line_diff(none.as_slice(), now.as_slice()),
            },
            None => Ok(String::new()),
        },
    }
}

/// No text fails where none fails first, and the first failure is the text
/// of a change before which all texts can be had.
pub proof fn lemma_first_failure(changes: Seq<RawChangeView>)
    ensures
        match first_failure(changes) {
            None => forall|j: int|
                0 <= j < changes.len() ==> (#[trigger] change_text(changes[j])) is Ok,
            Some(why) => exists|k: int|
                {
                    &&& 0 <= k < changes.len()
                    &&& #[trigger] change_text(changes[k]) == Err::<Seq<char>, Seq<char>>(why)
                    &&& forall|j: int| 0 <= j < k ==> (#[trigger] change_text(changes[j])) is Ok
                },
        },
    decreases changes.len(),
{
    if changes.len() > 0 {
        let front = changes.drop_last();
        lemma_first_failure(front);
        match first_failure(front) {
            Some(why) => {
                let k = choose|k: int|
                    {
                        &&& 0 <= k < front.len()
                        &&& #[trigger] change_text(front[k]) == Err::<Seq<char>, Seq<char>>(why)
                        &&& forall|j: int| 0 <= j < k ==> (#[trigger] change_text(front[j])) is Ok
                    };
                assert(change_text(changes[k]) == Err::<Seq<char>, Seq<char>>(why));
                assert forall|j: int| 0 <= j < k implies (#[trigger] change_text(changes[j])) is Ok by {
                    assert(change_text(front[j]) is Ok);
                }
            },
            None => {
                assert forall|j: int| 0 <= j < front.len() implies (#[trigger] change_text(
                    changes[j],
                )) is Ok by {
                    assert(change_text(front[j]) is Ok);
                }
                if change_text(changes.last()) is Err {
                    assert(change_text(changes[changes.len() - 1]) == change_text(changes.last()));
                }
            },
        }
    }
}

/// A failure among the first changes is the first failure of them all.
proof fn lemma_first_failure_stays(changes: Seq<RawChangeView>, k: int)
    requires
        0 <= k <= changes.len(),
        first_failure(changes.subrange(0, k)) is Some,
    ensures
        first_failure(changes) == first_failure(changes.subrange(0, k)),
    decreases changes.len() - k,
{
    if k < changes.len() {
        assert(changes.subrange(0, k + 1).drop_last() =~= changes.subrange(0, k));
        lemma_first_failure_stays(changes, k + 1);
    } else {
        assert(changes.subrange(0, k) =~= changes);
    }
}

/// Putting an entry into a sorted sequence keeps it sorted, adds that entry
/// and nothing else.
pub proof fn lemma_insert_by_path(files: Seq<FileChangeView>, x: FileChangeView)
    requires
        sorted_by_path(files),
    ensures
        sorted_by_path(insert_by_path(files, x)),
        insert_by_path(files, x).to_multiset() == files.to_multiset().insert(x),
        insert_by_path(files, x).len() == files.len() + 1,
        forall|i: int|
            0 <= i < insert_by_path(files, x).len() ==> #[trigger] insert_by_path(files, x)[i] == x
                || files.contains(insert_by_path(files, x)[i]),
    decreases files.len(),
{
    let t = insert_by_path(files, x);
    if files.len() == 0 {
        to_multiset_build(files, x);
        assert(t =~= files.push(x));
    } else if lex_le(sort_key(files.last().path), sort_key(x.path)) {
        to_multiset_build(files, x);
        assert forall|i: int, j: int| 0 <= i < j < t.len() implies lex_le(
            sort_key(#[trigger] t[i].path),
            sort_key(#[trigger] t[j].path),
        ) by {
            if j == files.len() {
                if i < files.len() - 1 {
                    assert(lex_le(sort_key(files[i].path), sort_key(files[files.len() - 1].path)));
                    lemma_lex_le_transitive(
                        sort_key(files[i].path),
                        sort_key(files.last().path),
                        sort_key(x.path),
                    );
                }
            } else {
                assert(t[i] == files[i] && t[j] == files[j]);
            }
        }
        assert forall|i: int| 0 <= i < t.len() implies #[trigger] t[i] == x || files.contains(
            t[i],
        ) by {
            if i < files.len() {
                assert(t[i] == files[i]);
            }
        }
    } else {
        let front = files.drop_last();
        let last = files.last();
        assert forall|i: int, j: int| 0 <= i < j < front.len() implies lex_le(
            sort_key(#[trigger] front[i].path),
            sort_key(#[trigger] front[j].path),
        ) by {
            assert(front[i] == files[i] && front[j] == files[j]);
        }
        lemma_insert_by_path(front, x);
        let u = insert_by_path(front, x);
        to_multiset_build(u, last);
        to_multiset_build(front, last);
        assert(files =~= front.push(last));
        assert(t.to_multiset() =~= files.to_multiset().insert(x));
        lemma_lex_le_total(sort_key(last.path), sort_key(x.path));
        assert forall|i: int, j: int| 0 <= i < j < t.len() implies lex_le(
            sort_key(#[trigger] t[i].path),
            sort_key(#[trigger] t[j].path),
        ) by {
            if j == u.len() {
                assert(t[i] == u[i]);
                if u[i] != x {
                    assert(front.contains(u[i]));
                    let at = choose|at: int| 0 <= at < front.len() && front[at] == u[i];
                    assert(lex_le(sort_key(files[at].path), sort_key(files[files.len() - 1].path)));
                }
            } else {
                assert(t[i] == u[i] && t[j] == u[j]);
            }
        }
        assert forall|i: int| 0 <= i < t.len() implies #[trigger] t[i] == x || files.contains(
            t[i],
        ) by {
            if i < u.len() {
                assert(t[i] == u[i]);
                if u[i] != x {
                    let at = choose|at: int| 0 <= at < front.len() && front[at] == u[i];
                    assert(files[at] == u[i]);
                }
            } else {
                assert(files[files.len() - 1] == t[i]);
            }
        }
    }
}

/// Sorting gives the same entries, each as often as before, with paths that
/// rise in byte order.
pub proof fn lemma_sort_by_path(files: Seq<FileChangeView>)
    ensures
        sorted_by_path(sort_by_path(files)),
        sort_by_path(files).to_multiset() == files.to_multiset(),
        sort_by_path(files).len() == files.len(),
    decreases files.len(),
{
    if files.len() > 0 {
        lemma_sort_by_path(files.drop_last());
        lemma_insert_by_path(sort_by_path(files.drop_last()), files.last());
        to_multiset_build(files.drop_last(), files.last());
        assert(files =~= files.drop_last().push(files.last()));
    } else {
        assert(files =~= Seq::empty());
    }
}

/// The diff of a revision is in order, whatever the backend gave.
pub proof fn lemma_diff_of_sorted(changes: Result<Seq<RawChangeView>, Seq<char>>)
    ensures
        sorted_by_path(diff_of(changes)),
{
    match changes {
        Ok(list) => {
            lemma_sort_by_path(files_of(list));
        },
        Err(_) => {},
    }
}

/// At `p` is where `insert_by_path` puts `x`: all from `p` on come after `x`,
/// and the entry before `p`, if any, does not.
proof fn lemma_insert_position(files: Seq<FileChangeView>, x: FileChangeView, p: int)
    requires
        0 <= p <= files.len(),
        p > 0 ==> lex_le(sort_key(files[p - 1].path), sort_key(x.path)),
        forall|j: int| p <= j < files.len() ==> !lex_le(sort_key(files[j].path), sort_key(x.path)),
    ensures
        insert_by_path(files, x) == files.insert(p, x),
    decreases files.len(),
{
    if files.len() == 0 {
        assert(files.insert(p, x) =~= seq![x]);
    } else if p == files.len() {
        assert(files.insert(p, x) =~= files.push(x));
    } else {
        assert(!lex_le(sort_key(files[files.len() - 1].path), sort_key(x.path)));
        lemma_insert_position(files.drop_last(), x, p);
        assert(files.drop_last().insert(p, x).push(files.last()) =~= files.insert(p, x));
    }
}

/// Puts `file` into the sorted `files`, behind the entries whose path is at
/// most its own.
pub fn insert_sorted(files: &mut Vec<FileChange>, file: FileChange)
    ensures
        file_views(final(files)@) == insert_by_path(file_views(old(files)@), file@),
{
    let ghost before = file_views(files@);
    let mut p: usize = files.len();
    while p > 0 && !str_le(files[p - 1].path.as_str(), file.path.as_str())
        invariant
            p <= files.len(),
            files@ == old(files)@,
            before == file_views(files@),
            forall|j: int|
                p <= j < before.len() ==> !lex_le(sort_key(before[j].path), sort_key(file@.path)),
        decreases p,
    {
        p -= 1;
    }
    proof {
        lemma_insert_position(before, file@, p as int);
        assert(file_views(files@.insert(p as int, file)) =~= before.insert(p as int, file@));
    }
    files.insert(p, file);
}

/// The diff that a revision's changed paths give: one entry per path, in the
/// byte order of the paths. The first change whose text cannot be had fails
/// the whole diff.
pub fn compute_diff(changes: &Vec<RawChange>) -> (r: Result<Diff, BackendError>)
    ensures
        match r {
            Ok(diff) => {
                &&& first_failure(change_views(changes@)) is None
                &&& diff@ == sort_by_path(files_of(change_views(changes@)))
                &&& diff.wf()
            },
            Err(e) => first_failure(change_views(changes@)) == Some(e.message@),
        },
{
    let ghost all = change_views(changes@);
    let mut files: Vec<FileChange> = Vec::new();
    let mut i: usize = 0;
    assert(all.subrange(0, 0) =~= Seq::empty());
    assert(files_of(all).subrange(0, 0) =~= Seq::empty());
    assert(file_views(files@) =~= Seq::empty());
    while i < changes.len()
        invariant
            i <= changes.len(),
            all == change_views(changes@),
            first_failure(all.subrange(0, i as int)) is None,
            file_views(files@) == sort_by_path(files_of(all).subrange(0, i as int)),
        decreases changes.len() - i,
    {
        let change = &changes[i];
        proof {
            assert(all.subrange(0, i as int + 1).drop_last() =~= all.subrange(0, i as int));
            assert(all.subrange(0, i as int + 1).last() == change@);
        }
        match diff_text(change) {
            Ok(text) => {
                let file = FileChange {
                    kind: change.kind.clone(),
                    path: trim(change.path.as_str()),
                    diff_text: text,
                };
                proof {
                    assert(file@ == file_of(all[i as int]));
                    let upto = files_of(all).subrange(0, i as int + 1);
                    assert(upto.drop_last() =~= files_of(all).subrange(0, i as int));
                    assert(upto.last() == file@);
                }
                insert_sorted(&mut files, file);
            },
            Err(e) => {
                proof {
                    lemma_first_failure_stays(all, i as int + 1);
                }
                return Err(e);
            },
        }
        i += 1;
    }
    proof {
        assert(all.subrange(0, i as int) =~= all);
        assert(files_of(all).subrange(0, i as int) =~= files_of(all));
        lemma_sort_by_path(files_of(all));
    }
    Ok(Diff { files })
}

/// The diff with the one entry that reports `error`.
pub fn failure_diff(error: &BackendError) -> (r: Diff)
    ensures
        r@ == seq![failure_entry(error.message@)],
        r.wf(),
{
    let mut text = "error: ".to_string();
    text.append(error.message.as_str());
    let entry = FileChange {
        kind: FileModificationKind::Deletion,
        path: "ERROR".to_string(),
        diff_text: text,
    };
    let mut files: Vec<FileChange> = Vec::new();
    files.push(entry);
    assert(file_views(files@) =~= seq![failure_entry(error.message@)]);
    Diff { files }
}

/// What the backend gave for the changes of a revision, as the contracts
/// speak of it.
pub open spec fn changes_view(changes: Result<Vec<RawChange>, BackendError>) -> Result<
    Seq<RawChangeView>,
    Seq<char>,
> {
    match changes {
        Ok(list) => Ok(change_views(list@)),
        Err(e) => Err(e.message@),
    }
}

/// The diff of a revision from what the backend gave for it. Neither a failure
/// of the backend to list the changes nor one to diff a content fails the
/// whole: either leaves a diff whose only entry reports it.
pub fn contained_diff(changes: &Result<Vec<RawChange>, BackendError>) -> (r: Diff)
    ensures
        r@ == diff_of(changes_view(*changes)),
        r.wf(),
{
    match changes {
        Err(e) => failure_diff(e),
        Ok(list) => match compute_diff(list) {
            Ok(diff) => diff,
            Err(e) => failure_diff(&e),
        },
    }
}

} // verus!

//! What is drawn, as plain values: the three columns of the history list and
//! the column of blocks of the selected revision.

use vstd::prelude::*;
use vstd::string::*;
use crate::model::{
    CommitSummary, CommitSummaryView, RevisionDetail, RevisionDetailView, RevisionRef,
    RevisionRefView, summary_views,
};
use crate::nav::{checked_total, highlight_index, is_highlight, total_lines};
use crate::text::{lemma_on_one_line, on_one_line, single_line};
use crate::project::{
    RenderedBlock, RenderedBlockView, block_lens, block_views, blocks_of, lens_of, project,
};

verus! {

/// One line of a column of the history list.
#[derive(Clone, Debug, PartialEq, Eq)]
pub struct ListLine {
    pub text: String,
    /// The line belongs to the selected entry and is drawn bold.
    pub selected: bool,
}

/// A line of a column as the contracts speak of it.
pub struct ListLineView {
    pub text: Seq<char>,
    pub selected: bool,
}

impl View for ListLine {
    type V = ListLineView;

    open spec fn view(&self) -> ListLineView {
        ListLineView { text: self.text@, selected: self.selected }
    }
}

/// The views of a column.
pub open spec fn line_views(lines: Seq<ListLine>) -> Seq<ListLineView> {
    lines.map_values(|l: ListLine| l@)
}

/// What the first column shows for an entry: for a commit its short
/// identifier, a space and its title, else the title alone.
pub open spec fn commit_text(s: CommitSummaryView) -> Seq<char> {
    match s.rev {
        RevisionRefView::Commit { short_id, .. } => on_one_line(short_id + " "@ + s.title),
        _ => on_one_line(s.title),
    }
}

/// What the second column shows for an entry: the author of a commit as
/// `name <email>`, else nothing.
pub open spec fn author_text(s: CommitSummaryView) -> Seq<char> {
    match s.rev {
        RevisionRefView::Commit { .. } => on_one_line(s.signature.text()),
        _ => Seq::empty(),
    }
}

/// What the third column shows for an entry: its time.
pub open spec fn time_text(s: CommitSummaryView) -> Seq<char> {
    on_one_line(s.signature.time)
}

/// The first column: one line for each entry of the window.
pub open spec fn commit_column(window: Seq<CommitSummaryView>, selection: int) -> Seq<ListLineView> {
    Seq::new(
        window.len(),
        |i: int| ListLineView { text: commit_text(window[i]), selected: i == selection },
    )
}

/// The second column.
pub open spec fn author_column(window: Seq<CommitSummaryView>, selection: int) -> Seq<ListLineView> {
    Seq::new(
        window.len(),
        |i: int| ListLineView { text: author_text(window[i]), selected: i == selection },
    )
}

/// The third column: the time of each entry.
pub open spec fn time_column(window: Seq<CommitSummaryView>, selection: int) -> Seq<ListLineView> {
    Seq::new(
        window.len(),
        |i: int| ListLineView { text: time_text(window[i]), selected: i == selection },
    )
}

/// Each entry of the window takes one row in each column: there is one line
/// for each entry, and no line holds a line feed.
pub proof fn lemma_columns_hold_rows(window: Seq<CommitSummaryView>, selection: int)
    ensures
        commit_column(window, selection).len() == window.len(),
        author_column(window, selection).len() == window.len(),
        time_column(window, selection).len() == window.len(),
        forall|i: int, k: int|
            0 <= i < window.len() && 0 <= k < commit_column(window, selection)[i].text.len()
                ==> #[trigger] commit_column(window, selection)[i].text[k] != '\n',
        forall|i: int, k: int|
            0 <= i < window.len() && 0 <= k < author_column(window, selection)[i].text.len()
                ==> #[trigger] author_column(window, selection)[i].text[k] != '\n',
        forall|i: int, k: int|
            0 <= i < window.len() && 0 <= k < time_column(window, selection)[i].text.len()
                ==> #[trigger] time_column(window, selection)[i].text[k] != '\n',
{
    assert forall|i: int| 0 <= i < window.len() implies {
        &&& forall|k: int|
            0 <= k < commit_text(#[trigger] window[i]).len() ==> commit_text(window[i])[k] != '\n'
        &&& forall|k: int|
            0 <= k < author_text(window[i]).len() ==> author_text(window[i])[k] != '\n'
        &&& forall|k: int| 0 <= k < time_text(window[i]).len() ==> time_text(window[i])[k] != '\n'
    } by {
        let s = window[i];
        lemma_on_one_line(s.title);
        lemma_on_one_line(s.signature.text());
        lemma_on_one_line(s.signature.time);
        match s.rev {
            RevisionRefView::Commit { short_id, .. } => {
                lemma_on_one_line(short_id + " "@ + s.title);
            },
            _ => {},
        }
    }
}

/// The three columns of the history list: commits, authors and times, with
/// the lines of the selected entry marked.
pub fn commits_authors_times_lines(window: &Vec<CommitSummary>, selection_idx: usize) -> (r: (
    Vec<ListLine>,
    Vec<ListLine>,
    Vec<ListLine>,
))
    ensures
        line_views(r.0@) == commit_column(summary_views(window@), selection_idx as int),
        line_views(r.1@) == author_column(summary_views(window@), selection_idx as int),
        line_views(r.2@) == time_column(summary_views(window@), selection_idx as int),
{
    let mut lines: Vec<ListLine> = Vec::new();
    let mut authors: Vec<ListLine> = Vec::new();
    let mut times: Vec<ListLine> = Vec::new();
    let ghost all = summary_views(window@);
    let ghost sel = selection_idx as int;
    let mut idx: usize = 0;
    while idx < window.len()
        invariant
            idx <= window.len(),
            all == summary_views(window@),
            sel == selection_idx as int,
            lines@.len() == idx,
            authors@.len() == idx,
            times@.len() == idx,
            forall|j: int| 0 <= j < idx ==> (#[trigger] lines@[j])@ == commit_column(all, sel)[j],
            forall|j: int| 0 <= j < idx ==> (#[trigger] authors@[j])@ == author_column(all, sel)[j],
            forall|j: int| 0 <= j < idx ==> (#[trigger] times@[j])@ == time_column(all, sel)[j],
        decreases window.len() - idx,
    {
        let entry = &window[idx];
        let selected = idx == selection_idx;
        let (commit, author) = match &entry.rev {
            RevisionRef::Commit { short_id, .. } => {
                let mut text = short_id.clone();
                text.append(" ");
                text.append(entry.title.as_str());
                (single_line(text.as_str()), single_line(entry.signature.to_text().as_str()))
            },
            _ => (single_line(entry.title.as_str()), String::new()),
        };
        assert(commit@ =~= commit_text(all[idx as int]));
        assert(author@ =~= author_text(all[idx as int]));
        lines.push(ListLine { text: commit, selected });
        authors.push(ListLine { text: author, selected });
        times.push(ListLine { text: single_line(entry.signature.time.as_str()), selected });
        idx += 1;
    }
    assert(line_views(lines@) =~= commit_column(all, sel));
    assert(line_views(authors@) =~= author_column(all, sel));
    assert(line_views(times@) =~= time_column(all, sel));
    (lines, authors, times)
}

/// All that one frame shows.
#[derive(Clone, Debug, PartialEq, Eq)]
pub struct Screen {
    pub commits: Vec<ListLine>,
    pub authors: Vec<ListLine>,
    pub times: Vec<ListLine>,
    /// First entry of the list that is visible.
    pub commits_scroll: usize,
    /// The blocks of the selected revision; none where nothing is resolved.
    pub blocks: Vec<RenderedBlock>,
    /// The block to highlight, if the scroll offset lies in one.
    pub highlight: Option<usize>,
    /// First line of the blocks that is visible.
    pub diff_scroll: usize,
}

/// The blocks shown for what is resolved, if anything.
pub open spec fn shown_blocks(detail: Option<RevisionDetailView>) -> Seq<RenderedBlockView> {
    match detail {
        Some(d) => blocks_of(d),
        None => Seq::empty(),
    }
}

/// The block that `r` names is the one to highlight at `offset`: the first
/// that ends after it. None is named where there is none, or where the blocks
/// have more lines than a `usize` counts.
pub open spec fn highlights(blocks: Seq<RenderedBlockView>, offset: int, r: Option<usize>) -> bool {
    let lens = lens_of(blocks);
    match r {
        Some(i) => total_lines(lens) <= usize::MAX && is_highlight(lens, offset, i as int),
        None => total_lines(lens) > usize::MAX || forall|i: int| !is_highlight(lens, offset, i),
    }
}

/// The blocks of a revision with the one to highlight at `offset`.
pub fn blocks_and_highlight(detail: Option<&RevisionDetail>, offset: usize) -> (r: (
    Vec<RenderedBlock>,
    Option<usize>,
))
    ensures
        block_views(r.0@) == shown_blocks(
            match detail {
                Some(d) => Some(d@),
                None => None,
            },
        ),
        highlights(block_views(r.0@), offset as int, r.1),
{
    let blocks = match detail {
        Some(d) => project(d),
        None => {
            let none: Vec<RenderedBlock> = Vec::new();
            assert(block_views(none@) =~= Seq::empty());
            none
        },
    };
    let lens = block_lens(&blocks);
    let highlight = match checked_total(lens.as_slice()) {
        Some(_) => highlight_index(lens.as_slice(), offset),
        None => None,
    };
    (blocks, highlight)
}

} // verus!

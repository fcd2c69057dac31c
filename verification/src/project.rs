//! From a resolved revision to the column of blocks that is drawn and
//! scrolled: one block for the description of a commit, one for each file
//! that has something to show.
//!
//! A block counts as many lines as it takes on screen. So every line that is
//! made up here is put on one line first, whatever the names and paths hold.

use vstd::prelude::*;
use vstd::string::*;
use crate::model::{
    CommitDetail, CommitDetailView, Diff, FileChange, FileChangeView, FileModificationKind,
    FileModificationKindView, ParentSummary, ParentSummaryView, RevisionDetail,
    RevisionDetailView, file_views, parent_views,
};
use crate::text::{
    lemma_lines_hold_no_break, lemma_on_one_line, lines_of, on_one_line, single_line,
    split_lines, views,
};

verus! {

/// One unit of the diff view: a header line and the lines below it.
#[derive(Clone, Debug, PartialEq, Eq)]
pub struct RenderedBlock {
    pub header: String,
    pub body: Vec<String>,
}

/// A block as the contracts speak of it.
pub struct RenderedBlockView {
    pub header: Seq<char>,
    pub body: Seq<Seq<char>>,
}

impl View for RenderedBlock {
    type V = RenderedBlockView;

    open spec fn view(&self) -> RenderedBlockView {
        RenderedBlockView { header: self.header@, body: views(self.body@) }
    }
}

/// The views of a sequence of blocks.
pub open spec fn block_views(blocks: Seq<RenderedBlock>) -> Seq<RenderedBlockView> {
    blocks.map_values(|b: RenderedBlock| b@)
}

impl RenderedBlockView {
    /// Lines that the block takes on screen: the header and the body, capped
    /// at what a `usize` holds.
    pub open spec fn lines(self) -> int {
        if self.body.len() < usize::MAX {
            1 + self.body.len() as int
        } else {
            usize::MAX as int
        }
    }
}

/// The lengths of the blocks, as the scroll arithmetic takes them.
pub open spec fn lens_of(blocks: Seq<RenderedBlockView>) -> Seq<usize> {
    Seq::new(blocks.len(), |i: int| blocks[i].lines() as usize)
}

/// The header line of a file: the letter of its kind, a space, its path, all
/// on one line.
pub open spec fn file_header(f: FileChangeView) -> Seq<char> {
    on_one_line(seq![f.kind.letter(), ' '] + f.path)
}

/// The line that opens the body of a file's block: `diff` and the path.
pub open spec fn path_banner(f: FileChangeView) -> Seq<char> {
    on_one_line("diff "@ + f.path)
}

/// The line that tells where a renamed file came from.
pub open spec fn rename_marker(source: Seq<char>) -> Seq<char> {
    on_one_line("renamed from "@ + source)
}

/// `s` is one line: it holds no line feed.
pub open spec fn is_line(s: Seq<char>) -> bool {
    forall|i: int| 0 <= i < s.len() ==> s[i] != '\n'
}

/// The header of the block is one line, and so is each line of its body.
pub open spec fn holds_lines(b: RenderedBlockView) -> bool {
    is_line(b.header) && forall|j: int| 0 <= j < b.body.len() ==> is_line(#[trigger] b.body[j])
}

/// The block of a file: the banner, for a renamed file the marker, then the
/// lines of the diff text.
pub open spec fn file_block(f: FileChangeView) -> RenderedBlockView {
    RenderedBlockView {
        header: file_header(f),
        body: match f.kind {
            FileModificationKindView::Rewrite { source } => seq![
                path_banner(f),
                rename_marker(source),
            ] + lines_of(f.diff_text),
            _ => seq![path_banner(f)] + lines_of(f.diff_text),
        },
    }
}

/// A file is shown unless it has no diff text and is no rename.
pub open spec fn is_shown(f: FileChangeView) -> bool {
    f.diff_text.len() > 0 || f.kind is Rewrite
}

/// The blocks of the files that are shown, in the order of the files.
pub open spec fn file_blocks(files: Seq<FileChangeView>) -> Seq<RenderedBlockView>
    decreases files.len(),
{
    if files.len() == 0 {
        Seq::empty()
    } else if is_shown(files.last()) {
        file_blocks(files.drop_last()).push(file_block(files.last()))
    } else {
        file_blocks(files.drop_last())
    }
}

/// How a parent is named: its short identifier, a space, its title.
pub open spec fn parent_text(p: ParentSummaryView) -> Seq<char> {
    p.short_id + " "@ + p.title
}

/// The parents, each as `parent_text` gives it, with `, ` between them.
pub open spec fn parents_text(parents: Seq<ParentSummaryView>) -> Seq<char>
    decreases parents.len(),
{
    if parents.len() == 0 {
        Seq::empty()
    } else if parents.len() == 1 {
        parent_text(parents[0])
    } else {
        parents_text(parents.drop_last()) + ", "@ + parent_text(parents.last())
    }
}

/// The block that describes a commit: author, committer, parents, a blank
/// line, the title, a blank line, the lines of the message body. Each of the
/// first three and the title is put on one line.
pub open spec fn description_block(c: CommitDetailView) -> RenderedBlockView {
    RenderedBlockView {
        header: on_one_line("Author: "@ + c.author.text_with_time()),
        body: seq![
            on_one_line("Committer: "@ + c.committer.text_with_time()),
            on_one_line("Parents: "@ + parents_text(c.parents)),
            Seq::empty(),
            on_one_line(c.title),
            Seq::empty(),
        ] + lines_of(c.msg_detail),
    }
}

/// The block that stands for a commit that could not be had.
pub open spec fn error_block(message: Seq<char>) -> RenderedBlockView {
    RenderedBlockView { header: on_one_line("Error"@), body: lines_of(message) }
}

/// The blocks of a resolved revision. A commit has its description first; the
/// uncommitted changes have none.
pub open spec fn blocks_of(d: RevisionDetailView) -> Seq<RenderedBlockView> {
    match d {
        RevisionDetailView::FullCommit(c) => seq![description_block(c)] + file_blocks(
            c.diff_parent,
        ),
        RevisionDetailView::WorktreeDiff(files) => file_blocks(files),
        RevisionDetailView::IndexDiff(files) => file_blocks(files),
        RevisionDetailView::Error(message) => seq![error_block(message)],
    }
}

/// There is at most one block for each file, and exactly one where every file
/// is shown.
pub proof fn lemma_file_blocks_len(files: Seq<FileChangeView>)
    ensures
        file_blocks(files).len() <= files.len(),
        (forall|i: int| 0 <= i < files.len() ==> is_shown(files[i])) ==> file_blocks(files).len()
            == files.len(),
    decreases files.len(),
{
    if files.len() > 0 {
        lemma_file_blocks_len(files.drop_last());
        if forall|i: int| 0 <= i < files.len() ==> is_shown(files[i]) {
            assert forall|i: int| 0 <= i < files.drop_last().len() implies is_shown(
                files.drop_last()[i],
            ) by {
                assert(files.drop_last()[i] == files[i]);
            }
        }
    }
}

/// Every line of the lines of a text is one line.
proof fn lemma_lines_are_lines(s: Seq<char>)
    ensures
        forall|j: int| 0 <= j < lines_of(s).len() ==> is_line(#[trigger] lines_of(s)[j]),
{
    assert forall|j: int| 0 <= j < lines_of(s).len() implies is_line(#[trigger] lines_of(s)[j]) by {
        assert forall|i: int| 0 <= i < lines_of(s)[j].len() implies lines_of(s)[j][i] != '\n' by {
            lemma_lines_hold_no_break(s, j, i);
        }
    }
}

/// What is put on one line is one line.
proof fn lemma_one_line_is_line(s: Seq<char>)
    ensures
        is_line(on_one_line(s)),
{
    lemma_on_one_line(s);
}

/// The block of a file takes as many lines on screen as it holds: no line of
/// it holds a line feed.
pub proof fn lemma_file_block_holds_lines(f: FileChangeView)
    ensures
        holds_lines(file_block(f)),
{
    let b = file_block(f);
    lemma_one_line_is_line(seq![f.kind.letter(), ' '] + f.path);
    lemma_one_line_is_line("diff "@ + f.path);
    lemma_lines_are_lines(f.diff_text);
    match f.kind {
        FileModificationKindView::Rewrite { source } => {
            lemma_one_line_is_line("renamed from "@ + source);
            assert forall|j: int| 0 <= j < b.body.len() implies is_line(#[trigger] b.body[j]) by {
                if j >= 2 {
                    assert(b.body[j] == lines_of(f.diff_text)[j - 2]);
                }
            }
        },
        _ => {
            assert forall|j: int| 0 <= j < b.body.len() implies is_line(#[trigger] b.body[j]) by {
                if j >= 1 {
                    assert(b.body[j] == lines_of(f.diff_text)[j - 1]);
                }
            }
        },
    }
}

/// The same of the blocks of all files.
pub proof fn lemma_file_blocks_hold_lines(files: Seq<FileChangeView>)
    ensures
        forall|k: int| 0 <= k < file_blocks(files).len() ==> holds_lines(
            #[trigger] file_blocks(files)[k],
        ),
    decreases files.len(),
{
    if files.len() > 0 {
        let front = file_blocks(files.drop_last());
        lemma_file_blocks_hold_lines(files.drop_last());
        lemma_file_block_holds_lines(files.last());
        assert forall|k: int| 0 <= k < file_blocks(files).len() implies holds_lines(
            #[trigger] file_blocks(files)[k],
        ) by {
            if k < front.len() {
                assert(file_blocks(files)[k] == front[k]);
            }
        }
    }
}

/// The blocks of a revision take as many lines on screen as they hold: no
/// header and no line of a body holds a line feed.
pub proof fn lemma_blocks_hold_lines(d: RevisionDetailView)
    ensures
        forall|k: int| 0 <= k < blocks_of(d).len() ==> holds_lines(#[trigger] blocks_of(d)[k]),
{
    lemma_file_blocks_hold_lines(d.files());
    match d {
        RevisionDetailView::FullCommit(c) => {
            let b = description_block(c);
            lemma_one_line_is_line("Author: "@ + c.author.text_with_time());
            lemma_one_line_is_line("Committer: "@ + c.committer.text_with_time());
            lemma_one_line_is_line("Parents: "@ + parents_text(c.parents));
            lemma_one_line_is_line(c.title);
            lemma_lines_are_lines(c.msg_detail);
            assert forall|j: int| 0 <= j < b.body.len() implies is_line(#[trigger] b.body[j]) by {
                if j >= 5 {
                    assert(b.body[j] == lines_of(c.msg_detail)[j - 5]);
                }
            }
            assert forall|k: int| 0 <= k < blocks_of(d).len() implies holds_lines(
                #[trigger] blocks_of(d)[k],
            ) by {
                if k > 0 {
                    assert(blocks_of(d)[k] == file_blocks(c.diff_parent)[k - 1]);
                }
            }
        },
        RevisionDetailView::Error(message) => {
            lemma_one_line_is_line("Error"@);
            lemma_lines_are_lines(message);
        },
        _ => {},
    }
}

/// A commit has one block for its description and at most one for each file
/// of its diff; uncommitted changes have at most one for each file. Where
/// every file is shown there is exactly one for each.
pub proof fn lemma_blocks_count(d: RevisionDetailView)
    ensures
        d is FullCommit ==> 1 <= blocks_of(d).len() <= 1 + d.files().len(),
        d is WorktreeDiff || d is IndexDiff ==> blocks_of(d).len() <= d.files().len(),
        (forall|i: int| 0 <= i < d.files().len() ==> is_shown(d.files()[i])) ==> (d is FullCommit
            ==> blocks_of(d).len() == 1 + d.files().len()) && (d is WorktreeDiff || d is IndexDiff
            ==> blocks_of(d).len() == d.files().len()),
{
    lemma_file_blocks_len(d.files());
}

/// The letter of a kind.
pub fn kind_letter(kind: &FileModificationKind) -> (r: char)
    ensures
        r == kind@.letter(),
{
    match kind {
        FileModificationKind::Addition => 'A',
        FileModificationKind::Deletion => 'D',
        FileModificationKind::Modification => 'M',
        FileModificationKind::Rewrite { .. } => 'R',
    }
}

/// The header line of a file.
pub fn file_header_line(file: &FileChange) -> (r: String)
    ensures
        r@ == file_header(file@),
{
    let mut out = String::new();
    out.push(kind_letter(&file.kind));
    out.push(' ');
    out.append(file.path.as_str());
    assert(out@ =~= seq![file@.kind.letter(), ' '] + file@.path);
    single_line(out.as_str())
}

/// Appends copies of `lines` to `out`.
fn push_lines(out: &mut Vec<String>, lines: Vec<String>)
    ensures
        views(final(out)@) == views(old(out)@) + views(lines@),
{
    let mut k: usize = 0;
    assert(views(lines@).subrange(0, 0) =~= Seq::empty());
    assert(views(out@) + Seq::<Seq<char>>::empty() =~= views(out@));
    while k < lines.len()
        invariant
            k <= lines.len(),
            views(out@) == views(old(out)@) + views(lines@).subrange(0, k as int),
        decreases lines.len() - k,
    {
        let line = lines[k].clone();
        assert(views(out@.push(line)) =~= views(out@).push(line@));
        assert(views(lines@).subrange(0, k as int).push(line@) =~= views(lines@).subrange(
            0,
            k as int + 1,
        ));
        out.push(line);
        k += 1;
    }
    assert(views(lines@).subrange(0, k as int) =~= views(lines@));
}

/// The block of a file.
pub fn project_file(file: &FileChange) -> (r: RenderedBlock)
    ensures
        r@ == file_block(file@),
{
    let mut body: Vec<String> = Vec::new();
    let mut banner = "diff ".to_string();
    banner.append(file.path.as_str());
    body.push(single_line(banner.as_str()));
    match &file.kind {
        FileModificationKind::Rewrite { source } => {
            let mut marker = "renamed from ".to_string();
            marker.append(source.as_str());
            body.push(single_line(marker.as_str()));
            assert(views(body@) =~= seq![path_banner(file@), rename_marker(source@)]);
        },
        _ => {
            assert(views(body@) =~= seq![path_banner(file@)]);
        },
    }
    push_lines(&mut body, split_lines(file.diff_text.as_str()));
    RenderedBlock { header: file_header_line(file), body }
}

/// Tells whether a file is shown.
pub fn file_is_shown(file: &FileChange) -> (r: bool)
    ensures
        r == is_shown(file@),
{
    let rewrite = match &file.kind {
        FileModificationKind::Rewrite { .. } => true,
        _ => false,
    };
    rewrite || !file.diff_text.as_str().is_empty()
}

/// Appends to `out` the blocks of the files that are shown.
fn push_file_blocks(out: &mut Vec<RenderedBlock>, diff: &Diff)
    ensures
        block_views(final(out)@) == block_views(old(out)@) + file_blocks(diff@),
{
    let mut k: usize = 0;
    let ghost files = diff@;
    assert(files.subrange(0, 0) =~= Seq::empty());
    assert(block_views(out@) + Seq::<RenderedBlockView>::empty() =~= block_views(out@));
    while k < diff.files.len()
        invariant
            k <= diff.files.len(),
            files == file_views(diff.files@),
            block_views(out@) == block_views(old(out)@) + file_blocks(files.subrange(0, k as int)),
        decreases diff.files.len() - k,
    {
        let file = &diff.files[k];
        proof {
            let upto = files.subrange(0, k as int + 1);
            assert(upto.drop_last() =~= files.subrange(0, k as int));
            assert(upto.last() == file@);
        }
        if file_is_shown(file) {
            let block = project_file(file);
            assert(block_views(out@.push(block)) =~= block_views(out@).push(block@));
            out.push(block);
        }
        k += 1;
    }
    assert(files.subrange(0, k as int) =~= files);
}

/// The parents as one line of text.
pub fn parents_line(parents: &Vec<ParentSummary>) -> (r: String)
    ensures
        r@ == parents_text(parent_views(parents@)),
{
    let mut out = String::new();
    let mut k: usize = 0;
    let ghost all = parent_views(parents@);
    assert(all.subrange(0, 0) =~= Seq::empty());
    while k < parents.len()
        invariant
            k <= parents.len(),
            all == parent_views(parents@),
            out@ == parents_text(all.subrange(0, k as int)),
        decreases parents.len() - k,
    {
        proof {
            let upto = all.subrange(0, k as int + 1);
            assert(upto.drop_last() =~= all.subrange(0, k as int));
            assert(upto.last() == parents@[k as int]@);
            if k == 0 {
                assert(upto[0] == parents@[0]@);
            }
        }
        let ghost before = out@;
        if k > 0 {
            out.append(", ");
        }
        out.append(parents[k].short_id.as_str());
        out.append(" ");
        out.append(parents[k].title.as_str());
        proof {
            let p = parents@[k as int]@;
            if k > 0 {
                assert(out@ =~= before + ", "@ + parent_text(p));
            } else {
                assert(before =~= Seq::empty());
                assert(out@ =~= parent_text(p));
            }
        }
        k += 1;
    }
    assert(all.subrange(0, k as int) =~= all);
    out
}

/// The block that describes a commit.
pub fn describe(commit: &CommitDetail) -> (r: RenderedBlock)
    ensures
        r@ == description_block(commit@),
{
    let mut header = "Author: ".to_string();
    header.append(commit.author.format_with_time().as_str());
    let mut committer = "Committer: ".to_string();
    committer.append(commit.committer.format_with_time().as_str());
    let mut parents = "Parents: ".to_string();
    parents.append(parents_line(&commit.parents).as_str());
    let mut body: Vec<String> = Vec::new();
    body.push(single_line(committer.as_str()));
    body.push(single_line(parents.as_str()));
    body.push(String::new());
    body.push(single_line(commit.title.as_str()));
    body.push(String::new());
    assert(views(body@) =~= seq![
        on_one_line("Committer: "@ + commit@.committer.text_with_time()),
        on_one_line("Parents: "@ + parents_text(commit@.parents)),
        Seq::empty(),
        on_one_line(commit@.title),
        Seq::empty(),
    ]);
    push_lines(&mut body, split_lines(commit.msg_detail.as_str()));
    RenderedBlock { header: single_line(header.as_str()), body }
}

/// The blocks of a resolved revision, in the order in which they are drawn.
pub fn project(detail: &RevisionDetail) -> (r: Vec<RenderedBlock>)
    ensures
        block_views(r@) == blocks_of(detail@),
{
    let mut out: Vec<RenderedBlock> = Vec::new();
    assert(block_views(out@) =~= Seq::empty());
    match detail {
        RevisionDetail::FullCommit(commit) => {
            let block = describe(commit);
            assert(block_views(out@.push(block)) =~= seq![block@]);
            out.push(block);
            push_file_blocks(&mut out, &commit.diff_parent);
        },
        RevisionDetail::WorktreeDiff(diff) => {
            push_file_blocks(&mut out, diff);
            assert(Seq::<RenderedBlockView>::empty() + file_blocks(diff@) =~= file_blocks(diff@));
        },
        RevisionDetail::IndexDiff(diff) => {
            push_file_blocks(&mut out, diff);
            assert(Seq::<RenderedBlockView>::empty() + file_blocks(diff@) =~= file_blocks(diff@));
        },
        RevisionDetail::Error(message) => {
            let block = RenderedBlock {
                header: single_line("Error"),
                body: split_lines(message.as_str()),
            };
            assert(block_views(out@.push(block)) =~= seq![block@]);
            out.push(block);
        },
    }
    out
}

/// The lengths of the blocks, for the scroll arithmetic.
pub fn block_lens(blocks: &Vec<RenderedBlock>) -> (r: Vec<usize>)
    ensures
        r@ == lens_of(block_views(blocks@)),
{
    let mut out: Vec<usize> = Vec::new();
    let mut k: usize = 0;
    while k < blocks.len()
        invariant
            k <= blocks.len(),
            out@.len() == k,
            forall|j: int| 0 <= j < k ==> out@[j] == lens_of(block_views(blocks@))[j],
        decreases blocks.len() - k,
    {
        let n: usize = blocks[k].body.len();
        let len: usize = if n < usize::MAX {
            n + 1
        } else {
            usize::MAX
        };
        out.push(len);
        k += 1;
    }
    assert(out@ =~= lens_of(block_views(blocks@)));
    out
}

} // verus!

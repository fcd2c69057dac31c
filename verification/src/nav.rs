//! Scroll arithmetic over a rendered diff.
//!
//! A rendered diff is a column of blocks, each a known number of lines long.
//! Block `i` covers the half-open line range from `block_start(lens, i)` to
//! `block_end(lens, i)`. The functions here map a scroll offset to the block
//! that should be highlighted and to the offsets that the "next file" and
//! "previous file" commands jump to.

use vstd::prelude::*;

verus! {

/// First line of block `i`: the sum of the lengths of the blocks before it.
pub open spec fn block_start(lens: Seq<usize>, i: int) -> int
    decreases i,
{
    if i <= 0 {
        0
    } else {
        block_start(lens, i - 1) + lens[i - 1]
    }
}

/// One past the last line of block `i`.
pub open spec fn block_end(lens: Seq<usize>, i: int) -> int {
    block_start(lens, i + 1)
}

/// Number of lines in the whole column.
pub open spec fn total_lines(lens: Seq<usize>) -> int {
    block_start(lens, lens.len() as int)
}

/// Block `i` is the first one that ends after `offset`.
pub open spec fn is_highlight(lens: Seq<usize>, offset: int, i: int) -> bool {
    &&& 0 <= i < lens.len()
    &&& offset < block_end(lens, i)
    &&& forall|j: int| 0 <= j < i ==> block_end(lens, j) <= offset
}

/// Block `i` is the last one that starts at or before `offset`.
pub open spec fn is_anchor(lens: Seq<usize>, offset: int, i: int) -> bool {
    &&& 0 <= i < lens.len()
    &&& block_start(lens, i) <= offset
    &&& forall|j: int| i < j < lens.len() ==> offset < block_start(lens, j)
}

/// Where the "next file" command scrolls to from `offset`: the end of the
/// highlighted block, unless that block is the last one or there is none.
pub open spec fn next_target(lens: Seq<usize>, offset: int) -> int {
    if exists|i: int| is_highlight(lens, offset, i) && i + 1 < lens.len() {
        let i = choose|i: int| is_highlight(lens, offset, i) && i + 1 < lens.len();
        block_end(lens, i)
    } else {
        offset
    }
}

/// Where the "previous file" command scrolls to from `offset`: the start of
/// the block that holds `offset` when `offset` lies past it, else the start of
/// the block before.
pub open spec fn prev_target(lens: Seq<usize>, offset: int) -> int {
    if exists|i: int| is_anchor(lens, offset, i) {
        let i = choose|i: int| is_anchor(lens, offset, i);
        if offset > block_start(lens, i) {
            block_start(lens, i)
        } else if i > 0 {
            block_start(lens, i - 1)
        } else {
            0
        }
    } else {
        offset
    }
}

/// Block starts never decrease with the index.
pub proof fn lemma_block_start_monotone(lens: Seq<usize>, i: int, j: int)
    requires
        0 <= i <= j,
    ensures
        0 <= block_start(lens, i) <= block_start(lens, j),
    decreases j,
{
    if i < j {
        lemma_block_start_monotone(lens, i, j - 1);
    } else if i > 0 {
        lemma_block_start_monotone(lens, i - 1, j - 1);
    }
}

/// At most one block is highlighted for an offset.
pub proof fn lemma_highlight_unique(lens: Seq<usize>, offset: int, i: int, j: int)
    requires
        is_highlight(lens, offset, i),
        is_highlight(lens, offset, j),
    ensures
        i == j,
{
}

/// At most one block anchors an offset.
pub proof fn lemma_anchor_unique(lens: Seq<usize>, offset: int, i: int, j: int)
    requires
        is_anchor(lens, offset, i),
        is_anchor(lens, offset, j),
    ensures
        i == j,
{
}

/// The highlighted block holds the offset between its start and its end.
pub proof fn lemma_highlight_holds_offset(lens: Seq<usize>, offset: int, i: int)
    requires
        0 <= offset,
        is_highlight(lens, offset, i),
    ensures
        block_start(lens, i) <= offset < block_end(lens, i),
{
    if i > 0 {
        assert(block_end(lens, i - 1) <= offset);
    }
}

/// Sum of all block lengths, or `None` when it does not fit in `usize`.
pub fn checked_total(lens: &[usize]) -> (r: Option<usize>)
    ensures
        match r {
            Some(t) => t == total_lines(lens@),
            None => total_lines(lens@) > usize::MAX,
        },
{
    let mut sum: usize = 0;
    let mut i: usize = 0;
    while i < lens.len()
        invariant
            i <= lens.len(),
            sum == block_start(lens@, i as int),
        decreases lens.len() - i,
    {
        match sum.checked_add(lens[i]) {
            Some(s) => {
                sum = s;
            },
            None => {
                proof {
                    lemma_block_start_monotone(lens@, i as int + 1, lens@.len() as int);
                }
                return None;
            },
        }
        i += 1;
    }
    Some(sum)
}

/// Index of the block to highlight at `offset`: the first block that ends
/// after it. `None` when the offset lies past all content.
pub fn highlight_index(lens: &[usize], offset: usize) -> (r: Option<usize>)
    requires
        total_lines(lens@) <= usize::MAX,
    ensures
        match r {
            Some(i) => is_highlight(lens@, offset as int, i as int),
            None => forall|i: int| !is_highlight(lens@, offset as int, i),
        },
{
    let mut end: usize = 0;
    let mut i: usize = 0;
    while i < lens.len()
        invariant
            i <= lens.len(),
            end == block_start(lens@, i as int),
            total_lines(lens@) <= usize::MAX,
            forall|j: int| 0 <= j < i ==> block_end(lens@, j) <= offset,
        decreases lens.len() - i,
    {
        proof {
            lemma_block_start_monotone(lens@, i as int + 1, lens@.len() as int);
        }
        end = end + lens[i];
        if offset < end {
            return Some(i);
        }
        i += 1;
    }
    assert forall|k: int| !is_highlight(lens@, offset as int, k) by {
        if 0 <= k < lens@.len() {
            assert(block_end(lens@, k) <= offset);
        }
    }
    None
}

/// Offset that "next file" jumps to. A no-op inside the last block and past
/// the content.
pub fn next_file_target(lens: &[usize], offset: usize) -> (r: usize)
    requires
        total_lines(lens@) <= usize::MAX,
    ensures
        r == next_target(lens@, offset as int),
        r >= offset,
{
    let mut end: usize = 0;
    let mut i: usize = 0;
    while i < lens.len()
        invariant
            i <= lens.len(),
            end == block_start(lens@, i as int),
            total_lines(lens@) <= usize::MAX,
            forall|j: int| 0 <= j < i ==> block_end(lens@, j) <= offset,
        decreases lens.len() - i,
    {
        proof {
            lemma_block_start_monotone(lens@, i as int + 1, lens@.len() as int);
        }
        end = end + lens[i];
        if offset < end {
            assert(is_highlight(lens@, offset as int, i as int));
            if i + 1 < lens.len() {
                proof {
                    let w = choose|w: int|
                        is_highlight(lens@, offset as int, w) && w + 1 < lens@.len();
                    lemma_highlight_unique(lens@, offset as int, i as int, w);
                }
                return end;
            } else {
                assert forall|w: int|
                    !(is_highlight(lens@, offset as int, w) && w + 1 < lens@.len()) by {
                    if is_highlight(lens@, offset as int, w) {
                        lemma_highlight_unique(lens@, offset as int, i as int, w);
                    }
                }
                return offset;
            }
        }
        i += 1;
    }
    assert forall|w: int| !is_highlight(lens@, offset as int, w) by {
        if 0 <= w < lens@.len() {
            assert(block_end(lens@, w) <= offset);
        }
    }
    offset
}

/// Offset that "previous file" jumps to. A no-op at offset 0 and on an empty
/// column.
pub fn prev_file_target(lens: &[usize], offset: usize) -> (r: usize)
    requires
        total_lines(lens@) <= usize::MAX,
    ensures
        r == prev_target(lens@, offset as int),
        r <= offset,
{
    if lens.len() == 0 {
        assert forall|w: int| !is_anchor(lens@, offset as int, w) by {}
        return offset;
    }
    // `start` is the start of block `i`, `before` that of block `i - 1`.
    let mut before: usize = 0;
    let mut start: usize = 0;
    let mut i: usize = 0;
    while i + 1 < lens.len()
        invariant
            i < lens.len(),
            start == block_start(lens@, i as int),
            i > 0 ==> before == block_start(lens@, i as int - 1),
            start <= offset,
            total_lines(lens@) <= usize::MAX,
        ensures
            i + 1 < lens.len() ==> offset < block_start(lens@, i as int + 1),
        decreases lens.len() - i,
    {
        proof {
            lemma_block_start_monotone(lens@, i as int + 1, lens@.len() as int);
        }
        let next: usize = start + lens[i];
        if offset < next {
            break;
        }
        before = start;
        start = next;
        i += 1;
    }
    proof {
        assert forall|j: int| i < j < lens@.len() implies offset < block_start(lens@, j) by {
            lemma_block_start_monotone(lens@, i as int + 1, j);
        }
        assert(is_anchor(lens@, offset as int, i as int));
        let w = choose|w: int| is_anchor(lens@, offset as int, w);
        lemma_anchor_unique(lens@, offset as int, i as int, w);
        if i > 0 {
            lemma_block_start_monotone(lens@, i as int - 1, i as int);
        }
    }
    if offset > start {
        start
    } else if i > 0 {
        before
    } else {
        0
    }
}

} // verus!

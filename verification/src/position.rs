use vstd::prelude::*;

use crate::forest::CodeBlock;
use crate::forest::block_locs_in;
use crate::span::BlockLocation;

verus! {

/// The zero-based row of byte offset `i` in `t`: the number of newline bytes
/// strictly before `i`.
pub open spec fn row_of(t: Seq<u8>, i: int) -> nat
    recommends
        0 <= i <= t.len(),
    decreases i,
{
    if i <= 0 {
        0
    } else {
        row_of(t, i - 1) + (if t[i - 1] == 10 {
            1nat
        } else {
            0nat
        })
    }
}

/// The zero-based column of byte offset `i` in `t`: the number of bytes since
/// the newline nearest before `i`, or since the start of the document.
pub open spec fn col_of(t: Seq<u8>, i: int) -> nat
    recommends
        0 <= i <= t.len(),
    decreases i,
{
    if i <= 0 {
        0
    } else if t[i - 1] == 10 {
        0
    } else {
        col_of(t, i - 1) + 1
    }
}

/// The location's rows and columns are exactly the positions of its byte
/// offsets in the document.
pub open spec fn loc_positions_match(loc: BlockLocation, t: Seq<u8>) -> bool {
    &&& loc.start_row == row_of(t, loc.start_byte as int)
    &&& loc.start_col == col_of(t, loc.start_byte as int)
    &&& loc.end_row == row_of(t, loc.end_byte as int)
    &&& loc.end_col == col_of(t, loc.end_byte as int)
}

/// Positions grow with byte offsets: an earlier offset is on an earlier row,
/// or on the same row at a column no greater.
pub proof fn lemma_position_order(t: Seq<u8>, i: int, j: int)
    requires
        0 <= i <= j <= t.len(),
    ensures
        row_of(t, i) < row_of(t, j) || (row_of(t, i) == row_of(t, j) && col_of(t, i) <= col_of(
            t,
            j,
        )),
    decreases j - i,
{
    if i < j {
        lemma_position_order(t, i, j - 1);
    }
}

/// Every block location in the subtree rooted at `b` carries the true
/// positions of its byte offsets in `t`.
pub open spec fn block_positions_match(b: CodeBlock, t: Seq<u8>) -> bool
    decreases b,
{
    &&& loc_positions_match(b.block, t)
    &&& forall|i: int|
        0 <= i < b.children@.len() ==> block_positions_match(#[trigger] b.children@[i], t)
}

/// Every block location in the forest carries the true positions of its
/// byte offsets in `t`.
pub open spec fn forest_positions_match(f: Seq<CodeBlock>, t: Seq<u8>) -> bool {
    forall|i: int| 0 <= i < f.len() ==> block_positions_match(#[trigger] f[i], t)
}

/// A subtree whose locations all come from `spans` matches positions as soon
/// as every span of `spans` does.
pub proof fn lemma_locs_in_positions(b: CodeBlock, spans: Seq<BlockLocation>, t: Seq<u8>)
    requires
        block_locs_in(b, spans),
        forall|k: int| 0 <= k < spans.len() ==> loc_positions_match(#[trigger] spans[k], t),
    ensures
        block_positions_match(b, t),
    decreases b,
{
    let k = choose|k: int| 0 <= k < spans.len() && spans[k] == b.block;
    assert(loc_positions_match(b.block, t));
    assert forall|i: int| 0 <= i < b.children@.len() implies block_positions_match(
        #[trigger] b.children@[i],
        t,
    ) by {
        lemma_locs_in_positions(b.children@[i], spans, t);
    }
}

/// Computes the zero-based row and column of byte offset `off` in `text`.
pub fn position_of(text: &Vec<u8>, off: usize) -> (r: (usize, usize))
    requires
        off <= text@.len(),
    ensures
        r.0 == row_of(text@, off as int),
        r.1 == col_of(text@, off as int),
{
    let mut row: usize = 0;
    let mut col: usize = 0;
    let mut i: usize = 0;
    while i < off
        invariant
            i <= off <= text@.len(),
            row == row_of(text@, i as int),
            col == col_of(text@, i as int),
            row <= i,
            col <= i,
        decreases off - i,
    {
        if text[i] == 10 {
            row = row + 1;
            col = 0;
        } else {
            col = col + 1;
        }
        i = i + 1;
    }
    (row, col)
}

/// Replaces each span's rows and columns with the positions of its byte
/// offsets in `text`, keeping the byte ranges and their order.
pub fn with_positions(spans: &Vec<BlockLocation>, text: &Vec<u8>) -> (r: Vec<BlockLocation>)
    requires
        forall|k: int|
            0 <= k < spans@.len() ==> (#[trigger] spans@[k]).wf() && spans@[k].in_bounds(
                text@.len(),
            ),
    ensures
        r@.len() == spans@.len(),
        forall|k: int|
            0 <= k < r@.len() ==> (#[trigger] r@[k]).same_range(spans@[k]) && r@[k].wf()
                && r@[k].in_bounds(text@.len()) && loc_positions_match(r@[k], text@),
{
    let mut out: Vec<BlockLocation> = Vec::new();
    let mut k: usize = 0;
    while k < spans.len()
        invariant
            k <= spans@.len(),
            out@.len() == k,
            forall|m: int|
                0 <= m < spans@.len() ==> (#[trigger] spans@[m]).wf() && spans@[m].in_bounds(
                    text@.len(),
                ),
            forall|m: int|
                0 <= m < k ==> (#[trigger] out@[m]).same_range(spans@[m]) && out@[m].wf()
                    && out@[m].in_bounds(text@.len()) && loc_positions_match(out@[m], text@),
        decreases spans@.len() - k,
    {
        let s = spans[k];
        let start = position_of(text, s.start_byte);
        let end = position_of(text, s.end_byte);
        let loc = BlockLocation {
            start_byte: s.start_byte,
            end_byte: s.end_byte,
            start_row: start.0,
            start_col: start.1,
            end_row: end.0,
            end_col: end.1,
        };
        proof {
            lemma_position_order(text@, s.start_byte as int, s.end_byte as int);
        }
        out.push(loc);
        k = k + 1;
    }
    out
}

} // verus!

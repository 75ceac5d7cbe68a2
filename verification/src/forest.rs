use vstd::prelude::*;

use crate::errors::BlockError;
use crate::order::lemma_sorted_lt_transitive;
use crate::order::sorted_lt;
use crate::span::BlockLocation;
use crate::span::partial_overlap;

verus! {

/// One structural match: a span and the matches nested inside it, ordered by
/// ascending start offset.
#[derive(Debug)]
pub struct CodeBlock {
    pub block: BlockLocation,
    pub children: Vec<CodeBlock>,
}

/// A block is well formed: its span is well formed, its children are ordered
/// and pairwise disjoint, each child nests strictly inside it, and each child
/// is itself well formed.
pub open spec fn block_wf(b: CodeBlock) -> bool
    decreases b,
{
    &&& b.block.wf()
    &&& forall|i: int|
        0 <= i < b.children@.len() ==> b.block.strictly_contains(
            (#[trigger] b.children@[i]).block,
        ) && block_wf(b.children@[i])
    &&& forall|i: int|
        0 <= i && i + 1 < b.children@.len() ==> (#[trigger] b.children@[i]).block.end_byte
            <= b.children@[i + 1].block.start_byte
}

/// A forest is well formed: its top-level blocks are ordered and pairwise
/// disjoint, each lies inside a document of `len` bytes, and each is well
/// formed.
pub open spec fn forest_wf(f: Seq<CodeBlock>, len: nat) -> bool {
    &&& forall|i: int| 0 <= i < f.len() ==> block_wf(#[trigger] f[i]) && f[i].block.in_bounds(len)
    &&& forall|i: int|
        0 <= i && i + 1 < f.len() ==> (#[trigger] f[i]).block.end_byte <= f[i + 1].block.start_byte
}

/// The byte range `[sb, eb)` is the range of some block in the subtree rooted
/// at `b`, at any depth.
pub open spec fn block_has_range(b: CodeBlock, sb: nat, eb: nat) -> bool
    decreases b,
{
    ||| (b.block.start_byte == sb && b.block.end_byte == eb)
    ||| exists|i: int| 0 <= i < b.children@.len() && block_has_range(#[trigger] b.children@[i], sb, eb)
}

/// The byte range `[sb, eb)` is the range of some block in the forest, at any
/// depth.
pub open spec fn forest_has_range(f: Seq<CodeBlock>, sb: nat, eb: nat) -> bool {
    exists|i: int| 0 <= i < f.len() && block_has_range(#[trigger] f[i], sb, eb)
}

/// Some span of `spans[lo..hi)` has the byte range `[sb, eb)`.
pub open spec fn spans_have_range(
    spans: Seq<BlockLocation>,
    lo: int,
    hi: int,
    sb: nat,
    eb: nat,
) -> bool {
    exists|k: int| lo <= k < hi && (#[trigger] spans[k]).start_byte == sb && spans[k].end_byte == eb
}

/// Every block location in the subtree rooted at `b`, the root's included,
/// is an element of `spans`: the builder invents no location.
pub open spec fn block_locs_in(b: CodeBlock, spans: Seq<BlockLocation>) -> bool
    decreases b,
{
    &&& spans.contains(b.block)
    &&& forall|i: int| 0 <= i < b.children@.len() ==> block_locs_in(#[trigger] b.children@[i], spans)
}

/// No two blocks anywhere in the subtree rooted at `b` carry the same byte
/// range: the root's range recurs nowhere below it, each child's subtree is
/// itself duplicate-free, and no range occurs in two different children's
/// subtrees.
pub open spec fn block_ranges_unique(b: CodeBlock) -> bool
    decreases b,
{
    &&& forall|i: int|
        0 <= i < b.children@.len() ==> !block_has_range(
            #[trigger] b.children@[i],
            b.block.start_byte as nat,
            b.block.end_byte as nat,
        )
    &&& forall|i: int| 0 <= i < b.children@.len() ==> block_ranges_unique(#[trigger] b.children@[i])
    &&& forall|i: int, j: int, sb: nat, eb: nat|
        #![trigger block_has_range(b.children@[i], sb, eb), block_has_range(b.children@[j], sb, eb)]
        0 <= i < b.children@.len() && 0 <= j < b.children@.len() && i != j && block_has_range(
            b.children@[i],
            sb,
            eb,
        ) ==> !block_has_range(b.children@[j], sb, eb)
}

/// No two blocks anywhere in the forest carry the same byte range.
pub open spec fn forest_ranges_unique(f: Seq<CodeBlock>) -> bool {
    &&& forall|i: int| 0 <= i < f.len() ==> block_ranges_unique(#[trigger] f[i])
    &&& forall|i: int, j: int, sb: nat, eb: nat|
        #![trigger block_has_range(f[i], sb, eb), block_has_range(f[j], sb, eb)]
        0 <= i < f.len() && 0 <= j < f.len() && i != j && block_has_range(f[i], sb, eb)
            ==> !block_has_range(f[j], sb, eb)
}

/// Two distinct positions of a strictly sorted span list never carry the
/// same byte range.
proof fn lemma_distinct_ranges(spans: Seq<BlockLocation>, k1: int, k2: int)
    requires
        sorted_lt(spans),
        0 <= k1 < k2 < spans.len(),
    ensures
        !(spans[k1].start_byte == spans[k2].start_byte && spans[k1].end_byte == spans[k2].end_byte),
{
    lemma_sorted_lt_transitive(spans, k1, k2);
}

/// Every range in a well-formed block's subtree lies inside the root's range.
pub proof fn lemma_block_range_in_root(b: CodeBlock, sb: nat, eb: nat)
    requires
        block_wf(b),
        block_has_range(b, sb, eb),
    ensures
        b.block.start_byte <= sb,
        eb <= b.block.end_byte,
        sb <= eb,
    decreases b,
{
    if !(b.block.start_byte == sb && b.block.end_byte == eb) {
        let i = choose|i: int|
            0 <= i < b.children@.len() && block_has_range(#[trigger] b.children@[i], sb, eb);
        lemma_block_range_in_root(b.children@[i], sb, eb);
    }
}

/// Every block's range in a well-formed forest lies inside `[0, len)` of
/// the document, and sibling ranges never overlap (the latter is part of
/// `forest_wf` and `block_wf` directly: adjacent siblings are ordered end
/// before start).
pub proof fn lemma_forest_range_in_bounds(f: Seq<CodeBlock>, len: nat, sb: nat, eb: nat)
    requires
        forest_wf(f, len),
        forest_has_range(f, sb, eb),
    ensures
        sb <= eb <= len,
{
    let i = choose|i: int| 0 <= i < f.len() && block_has_range(#[trigger] f[i], sb, eb);
    lemma_block_range_in_root(f[i], sb, eb);
}

/// Any two distinct siblings in an ordered, well-formed sibling list have
/// disjoint byte ranges, not only adjacent ones.
pub proof fn lemma_siblings_disjoint(s: Seq<CodeBlock>, i: int, j: int)
    requires
        forall|m: int| 0 <= m < s.len() ==> (#[trigger] s[m]).block.wf(),
        forall|m: int|
            0 <= m && m + 1 < s.len() ==> (#[trigger] s[m]).block.end_byte <= s[m
                + 1].block.start_byte,
        0 <= i < j < s.len(),
    ensures
        s[i].block.end_byte <= s[j].block.start_byte,
        s[i].block.disjoint_from(s[j].block),
    decreases j - i,
{
    if i + 1 < j {
        lemma_siblings_disjoint(s, i + 1, j);
        assert(s[i].block.end_byte <= s[i + 1].block.start_byte);
        assert(s[i + 1].block.wf());
    }
}

/// No two ranges in a well-formed subtree partially overlap: any two are
/// equal, nested, or disjoint.
pub proof fn lemma_block_ranges_nest(
    bk: CodeBlock,
    sa: nat,
    ea: nat,
    sb: nat,
    eb: nat,
)
    requires
        block_wf(bk),
        block_has_range(bk, sa, ea),
        block_has_range(bk, sb, eb),
    ensures
        !(sa < sb && sb < ea && ea < eb),
        !(sb < sa && sa < eb && eb < ea),
    decreases bk,
{
    let root_a = bk.block.start_byte == sa && bk.block.end_byte == ea;
    let root_b = bk.block.start_byte == sb && bk.block.end_byte == eb;
    if root_a && root_b {
    } else if root_a {
        let j = choose|j: int|
            0 <= j < bk.children@.len() && block_has_range(#[trigger] bk.children@[j], sb, eb);
        lemma_block_range_in_root(bk.children@[j], sb, eb);
    } else if root_b {
        let i = choose|i: int|
            0 <= i < bk.children@.len() && block_has_range(#[trigger] bk.children@[i], sa, ea);
        lemma_block_range_in_root(bk.children@[i], sa, ea);
    } else {
        let i = choose|i: int|
            0 <= i < bk.children@.len() && block_has_range(#[trigger] bk.children@[i], sa, ea);
        let j = choose|j: int|
            0 <= j < bk.children@.len() && block_has_range(#[trigger] bk.children@[j], sb, eb);
        if i == j {
            lemma_block_ranges_nest(bk.children@[i], sa, ea, sb, eb);
        } else {
            lemma_block_range_in_root(bk.children@[i], sa, ea);
            lemma_block_range_in_root(bk.children@[j], sb, eb);
            assert forall|m: int| 0 <= m < bk.children@.len() implies (#[trigger] bk.children@[m]).block.wf() by {
                assert(block_wf(bk.children@[m]));
            }
            if i < j {
                lemma_siblings_disjoint(bk.children@, i, j);
            } else {
                lemma_siblings_disjoint(bk.children@, j, i);
            }
        }
    }
}

/// No two ranges in a well-formed forest partially overlap: any two are
/// equal, nested, or disjoint.  Together with `build_forest`'s contract this
/// also means extraction cannot answer with a forest when the captured spans
/// hold a partially overlapping pair.
pub proof fn lemma_forest_ranges_nest(
    f: Seq<CodeBlock>,
    len: nat,
    sa: nat,
    ea: nat,
    sb: nat,
    eb: nat,
)
    requires
        forest_wf(f, len),
        forest_has_range(f, sa, ea),
        forest_has_range(f, sb, eb),
    ensures
        !(sa < sb && sb < ea && ea < eb),
        !(sb < sa && sa < eb && eb < ea),
{
    let i = choose|i: int| 0 <= i < f.len() && block_has_range(#[trigger] f[i], sa, ea);
    let j = choose|j: int| 0 <= j < f.len() && block_has_range(#[trigger] f[j], sb, eb);
    lemma_block_range_in_root(f[i], sa, ea);
    lemma_block_range_in_root(f[j], sb, eb);
    if i == j {
        lemma_block_ranges_nest(f[i], sa, ea, sb, eb);
    } else {
        assert forall|m: int| 0 <= m < f.len() implies (#[trigger] f[m]).block.wf() by {
            assert(block_wf(f[m]));
        }
        if i < j {
            lemma_siblings_disjoint(f, i, j);
        } else {
            lemma_siblings_disjoint(f, j, i);
        }
    }
}

/// Builds the subtree rooted at `spans[i]`: the following spans that begin
/// inside it become its descendants.  Returns the finished block and the
/// index of the first span not consumed.
#[verifier::rlimit(100)]
fn build_node(spans: &Vec<BlockLocation>, i: usize) -> (r: Result<
    (CodeBlock, usize),
    BlockError,
>)
    requires
        sorted_lt(spans@),
        forall|k: int| 0 <= k < spans@.len() ==> (#[trigger] spans@[k]).wf(),
        i < spans@.len(),
    ensures
        r matches Ok(v) ==> {
            let b = v.0;
            let j = v.1 as int;
            &&& i < j <= spans@.len()
            &&& b.block == spans@[i as int]
            &&& block_wf(b)
            &&& (j < spans@.len() ==> spans@[j].start_byte >= b.block.end_byte)
            &&& forall|k: int|
                i <= k < j ==> block_has_range(
                    b,
                    (#[trigger] spans@[k]).start_byte as nat,
                    spans@[k].end_byte as nat,
                )
            &&& forall|sb: nat, eb: nat|
                block_has_range(b, sb, eb) ==> spans_have_range(spans@, i as int, j, sb, eb)
            &&& block_locs_in(b, spans@)
            &&& block_ranges_unique(b)
        },
        r is Err ==> (r->Err_0 is Overlap && exists|k1: int, k2: int|
            0 <= k1 < k2 < spans@.len() && partial_overlap(
                #[trigger] spans@[k1],
                #[trigger] spans@[k2],
            )),
    decreases spans@.len() - i,
{
    let n = spans.len();
    let root = spans[i];
    let mut children: Vec<CodeBlock> = Vec::new();
    let mut j: usize = i + 1;
    while j < spans.len() && spans[j].start_byte < root.end_byte
        invariant
            sorted_lt(spans@),
            forall|k: int| 0 <= k < spans@.len() ==> (#[trigger] spans@[k]).wf(),
            0 <= i < j <= spans@.len(),
            root == spans@[i as int],
            forall|m: int| 0 <= m < children@.len() ==> block_wf(#[trigger] children@[m]),
            forall|m: int|
                0 <= m < children@.len() ==> root.strictly_contains(
                    (#[trigger] children@[m]).block,
                ),
            forall|m: int|
                0 <= m && m + 1 < children@.len() ==> (#[trigger] children@[m]).block.end_byte
                    <= children@[m + 1].block.start_byte,
            children@.len() > 0 && j < spans@.len() ==> spans@[j as int].start_byte
                >= children@[children@.len() - 1].block.end_byte,
            forall|k: int|
                i < k < j ==> exists|m: int|
                    0 <= m < children@.len() && block_has_range(
                        #[trigger] children@[m],
                        (#[trigger] spans@[k]).start_byte as nat,
                        spans@[k].end_byte as nat,
                    ),
            forall|m: int, sb: nat, eb: nat|
                0 <= m < children@.len() && #[trigger] block_has_range(children@[m], sb, eb)
                    ==> spans_have_range(spans@, i + 1, j as int, sb, eb),
            forall|m: int| 0 <= m < children@.len() ==> block_locs_in(#[trigger] children@[m], spans@),
            forall|m: int|
                0 <= m < children@.len() ==> block_ranges_unique(#[trigger] children@[m]),
            forall|m1: int, m2: int, sb: nat, eb: nat|
                #![trigger block_has_range(children@[m1], sb, eb), block_has_range(children@[m2], sb, eb)]
                0 <= m1 < children@.len() && 0 <= m2 < children@.len() && m1 != m2
                    && block_has_range(children@[m1], sb, eb) ==> !block_has_range(
                    children@[m2],
                    sb,
                    eb,
                ),
        decreases spans@.len() - j,
    {
        if spans[j].end_byte > root.end_byte {
            proof {
                lemma_sorted_lt_transitive(spans@, i as int, j as int);
                assert(partial_overlap(spans@[i as int], spans@[j as int]));
            }
            return Err(BlockError::Overlap);
        }
        let sub = build_node(spans, j)?;
        let child = sub.0;
        let j2 = sub.1;
        proof {
            lemma_sorted_lt_transitive(spans@, i as int, j as int);
            assert(root.strictly_contains(child.block));
        }
        let ghost child_window_lo = j as int;
        let ghost child_window_hi = j2 as int;
        let ghost pre = children@;
        let ghost old_j = j as int;
        children.push(child);
        proof {
            assert(children@[children@.len() - 1] == child);
            assert(forall|m: int| 0 <= m < pre.len() ==> children@[m] == pre[m]);
        }
        j = j2;
        proof {
            assert forall|k: int| i < k < j implies exists|m: int|
                0 <= m < children@.len() && block_has_range(
                    #[trigger] children@[m],
                    (#[trigger] spans@[k]).start_byte as nat,
                    spans@[k].end_byte as nat,
                ) by {
                if k < old_j {
                    let m = choose|m: int|
                        0 <= m < pre.len() && block_has_range(
                            #[trigger] pre[m],
                            spans@[k].start_byte as nat,
                            spans@[k].end_byte as nat,
                        );
                    assert(children@[m] == pre[m]);
                } else {
                    assert(block_has_range(
                        child,
                        spans@[k].start_byte as nat,
                        spans@[k].end_byte as nat,
                    ));
                    assert(children@[children@.len() - 1] == child);
                }
            }
            assert forall|m: int, sb: nat, eb: nat|
                0 <= m < children@.len() && #[trigger] block_has_range(
                    children@[m],
                    sb,
                    eb,
                ) implies spans_have_range(spans@, i + 1, j as int, sb, eb) by {
                if m < pre.len() {
                    assert(spans_have_range(spans@, i + 1, old_j, sb, eb));
                    let k = choose|k: int|
                        i + 1 <= k < old_j && (#[trigger] spans@[k]).start_byte == sb
                            && spans@[k].end_byte == eb;
                    assert(spans_have_range(spans@, i + 1, j as int, sb, eb));
                } else {
                    assert(children@[m] == child);
                    assert(spans_have_range(spans@, old_j, j as int, sb, eb));
                    let k = choose|k: int|
                        old_j <= k < j && (#[trigger] spans@[k]).start_byte == sb
                            && spans@[k].end_byte == eb;
                    assert(spans_have_range(spans@, i + 1, j as int, sb, eb));
                }
            }
            assert forall|m1: int, m2: int, sb: nat, eb: nat|
                #![trigger block_has_range(children@[m1], sb, eb), block_has_range(children@[m2], sb, eb)]
                0 <= m1 < children@.len() && 0 <= m2 < children@.len() && m1 != m2
                    && block_has_range(children@[m1], sb, eb) implies !block_has_range(
                children@[m2],
                sb,
                eb,
            ) by {
                if m1 < pre.len() && m2 < pre.len() {
                    assert(children@[m1] == pre[m1] && children@[m2] == pre[m2]);
                } else if block_has_range(children@[m2], sb, eb) {
                    let mo = if m1 < pre.len() { m1 } else { m2 };
                    let mn = if m1 < pre.len() { m2 } else { m1 };
                    assert(children@[mo] == pre[mo]);
                    assert(children@[mn] == child);
                    assert(spans_have_range(spans@, i + 1, old_j, sb, eb));
                    let k1 = choose|k1: int|
                        i + 1 <= k1 < old_j && (#[trigger] spans@[k1]).start_byte == sb
                            && spans@[k1].end_byte == eb;
                    assert(spans_have_range(spans@, old_j, j as int, sb, eb));
                    let k2 = choose|k2: int|
                        old_j <= k2 < j && (#[trigger] spans@[k2]).start_byte == sb
                            && spans@[k2].end_byte == eb;
                    lemma_distinct_ranges(spans@, k1, k2);
                    assert(false);
                }
            }
        }
    }
    let node = CodeBlock { block: root, children };
    proof {
        assert(block_wf(node));
        assert forall|k: int| i <= k < j implies block_has_range(
            node,
            (#[trigger] spans@[k]).start_byte as nat,
            spans@[k].end_byte as nat,
        ) by {
            if k > i {
                let m = choose|m: int|
                    0 <= m < node.children@.len() && block_has_range(
                        #[trigger] node.children@[m],
                        spans@[k].start_byte as nat,
                        spans@[k].end_byte as nat,
                    );
            }
        }
        assert forall|sb: nat, eb: nat| block_has_range(node, sb, eb) implies spans_have_range(
            spans@,
            i as int,
            j as int,
            sb,
            eb,
        ) by {
            if node.block.start_byte == sb && node.block.end_byte == eb {
                assert(spans@[i as int].start_byte == sb && spans@[i as int].end_byte == eb);
            } else {
                let m = choose|m: int|
                    0 <= m < node.children@.len() && block_has_range(
                        #[trigger] node.children@[m],
                        sb,
                        eb,
                    );
                assert(spans_have_range(spans@, i + 1, j as int, sb, eb));
                let k = choose|k: int|
                    i + 1 <= k < j && (#[trigger] spans@[k]).start_byte == sb && spans@[k].end_byte
                        == eb;
            }
        }
        assert(spans@.contains(node.block)) by {
            assert(spans@[i as int] == node.block);
        }
        assert(block_locs_in(node, spans@));
        assert forall|m: int| 0 <= m < node.children@.len() implies !block_has_range(
            #[trigger] node.children@[m],
            node.block.start_byte as nat,
            node.block.end_byte as nat,
        ) by {
            if block_has_range(node.children@[m], node.block.start_byte as nat,
                node.block.end_byte as nat) {
                assert(spans_have_range(
                    spans@,
                    i + 1,
                    j as int,
                    node.block.start_byte as nat,
                    node.block.end_byte as nat,
                ));
                let k = choose|k: int|
                    i + 1 <= k < j && (#[trigger] spans@[k]).start_byte == node.block.start_byte
                        && spans@[k].end_byte == node.block.end_byte;
                lemma_distinct_ranges(spans@, i as int, k);
                assert(false);
            }
        }
        assert(block_ranges_unique(node));
    }
    Ok((node, j))
}

/// Builds the containment forest of the given spans, which must be strictly
/// sorted in extraction order and well formed.  A span nests under the
/// nearest span that contains it; a span contained in none becomes a new
/// top-level block.  A partially overlapping pair of spans is reported as an
/// unsupported input, never silently resolved.
#[verifier::rlimit(100)]
pub fn build_forest(spans: &Vec<BlockLocation>, len: usize) -> (r: Result<
    Vec<CodeBlock>,
    BlockError,
>)
    requires
        sorted_lt(spans@),
        forall|k: int|
            0 <= k < spans@.len() ==> (#[trigger] spans@[k]).wf() && spans@[k].in_bounds(
                len as nat,
            ),
    ensures
        r matches Ok(f) ==> {
            &&& forest_wf(f@, len as nat)
            &&& forall|k: int|
                0 <= k < spans@.len() ==> forest_has_range(
                    f@,
                    (#[trigger] spans@[k]).start_byte as nat,
                    spans@[k].end_byte as nat,
                )
            &&& forall|sb: nat, eb: nat|
                forest_has_range(f@, sb, eb) ==> spans_have_range(
                    spans@,
                    0,
                    spans@.len() as int,
                    sb,
                    eb,
                )
            &&& forall|m: int| 0 <= m < f@.len() ==> block_locs_in(#[trigger] f@[m], spans@)
            &&& forest_ranges_unique(f@)
        },
        r is Err ==> (r->Err_0 is Overlap && exists|k1: int, k2: int|
            0 <= k1 < k2 < spans@.len() && partial_overlap(
                #[trigger] spans@[k1],
                #[trigger] spans@[k2],
            )),
{
    let mut forest: Vec<CodeBlock> = Vec::new();
    let mut j: usize = 0;
    while j < spans.len()
        invariant
            sorted_lt(spans@),
            forall|k: int|
                0 <= k < spans@.len() ==> (#[trigger] spans@[k]).wf() && spans@[k].in_bounds(
                    len as nat,
                ),
            j <= spans@.len(),
            forall|m: int|
                0 <= m < forest@.len() ==> block_wf(#[trigger] forest@[m])
                    && forest@[m].block.in_bounds(len as nat),
            forall|m: int|
                0 <= m && m + 1 < forest@.len() ==> (#[trigger] forest@[m]).block.end_byte
                    <= forest@[m + 1].block.start_byte,
            forest@.len() > 0 && j < spans@.len() ==> spans@[j as int].start_byte
                >= forest@[forest@.len() - 1].block.end_byte,
            forall|k: int|
                0 <= k < j ==> exists|m: int|
                    0 <= m < forest@.len() && block_has_range(
                        #[trigger] forest@[m],
                        (#[trigger] spans@[k]).start_byte as nat,
                        spans@[k].end_byte as nat,
                    ),
            forall|m: int, sb: nat, eb: nat|
                0 <= m < forest@.len() && #[trigger] block_has_range(forest@[m], sb, eb)
                    ==> spans_have_range(spans@, 0, j as int, sb, eb),
            forall|m: int| 0 <= m < forest@.len() ==> block_locs_in(#[trigger] forest@[m], spans@),
            forall|m: int| 0 <= m < forest@.len() ==> block_ranges_unique(#[trigger] forest@[m]),
            forall|m1: int, m2: int, sb: nat, eb: nat|
                #![trigger block_has_range(forest@[m1], sb, eb), block_has_range(forest@[m2], sb, eb)]
                0 <= m1 < forest@.len() && 0 <= m2 < forest@.len() && m1 != m2
                    && block_has_range(forest@[m1], sb, eb) ==> !block_has_range(
                    forest@[m2],
                    sb,
                    eb,
                ),
        decreases spans@.len() - j,
    {
        let sub = build_node(spans, j)?;
        let node = sub.0;
        let j2 = sub.1;
        let ghost pre = forest@;
        let ghost old_j = j as int;
        forest.push(node);
        proof {
            assert(forest@[forest@.len() - 1] == node);
            assert(forall|m: int| 0 <= m < pre.len() ==> forest@[m] == pre[m]);
            assert(node.block.in_bounds(len as nat));
        }
        j = j2;
        proof {
            assert forall|k: int| 0 <= k < j implies exists|m: int|
                0 <= m < forest@.len() && block_has_range(
                    #[trigger] forest@[m],
                    (#[trigger] spans@[k]).start_byte as nat,
                    spans@[k].end_byte as nat,
                ) by {
                if k < old_j {
                    let m = choose|m: int|
                        0 <= m < pre.len() && block_has_range(
                            #[trigger] pre[m],
                            spans@[k].start_byte as nat,
                            spans@[k].end_byte as nat,
                        );
                    assert(forest@[m] == pre[m]);
                } else {
                    assert(block_has_range(
                        node,
                        spans@[k].start_byte as nat,
                        spans@[k].end_byte as nat,
                    ));
                    assert(forest@[forest@.len() - 1] == node);
                }
            }
            assert forall|m: int, sb: nat, eb: nat|
                0 <= m < forest@.len() && #[trigger] block_has_range(
                    forest@[m],
                    sb,
                    eb,
                ) implies spans_have_range(spans@, 0, j as int, sb, eb) by {
                if m < pre.len() {
                    assert(spans_have_range(spans@, 0, old_j, sb, eb));
                    let k = choose|k: int|
                        0 <= k < old_j && (#[trigger] spans@[k]).start_byte == sb
                            && spans@[k].end_byte == eb;
                    assert(spans_have_range(spans@, 0, j as int, sb, eb));
                } else {
                    assert(forest@[m] == node);
                    assert(spans_have_range(spans@, old_j, j as int, sb, eb));
                    let k = choose|k: int|
                        old_j <= k < j && (#[trigger] spans@[k]).start_byte == sb
                            && spans@[k].end_byte == eb;
                    assert(spans_have_range(spans@, 0, j as int, sb, eb));
                }
            }
            assert forall|m1: int, m2: int, sb: nat, eb: nat|
                #![trigger block_has_range(forest@[m1], sb, eb), block_has_range(forest@[m2], sb, eb)]
                0 <= m1 < forest@.len() && 0 <= m2 < forest@.len() && m1 != m2
                    && block_has_range(forest@[m1], sb, eb) implies !block_has_range(
                forest@[m2],
                sb,
                eb,
            ) by {
                if m1 < pre.len() && m2 < pre.len() {
                    assert(forest@[m1] == pre[m1] && forest@[m2] == pre[m2]);
                } else if block_has_range(forest@[m2], sb, eb) {
                    let mo = if m1 < pre.len() { m1 } else { m2 };
                    let mn = if m1 < pre.len() { m2 } else { m1 };
                    assert(forest@[mo] == pre[mo]);
                    assert(forest@[mn] == node);
                    assert(spans_have_range(spans@, 0, old_j, sb, eb));
                    let k1 = choose|k1: int|
                        0 <= k1 < old_j && (#[trigger] spans@[k1]).start_byte == sb
                            && spans@[k1].end_byte == eb;
                    assert(spans_have_range(spans@, old_j, j as int, sb, eb));
                    let k2 = choose|k2: int|
                        old_j <= k2 < j && (#[trigger] spans@[k2]).start_byte == sb
                            && spans@[k2].end_byte == eb;
                    lemma_distinct_ranges(spans@, k1, k2);
                    assert(false);
                }
            }
        }
    }
    Ok(forest)
}

/// Whether some block of the subtree rooted at `b`, at any depth, has
/// exactly the byte range `[sb, eb)`.
pub fn block_contains_span(b: &CodeBlock, sb: usize, eb: usize) -> (r: bool)
    ensures
        r == block_has_range(*b, sb as nat, eb as nat),
    decreases *b,
{
    if b.block.start_byte == sb && b.block.end_byte == eb {
        return true;
    }
    let mut m: usize = 0;
    while m < b.children.len()
        invariant
            m <= b.children@.len(),
            forall|k: int|
                0 <= k < m ==> !block_has_range(
                    #[trigger] b.children@[k],
                    sb as nat,
                    eb as nat,
                ),
        decreases b.children@.len() - m,
    {
        if block_contains_span(&b.children[m], sb, eb) {
            return true;
        }
        m = m + 1;
    }
    false
}

/// Whether some block of the forest, at any depth, has exactly the byte
/// range `[sb, eb)`.  Blocks are located by exact byte range; row/column are
/// advisory and not an independent matching key.
pub fn forest_contains_span(f: &Vec<CodeBlock>, sb: usize, eb: usize) -> (r: bool)
    ensures
        r == forest_has_range(f@, sb as nat, eb as nat),
{
    let mut m: usize = 0;
    while m < f.len()
        invariant
            m <= f@.len(),
            forall|k: int| 0 <= k < m ==> !block_has_range(#[trigger] f@[k], sb as nat, eb as nat),
        decreases f@.len() - m,
    {
        if block_contains_span(&f[m], sb, eb) {
            return true;
        }
        m = m + 1;
    }
    false
}

} // verus!

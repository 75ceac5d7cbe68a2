use vstd::prelude::*;

use crate::span::BlockLocation;
use crate::span::span_le;
use crate::span::span_lt;

verus! {

/// Consuming the next element of `v` extends the tail subrange by one.
proof fn lemma_concat_push(v: Seq<BlockLocation>, x: BlockLocation, pos: int, q: int)
    requires
        0 <= pos <= q < v.len(),
    ensures
        (v.subrange(0, pos) + seq![x] + v.subrange(pos, q)).push(v[q]) =~= v.subrange(0, pos)
            + seq![x] + v.subrange(pos, q + 1),
{
}

/// Adjacent pairs are in extraction order.
pub open spec fn sorted_le(s: Seq<BlockLocation>) -> bool {
    forall|i: int| 0 <= i && i + 1 < s.len() ==> span_le(#[trigger] s[i], s[i + 1])
}

/// Strictly sorted: ascending start offset, ties broken by descending end
/// offset, no two equal byte ranges.
pub open spec fn sorted_lt(s: Seq<BlockLocation>) -> bool {
    forall|i: int| 0 <= i && i + 1 < s.len() ==> span_lt(#[trigger] s[i], s[i + 1])
}

pub proof fn lemma_sorted_lt_transitive(s: Seq<BlockLocation>, i: int, j: int)
    requires
        sorted_lt(s),
        0 <= i < j < s.len(),
    ensures
        span_lt(s[i], s[j]),
    decreases j - i,
{
    if i + 1 < j {
        lemma_sorted_lt_transitive(s, i, j - 1);
    }
}

/// Whether `a` comes no later than `b` in extraction order.
fn span_le_exec(a: &BlockLocation, b: &BlockLocation) -> (r: bool)
    ensures
        r == span_le(*a, *b),
{
    a.start_byte < b.start_byte || (a.start_byte == b.start_byte && a.end_byte >= b.end_byte)
}

/// Keeps exactly the spans that are well formed and lie inside a document of
/// `len` bytes.  Extraction checks the ranges the query engine hands back
/// rather than assuming anything of them.
pub fn sanitize_spans(spans: &Vec<BlockLocation>, len: usize) -> (r: Vec<BlockLocation>)
    ensures
        forall|i: int| 0 <= i < r@.len() ==> (#[trigger] r@[i]).wf() && r@[i].in_bounds(len as nat),
        forall|i: int| 0 <= i < r@.len() ==> spans@.contains(#[trigger] r@[i]),
        forall|s: BlockLocation|
            spans@.contains(s) && s.wf() && s.in_bounds(len as nat) ==> r@.contains(s),
{
    let mut out: Vec<BlockLocation> = Vec::new();
    let mut i: usize = 0;
    while i < spans.len()
        invariant
            i <= spans@.len(),
            forall|k: int|
                0 <= k < out@.len() ==> (#[trigger] out@[k]).wf() && out@[k].in_bounds(len as nat),
            forall|k: int| 0 <= k < out@.len() ==> spans@.contains(#[trigger] out@[k]),
            forall|k: int|
                0 <= k < i && (#[trigger] spans@[k]).wf() && spans@[k].in_bounds(len as nat)
                    ==> out@.contains(spans@[k]),
        decreases spans@.len() - i,
    {
        let s = spans[i];
        let row_ok = s.start_row < s.end_row || (s.start_row == s.end_row && s.start_col
            <= s.end_col);
        if s.start_byte <= s.end_byte && row_ok && s.end_byte <= len {
            let ghost old_out = out@;
            out.push(s);
            proof {
                lemma_push_keeps(old_out, s);
            }
        }
        i = i + 1;
    }
    out
}

/// Pushing keeps every old element and adds the new one.
proof fn lemma_push_keeps(s: Seq<BlockLocation>, x: BlockLocation)
    ensures
        s.push(x).contains(x),
        forall|e: BlockLocation| s.contains(e) ==> s.push(x).contains(e),
        forall|e: BlockLocation| s.push(x).contains(e) ==> e == x || s.contains(e),
{
    assert(s.push(x)[s.len() as int] == x);
    assert forall|e: BlockLocation| s.contains(e) implies s.push(x).contains(e) by {
        let k = choose|k: int| 0 <= k < s.len() && s[k] == e;
        assert(s.push(x)[k] == e);
    }
    assert forall|e: BlockLocation| s.push(x).contains(e) implies e == x || s.contains(e) by {
        let k = choose|k: int| 0 <= k < s.push(x).len() && s.push(x)[k] == e;
        if k < s.len() {
            assert(s[k] == e);
        }
    }
}

/// The sorted list `s` with `x` placed at position `p` stays sorted and holds
/// exactly the old elements and `x`.
proof fn lemma_insert_sorted(s: Seq<BlockLocation>, x: BlockLocation, p: int)
    requires
        sorted_le(s),
        0 <= p <= s.len(),
        forall|k: int| 0 <= k < p ==> span_le(#[trigger] s[k], x),
        p < s.len() ==> span_le(x, s[p]),
    ensures
        sorted_le(s.subrange(0, p) + seq![x] + s.subrange(p, s.len() as int)),
        (s.subrange(0, p) + seq![x] + s.subrange(p, s.len() as int)).contains(x),
        forall|e: BlockLocation|
            s.contains(e) ==> (s.subrange(0, p) + seq![x] + s.subrange(
                p,
                s.len() as int,
            )).contains(e),
        forall|e: BlockLocation|
            (s.subrange(0, p) + seq![x] + s.subrange(p, s.len() as int)).contains(e) ==> e == x
                || s.contains(e),
{
    let t = s.subrange(0, p) + seq![x] + s.subrange(p, s.len() as int);
    assert(t.len() == s.len() + 1);
    assert forall|i: int| 0 <= i < t.len() implies t[i] == (if i < p {
        s[i]
    } else if i == p {
        x
    } else {
        s[i - 1]
    }) by {}
    assert forall|i: int| 0 <= i && i + 1 < t.len() implies span_le(#[trigger] t[i], t[i + 1]) by {
        if i + 1 == p {
            assert(span_le(s[i], x));
        } else if i == p {
            assert(span_le(x, s[i]));
        }
    }
    assert(t[p] == x);
    assert forall|e: BlockLocation| s.contains(e) implies t.contains(e) by {
        let k = choose|k: int| 0 <= k < s.len() && s[k] == e;
        if k < p {
            assert(t[k] == e);
        } else {
            assert(t[k + 1] == e);
        }
    }
    assert forall|e: BlockLocation| t.contains(e) implies e == x || s.contains(e) by {
        let k = choose|k: int| 0 <= k < t.len() && t[k] == e;
        if k < p {
            assert(s[k] == e);
        } else if k > p {
            assert(s[k - 1] == e);
        }
    }
}

/// Returns the sorted list with `x` inserted at its place.
fn insert_sorted(v: &Vec<BlockLocation>, x: BlockLocation) -> (r: Vec<BlockLocation>)
    requires
        sorted_le(v@),
    ensures
        sorted_le(r@),
        r@.contains(x),
        forall|s: BlockLocation| v@.contains(s) ==> r@.contains(s),
        forall|s: BlockLocation| r@.contains(s) ==> s == x || v@.contains(s),
{
    let mut out: Vec<BlockLocation> = Vec::new();
    let mut p: usize = 0;
    while p < v.len() && span_le_exec(&v[p], &x)
        invariant
            p <= v@.len(),
            sorted_le(v@),
            out@ == v@.subrange(0, p as int),
            forall|k: int| 0 <= k < p ==> span_le(#[trigger] v@[k], x),
        decreases v@.len() - p,
    {
        out.push(v[p]);
        assert(out@ =~= v@.subrange(0, p as int + 1));
        p = p + 1;
    }
    let ghost pos = p as int;
    out.push(x);
    assert(out@ =~= v@.subrange(0, pos) + seq![x] + v@.subrange(pos, pos));
    let mut q: usize = p;
    while q < v.len()
        invariant
            0 <= pos <= q <= v@.len(),
            out@ == v@.subrange(0, pos) + seq![x] + v@.subrange(pos, q as int),
        decreases v@.len() - q,
    {
        out.push(v[q]);
        proof {
            lemma_concat_push(v@, x, pos, q as int);
        }
        q = q + 1;
    }
    proof {
        assert(out@ =~= v@.subrange(0, pos) + seq![x] + v@.subrange(pos, v@.len() as int));
        lemma_insert_sorted(v@, x, pos);
    }
    out
}

/// Sorts the spans into extraction order: ascending start offset, ties broken
/// by descending end offset.
pub fn sort_spans(spans: &Vec<BlockLocation>) -> (r: Vec<BlockLocation>)
    ensures
        sorted_le(r@),
        forall|s: BlockLocation| r@.contains(s) ==> spans@.contains(s),
        forall|s: BlockLocation| spans@.contains(s) ==> r@.contains(s),
{
    let mut out: Vec<BlockLocation> = Vec::new();
    let mut i: usize = 0;
    while i < spans.len()
        invariant
            i <= spans@.len(),
            sorted_le(out@),
            forall|s: BlockLocation| out@.contains(s) ==> spans@.contains(s),
            forall|k: int| 0 <= k < i ==> out@.contains(#[trigger] spans@[k]),
        decreases spans@.len() - i,
    {
        out = insert_sorted(&out, spans[i]);
        i = i + 1;
    }
    out
}

/// A strictly sorted list stays strictly sorted when a span past its last
/// element is pushed.
proof fn lemma_push_sorted_lt(s: Seq<BlockLocation>, x: BlockLocation)
    requires
        sorted_lt(s),
        s.len() > 0 ==> span_lt(s[s.len() - 1], x),
    ensures
        sorted_lt(s.push(x)),
{
    let t = s.push(x);
    assert forall|i: int| 0 <= i && i + 1 < t.len() implies span_lt(#[trigger] t[i], t[i + 1]) by {
        if i + 1 < s.len() {
            assert(t[i] == s[i] && t[i + 1] == s[i + 1]);
        } else {
            assert(t[i] == s[s.len() - 1] && t[i + 1] == x);
        }
    }
}

/// Drops every span whose byte range already occurred: a span captured by
/// more than one query or capture is reported once.
#[verifier::rlimit(60)]
pub fn dedup_spans(spans: &Vec<BlockLocation>) -> (r: Vec<BlockLocation>)
    requires
        sorted_le(spans@),
    ensures
        sorted_lt(r@),
        forall|i: int| 0 <= i < r@.len() ==> spans@.contains(#[trigger] r@[i]),
        forall|s: BlockLocation|
            spans@.contains(s) ==> exists|i: int| 0 <= i < r@.len() && (#[trigger] r@[i]).same_range(s),
{
    let mut out: Vec<BlockLocation> = Vec::new();
    let mut i: usize = 0;
    while i < spans.len()
        invariant
            i <= spans@.len(),
            sorted_le(spans@),
            sorted_lt(out@),
            forall|k: int| 0 <= k < out@.len() ==> spans@.contains(#[trigger] out@[k]),
            forall|k: int|
                0 <= k < i ==> exists|m: int|
                    0 <= m < out@.len() && (#[trigger] out@[m]).same_range(#[trigger] spans@[k]),
            out@.len() > 0 ==> i > 0 && out@[out@.len() - 1].same_range(spans@[i - 1]),
            out@.len() == 0 ==> i == 0,
        decreases spans@.len() - i,
    {
        let s = spans[i];
        let push = if out.len() == 0 {
            true
        } else {
            let last = &out[out.len() - 1];
            !(last.start_byte == s.start_byte && last.end_byte == s.end_byte)
        };
        let ghost pre = out@;
        if push {
            proof {
                if pre.len() > 0 {
                    assert(span_le(spans@[i - 1], spans@[i as int]));
                    assert(span_lt(pre[pre.len() - 1], s));
                }
                lemma_push_sorted_lt(pre, s);
                lemma_push_keeps(pre, s);
            }
            out.push(s);
        } else {
            assert(pre[pre.len() - 1].same_range(s));
        }
        proof {
            assert forall|k: int| 0 <= k < i + 1 implies exists|m: int|
                0 <= m < out@.len() && (#[trigger] out@[m]).same_range(#[trigger] spans@[k]) by {
                if k < i {
                    let m = choose|m: int|
                        0 <= m < pre.len() && (#[trigger] pre[m]).same_range(spans@[k]);
                    assert(out@[m].same_range(spans@[k]));
                } else {
                    assert(out@[out@.len() - 1].same_range(spans@[k]));
                }
            }
        }
        i = i + 1;
    }
    assert forall|s: BlockLocation| spans@.contains(s) implies exists|m: int|
        0 <= m < out@.len() && (#[trigger] out@[m]).same_range(s) by {
        let k = choose|k: int| 0 <= k < spans@.len() && spans@[k] == s;
        let m = choose|m: int| 0 <= m < out@.len() && (#[trigger] out@[m]).same_range(spans@[k]);
        assert(out@[m].same_range(s));
    }
    out
}

} // verus!

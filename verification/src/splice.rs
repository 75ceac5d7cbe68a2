use vstd::prelude::*;

verus! {

/// The document `t` with the contents of `[a, b)` and `[c, d)` exchanged,
/// where `[a, b)` is the earlier range: everything before `a`, strictly
/// between `b` and `c`, and from `d` on is kept verbatim.
pub open spec fn swapped(t: Seq<u8>, a: int, b: int, c: int, d: int) -> Seq<u8> {
    t.subrange(0, a) + t.subrange(c, d) + t.subrange(b, c) + t.subrange(a, b) + t.subrange(
        d,
        t.len() as int,
    )
}

/// Appends `t[i..j)` to `out`.
fn push_range(out: &mut Vec<u8>, t: &Vec<u8>, i: usize, j: usize)
    requires
        i <= j <= t@.len(),
    ensures
        final(out)@ == old(out)@ + t@.subrange(i as int, j as int),
{
    let mut k: usize = i;
    while k < j
        invariant
            i <= k <= j <= t@.len(),
            out@ == old(out)@ + t@.subrange(i as int, k as int),
        decreases j - k,
    {
        out.push(t[k]);
        assert(t@.subrange(i as int, k + 1 as int) == t@.subrange(i as int, k as int) + seq![
            t@[k as int],
        ]);
        k = k + 1;
    }
    assert(out@ == old(out)@ + t@.subrange(i as int, j as int));
}

/// Exchanges the contents of the byte ranges `[a, b)` and `[c, d)` of `text`,
/// `[a, b)` being the earlier one, and returns the new document.
pub fn swap_ranges(text: &Vec<u8>, a: usize, b: usize, c: usize, d: usize) -> (r: Vec<u8>)
    requires
        a <= b <= c <= d <= text@.len(),
    ensures
        r@ == swapped(text@, a as int, b as int, c as int, d as int),
{
    let mut out: Vec<u8> = Vec::new();
    push_range(&mut out, text, 0, a);
    push_range(&mut out, text, c, d);
    push_range(&mut out, text, b, c);
    push_range(&mut out, text, a, b);
    push_range(&mut out, text, d, text.len());
    out
}

/// Exchanging two disjoint, equal-length ranges and then exchanging the same
/// two ranges again restores the original document: with equal lengths the
/// two ranges sit at the same offsets in the exchanged document.
pub proof fn lemma_swap_twice(t: Seq<u8>, a: int, b: int, c: int, d: int)
    requires
        0 <= a <= b <= c <= d <= t.len(),
        b - a == d - c,
    ensures
        swapped(swapped(t, a, b, c, d), a, b, c, d) == t,
{
    let s = swapped(t, a, b, c, d);
    assert(s.len() == t.len());
    let s2 = swapped(s, a, b, c, d);
    assert forall|k: int| 0 <= k < t.len() implies s2[k] == t[k] by {
        if k < a {
        } else if k < b {
            assert(s2[k] == s[c + (k - a)]);
            assert(s[c + (k - a)] == t[a + (c + (k - a) - c)]);
        } else if k < c {
        } else if k < d {
            assert(s2[k] == s[a + (k - c)]);
            assert(s[a + (k - c)] == t[c + (a + (k - c) - a)]);
        } else {
        }
    }
    assert(s2 =~= t);
}

} // verus!

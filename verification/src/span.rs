use vstd::prelude::*;

verus! {

/// A half-open byte range `[start_byte, end_byte)` in a document, together
/// with the corresponding start and end positions (zero-based row/column).
/// Byte offsets are authoritative; row/column are advisory.
#[derive(Clone, Copy, Debug, PartialEq, Eq, Structural)]
pub struct BlockLocation {
    pub start_byte: usize,
    pub end_byte: usize,
    pub start_row: usize,
    pub start_col: usize,
    pub end_row: usize,
    pub end_col: usize,
}

impl BlockLocation {
    /// The span is well formed: it does not end before it starts, neither in
    /// byte offsets nor in (row, column) order.
    pub open spec fn wf(self) -> bool {
        &&& self.start_byte <= self.end_byte
        &&& (self.start_row < self.end_row || (self.start_row == self.end_row
            && self.start_col <= self.end_col))
    }

    /// The whole span lies inside a document of `len` bytes.
    pub open spec fn in_bounds(self, len: nat) -> bool {
        self.end_byte <= len
    }

    /// `self` and `other` cover the same byte range.
    pub open spec fn same_range(self, other: BlockLocation) -> bool {
        self.start_byte == other.start_byte && self.end_byte == other.end_byte
    }

    /// `inner` nests inside `self` and is not the same byte range.
    pub open spec fn strictly_contains(self, inner: BlockLocation) -> bool {
        &&& self.start_byte <= inner.start_byte
        &&& inner.end_byte <= self.end_byte
        &&& !self.same_range(inner)
    }

    /// The two byte ranges do not overlap (touching is allowed: the ranges
    /// are half open).
    pub open spec fn disjoint_from(self, other: BlockLocation) -> bool {
        self.end_byte <= other.start_byte || other.end_byte <= self.start_byte
    }
}

/// `a` comes before `b` in extraction order: ascending start offset, and for
/// equal starts the wider span first, so a parent precedes the children that
/// begin where it begins.
pub open spec fn span_lt(a: BlockLocation, b: BlockLocation) -> bool {
    a.start_byte < b.start_byte || (a.start_byte == b.start_byte && a.end_byte > b.end_byte)
}

/// Non-strict version of `span_lt`; spans with equal byte ranges compare
/// equal under it.
pub open spec fn span_le(a: BlockLocation, b: BlockLocation) -> bool {
    a.start_byte < b.start_byte || (a.start_byte == b.start_byte && a.end_byte >= b.end_byte)
}

/// `a` and `b` partially overlap: they share bytes but neither contains the
/// other.  Well-formed structural queries are not expected to produce such a
/// pair; extraction reports it as an unsupported input.
pub open spec fn partial_overlap(a: BlockLocation, b: BlockLocation) -> bool {
    (a.start_byte < b.start_byte && b.start_byte < a.end_byte && a.end_byte < b.end_byte)
    || (b.start_byte < a.start_byte && a.start_byte < b.end_byte && b.end_byte < a.end_byte)
}

} // verus!

use vstd::prelude::*;

use crate::errors::BlockError;
use crate::forest::CodeBlock;
use crate::forest::forest_contains_span;
use crate::forest::forest_has_range;
use crate::forest::forest_wf;
use crate::forest::lemma_forest_range_in_bounds;
use crate::span::BlockLocation;
use crate::splice::swap_ranges;
use crate::splice::swapped;

verus! {

/// Exchanges the contents of the two blocks of `forest` whose byte ranges
/// equal `src` and `dst` exactly, and returns the whole new document.
///
/// The source span is checked before the destination span.  Overlapping
/// spans are an unsupported input and reported, never spliced.
pub fn relocate(
    forest: &Vec<CodeBlock>,
    text: &Vec<u8>,
    src: &BlockLocation,
    dst: &BlockLocation,
) -> (r: Result<Vec<u8>, BlockError>)
    requires
        forest_wf(forest@, text@.len()),
    ensures
        r matches Err(e) ==> {
            let has_src = forest_has_range(forest@, src.start_byte as nat, src.end_byte as nat);
            let has_dst = forest_has_range(forest@, dst.start_byte as nat, dst.end_byte as nat);
            &&& (e is NotFoundSrc <==> !has_src)
            &&& (e is NotFoundDst <==> has_src && !has_dst)
            &&& (e is Overlap <==> has_src && has_dst && !src.disjoint_from(*dst))
            &&& (e is NotFoundSrc || e is NotFoundDst || e is Overlap)
        },
        r is Ok ==> forest_has_range(forest@, src.start_byte as nat, src.end_byte as nat)
            && forest_has_range(forest@, dst.start_byte as nat, dst.end_byte as nat)
            && src.disjoint_from(*dst),
        r is Ok ==> src.start_byte <= src.end_byte <= text@.len() && dst.start_byte <= dst.end_byte
            <= text@.len(),
        r matches Ok(t) ==> {
            &&& src.end_byte <= dst.start_byte ==> t@ == swapped(
                text@,
                src.start_byte as int,
                src.end_byte as int,
                dst.start_byte as int,
                dst.end_byte as int,
            )
            &&& (!(src.end_byte <= dst.start_byte) && dst.end_byte <= src.start_byte) ==> t@
                == swapped(
                text@,
                dst.start_byte as int,
                dst.end_byte as int,
                src.start_byte as int,
                src.end_byte as int,
            )
        },
{
    if !forest_contains_span(forest, src.start_byte, src.end_byte) {
        return Err(BlockError::NotFoundSrc);
    }
    if !forest_contains_span(forest, dst.start_byte, dst.end_byte) {
        return Err(BlockError::NotFoundDst);
    }
    proof {
        lemma_forest_range_in_bounds(
            forest@,
            text@.len(),
            src.start_byte as nat,
            src.end_byte as nat,
        );
        lemma_forest_range_in_bounds(
            forest@,
            text@.len(),
            dst.start_byte as nat,
            dst.end_byte as nat,
        );
    }
    if src.end_byte <= dst.start_byte {
        Ok(swap_ranges(text, src.start_byte, src.end_byte, dst.start_byte, dst.end_byte))
    } else if dst.end_byte <= src.start_byte {
        Ok(swap_ranges(text, dst.start_byte, dst.end_byte, src.start_byte, src.end_byte))
    } else {
        Err(BlockError::Overlap)
    }
}

} // verus!

use vstd::prelude::*;

verus! {

/// Everything that can go wrong while extracting or relocating blocks.
#[derive(Debug, PartialEq, Eq)]
pub enum BlockError {
    /// The parser rejected the grammar handle it was given.
    Language,
    /// The parser produced no syntax tree.
    Parse,
    /// A structural query did not compile; the message carries the rendered
    /// row, column, offending line and caret.
    Query { row: usize, col: usize, message: String },
    /// Two captured or requested spans partially overlap: neither contains
    /// the other, an unsupported input.
    Overlap,
    /// No extracted block's byte range equals the requested source span.
    NotFoundSrc,
    /// No extracted block's byte range equals the requested destination span.
    NotFoundDst,
}

impl BlockError {
    /// The message reported to a caller for this error.
    pub fn message(&self) -> (r: String)
        ensures
            self is NotFoundSrc ==> r@ == "Failed to find src item"@,
            self is NotFoundDst ==> r@ == "Failed to find dst item"@,
            self is Query ==> r@ == self->Query_message@,
            self is Language ==> r@ == "Failed to load language"@,
            self is Parse ==> r@ == "Failed to parse text"@,
            self is Overlap ==> r@ == "Overlapping blocks are not supported"@,
    {
        match self {
            BlockError::Language => "Failed to load language".to_owned(),
            BlockError::Parse => "Failed to parse text".to_owned(),
            BlockError::Query { message, .. } => message.clone(),
            BlockError::Overlap => "Overlapping blocks are not supported".to_owned(),
            BlockError::NotFoundSrc => "Failed to find src item".to_owned(),
            BlockError::NotFoundDst => "Failed to find dst item".to_owned(),
        }
    }
}

} // verus!

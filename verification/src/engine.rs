use vstd::prelude::*;

use crate::errors::BlockError;
use crate::forest::CodeBlock;
use crate::forest::build_forest;
use crate::forest::forest_wf;
use crate::messages::query_error_message;
use crate::messages::render_query_error;
use crate::forest::forest_ranges_unique;
use crate::order::dedup_spans;
use crate::order::sanitize_spans;
use crate::order::sort_spans;
use crate::position::block_positions_match;
use crate::position::forest_positions_match;
use crate::position::lemma_locs_in_positions;
use crate::position::loc_positions_match;
use crate::position::with_positions;
use crate::provision::SupportedLanguage;
use crate::relocate::relocate;
use crate::span::BlockLocation;
use crate::splice::swapped;

verus! {

#[verifier::external_type_specification]
#[verifier::external_body]
pub struct ExLanguage(tree_sitter::Language);

#[verifier::external_type_specification]
#[verifier::external_body]
pub struct ExParser(tree_sitter::Parser);

#[verifier::external_type_specification]
#[verifier::external_body]
pub struct ExTree(tree_sitter::Tree);

#[verifier::external_type_specification]
#[verifier::external_body]
pub struct ExQuery(tree_sitter::Query);

/// Relies on `tree_sitter::Parser::new`: creates a parser with no language
/// assigned yet.
#[verifier::external_body]
fn new_parser() -> tree_sitter::Parser {
    tree_sitter::Parser::new()
}

/// Relies on `tree_sitter::Parser::set_language`: assigns the grammar and
/// reports whether the parser accepted it (it rejects a grammar built for an
/// incompatible library version).
#[verifier::external_body]
fn parser_set_language(parser: &mut tree_sitter::Parser, lang: &tree_sitter::Language) -> bool {
    parser.set_language(*lang).is_ok()
}

/// Relies on `tree_sitter::Parser::parse`: parses the bytes into a syntax
/// tree.  Parsing is error tolerant; `None` comes only from a parser
/// malfunction (no language assigned, cancellation, or a timeout).
#[verifier::external_body]
fn parse_text(parser: &mut tree_sitter::Parser, text: &Vec<u8>) -> Option<tree_sitter::Tree> {
    parser.parse(text.as_slice(), None)
}

/// Relies on `tree_sitter::Query::new`: compiles the query against the
/// grammar; an error carries the zero-based row and column of the offending
/// token.
#[verifier::external_body]
fn compile_query(lang: &tree_sitter::Language, source: &str) -> Result<
    tree_sitter::Query,
    (usize, usize),
> {
    match tree_sitter::Query::new(*lang, source) {
        Ok(q) => Ok(q),
        Err(e) => Err((e.row, e.column)),
    }
}

/// Relies on `tree_sitter::QueryCursor::matches` and the node accessors: runs
/// the compiled query over the tree and hands back the byte range and
/// positions of every captured node of every match, in match order.
#[verifier::external_body]
fn collect_capture_spans(
    tree: &tree_sitter::Tree,
    query: &tree_sitter::Query,
    text: &Vec<u8>,
) -> Vec<BlockLocation> {
    let mut cursor = tree_sitter::QueryCursor::new();
    let mut out = Vec::new();
    for m in cursor.matches(query, tree.root_node(), text.as_slice()) {
        for c in m.captures {
            out.push(BlockLocation {
                start_byte: c.node.start_byte(),
                end_byte: c.node.end_byte(),
                start_row: c.node.start_position().row,
                start_col: c.node.start_position().column,
                end_row: c.node.end_position().row,
                end_col: c.node.end_position().column,
            });
        }
    }
    out
}

/// Arguments of an extraction request.
pub struct GetSubtreesArgs {
    pub queries: Vec<String>,
    pub text: Vec<u8>,
    pub language: SupportedLanguage,
}

/// Arguments of a relocation request: extraction arguments plus the byte
/// ranges of the two blocks to exchange.
pub struct MoveBlockArgs {
    pub queries: Vec<String>,
    pub text: Vec<u8>,
    pub language: SupportedLanguage,
    pub src_block: BlockLocation,
    pub dst_block: BlockLocation,
}

/// A decoded request: which operation to run, with its arguments.
pub enum MethodCall {
    GetSubtrees(GetSubtreesArgs),
    MoveBlock(MoveBlockArgs),
}

/// The successful payload of one method call: a forest for an extraction,
/// the new document for a relocation.
pub enum MethodResult {
    Subtrees(Vec<CodeBlock>),
    NewText(Vec<u8>),
}

/// The response envelope: a payload, or an error message.  (The success
/// variant cannot carry the conventional name of Rust's result variant
/// here, so it is `Okay`.)
pub enum JsonResult<T> {
    Okay(T),
    Error(String),
}

/// Parses `text`, compiles and runs every query in order, and builds the
/// containment forest of all captured spans, deduplicated and checked.
///
/// Extraction and relocation share this function, so an invalid query fails
/// both with the same message, independent of the operation.
pub fn extract_forest(
    lang: &tree_sitter::Language,
    queries: &Vec<String>,
    text: &Vec<u8>,
) -> (r: Result<Vec<CodeBlock>, BlockError>)
    ensures
        r matches Ok(f) ==> forest_wf(f@, text@.len()) && forest_positions_match(f@, text@)
            && forest_ranges_unique(f@),
        r matches Err(e) ==> {
            ||| e is Language
            ||| e is Parse
            ||| e is Overlap
            ||| (e matches BlockError::Query { row, col, message } && exists|qi: int|
                0 <= qi < queries@.len() && message@ == query_error_message(
                    (#[trigger] queries@[qi])@,
                    row as nat,
                    col as nat,
                ))
        },
{
    let mut parser = new_parser();
    if !parser_set_language(&mut parser, lang) {
        return Err(BlockError::Language);
    }
    let tree = match parse_text(&mut parser, text) {
        Some(t) => t,
        None => { return Err(BlockError::Parse) },
    };
    let mut spans: Vec<BlockLocation> = Vec::new();
    let mut qi: usize = 0;
    while qi < queries.len()
        decreases queries@.len() - qi,
    {
        match compile_query(lang, queries[qi].as_str()) {
            Ok(q) => {
                let mut caps = collect_capture_spans(&tree, &q, text);
                spans.append(&mut caps);
            },
            Err((row, col)) => {
                let row_c = if row < usize::MAX {
                    row
                } else {
                    usize::MAX - 1
                };
                let col_c = if col < usize::MAX {
                    col
                } else {
                    usize::MAX - 1
                };
                let message = render_query_error(queries[qi].as_str(), row_c, col_c);
                return Err(BlockError::Query { row: row_c, col: col_c, message });
            },
        }
        qi = qi + 1;
    }
    let cleaned = sanitize_spans(&spans, text.len());
    let positioned = with_positions(&cleaned, text);
    let sorted = sort_spans(&positioned);
    let unique = dedup_spans(&sorted);
    proof {
        assert forall|k: int| 0 <= k < unique@.len() implies (#[trigger] unique@[k]).wf()
            && unique@[k].in_bounds(text@.len()) && loc_positions_match(unique@[k], text@) by {
            assert(sorted@.contains(unique@[k]));
            assert(positioned@.contains(unique@[k]));
            let m = choose|m: int| 0 <= m < positioned@.len() && positioned@[m] == unique@[k];
        }
    }
    let f = match build_forest(&unique, text.len()) {
        Ok(f) => f,
        Err(e) => { return Err(e) },
    };
    proof {
        assert forall|m: int| 0 <= m < f@.len() implies block_positions_match(
            #[trigger] f@[m],
            text@,
        ) by {
            lemma_locs_in_positions(f@[m], unique@, text@);
        }
    }
    Ok(f)
}

/// Produces the containment forest of all blocks of `text` that match any of
/// the queries, for the grammar loaded in `lang`.
pub fn get_subtrees(lang: &tree_sitter::Language, args: &GetSubtreesArgs) -> (r: Result<
    Vec<CodeBlock>,
    BlockError,
>)
    ensures
        r matches Ok(f) ==> forest_wf(f@, args.text@.len()) && forest_positions_match(
            f@,
            args.text@,
        ) && forest_ranges_unique(f@),
        r matches Err(e) ==> {
            ||| e is Language
            ||| e is Parse
            ||| e is Overlap
            ||| (e matches BlockError::Query { row, col, message } && exists|qi: int|
                0 <= qi < args.queries@.len() && message@ == query_error_message(
                    (#[trigger] args.queries@[qi])@,
                    row as nat,
                    col as nat,
                ))
        },
{
    extract_forest(lang, &args.queries, &args.text)
}

/// What a successful relocation returns: the two requested spans are
/// disjoint, both lie inside the document, and the new text is the old one
/// with exactly the two spans' contents exchanged (so it has the same length
/// and the same bytes, rearranged).
pub open spec fn moved_text_ok(args: MoveBlockArgs, t: Seq<u8>) -> bool {
    let src = args.src_block;
    let dst = args.dst_block;
    &&& src.disjoint_from(dst)
    &&& src.start_byte <= src.end_byte <= args.text@.len()
    &&& dst.start_byte <= dst.end_byte <= args.text@.len()
    &&& (src.end_byte <= dst.start_byte ==> t == swapped(
        args.text@,
        src.start_byte as int,
        src.end_byte as int,
        dst.start_byte as int,
        dst.end_byte as int,
    ))
    &&& (!(src.end_byte <= dst.start_byte) && dst.end_byte <= src.start_byte ==> t == swapped(
        args.text@,
        dst.start_byte as int,
        dst.end_byte as int,
        src.start_byte as int,
        src.end_byte as int,
    ))
}

/// Exchanges the contents of the two blocks whose byte ranges equal
/// `src_block` and `dst_block` exactly, and returns the whole new document.
/// The source span is looked up before the destination span; everything
/// outside and strictly between the two spans is preserved verbatim.
pub fn move_block(lang: &tree_sitter::Language, args: &MoveBlockArgs) -> (r: Result<
    Vec<u8>,
    BlockError,
>)
    ensures
        r matches Ok(t) ==> moved_text_ok(*args, t@),
        r matches Err(e) ==> {
            ||| e is Language
            ||| e is Parse
            ||| e is Overlap
            ||| e is NotFoundSrc
            ||| e is NotFoundDst
            ||| (e matches BlockError::Query { row, col, message } && exists|qi: int|
                0 <= qi < args.queries@.len() && message@ == query_error_message(
                    (#[trigger] args.queries@[qi])@,
                    row as nat,
                    col as nat,
                ))
        },
{
    let forest = match extract_forest(lang, &args.queries, &args.text) {
        Ok(f) => f,
        Err(e) => { return Err(e) },
    };
    relocate(&forest, &args.text, &args.src_block, &args.dst_block)
}

/// Runs one decoded request against the grammar loaded in `lang`.  The
/// front end only decodes the call and encodes the result; what each method
/// returns is stated on `get_subtrees` and `move_block`.
pub fn run_method(lang: &tree_sitter::Language, call: &MethodCall) -> (r: Result<
    MethodResult,
    BlockError,
>)
    ensures
        call is GetSubtrees ==> (r matches Ok(p) ==> p matches MethodResult::Subtrees(f)
            && forest_wf(f@, call->GetSubtrees_0.text@.len()) && forest_positions_match(
            f@,
            call->GetSubtrees_0.text@,
        ) && forest_ranges_unique(f@)),
        call is MoveBlock ==> (r matches Ok(p) ==> p matches MethodResult::NewText(t)
            && moved_text_ok(call->MoveBlock_0, t@)),
{
    match call {
        MethodCall::GetSubtrees(args) => {
            match get_subtrees(lang, args) {
                Ok(f) => Ok(MethodResult::Subtrees(f)),
                Err(e) => Err(e),
            }
        },
        MethodCall::MoveBlock(args) => {
            match move_block(lang, args) {
                Ok(t) => Ok(MethodResult::NewText(t)),
                Err(e) => Err(e),
            }
        },
    }
}

} // verus!

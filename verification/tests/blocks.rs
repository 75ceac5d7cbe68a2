use code_blocks::{
    get_subtrees, move_block, run_method, BlockError, BlockLocation, GetSubtreesArgs, JsonResult,
    MethodCall, MethodResult, MoveBlockArgs, SupportedLanguage,
};

fn span(sb: usize, eb: usize, sr: usize, sc: usize, er: usize, ec: usize) -> BlockLocation {
    BlockLocation {
        start_byte: sb,
        end_byte: eb,
        start_row: sr,
        start_col: sc,
        end_row: er,
        end_col: ec,
    }
}

const TEXT: &str = "fn main() {}\nfn foo() {}";
const QUERY: &str = "(function_item) @ident";

fn extract_args() -> GetSubtreesArgs {
    GetSubtreesArgs {
        queries: vec![QUERY.to_string()],
        text: TEXT.as_bytes().to_vec(),
        language: SupportedLanguage::Rust,
    }
}

fn move_args(src: BlockLocation, dst: BlockLocation) -> MoveBlockArgs {
    MoveBlockArgs {
        queries: vec![QUERY.to_string()],
        text: TEXT.as_bytes().to_vec(),
        language: SupportedLanguage::Rust,
        src_block: src,
        dst_block: dst,
    }
}

#[test]
fn two_functions_make_two_top_level_blocks() {
    let lang = tree_sitter_rust::language();
    let forest = get_subtrees(&lang, &extract_args()).expect("extraction should succeed");
    assert_eq!(forest.len(), 2);
    assert_eq!(forest[0].block, span(0, 12, 0, 0, 0, 12));
    assert!(forest[0].children.is_empty());
    assert_eq!(forest[1].block, span(13, 24, 1, 0, 1, 11));
    assert!(forest[1].children.is_empty());
}

#[test]
fn nested_function_becomes_a_child_block() {
    let lang = tree_sitter_rust::language();
    let text = "fn outer() { fn inner() {} }";
    let args = GetSubtreesArgs {
        queries: vec![QUERY.to_string()],
        text: text.as_bytes().to_vec(),
        language: SupportedLanguage::Rust,
    };
    let forest = get_subtrees(&lang, &args).expect("extraction should succeed");
    assert_eq!(forest.len(), 1);
    assert_eq!(forest[0].block.start_byte, 0);
    assert_eq!(forest[0].block.end_byte, text.len());
    assert_eq!(forest[0].children.len(), 1);
    assert_eq!(forest[0].children[0].block.start_byte, 13);
    assert_eq!(forest[0].children[0].block.end_byte, 26);
}

#[test]
fn moving_the_two_functions_exchanges_them() {
    let lang = tree_sitter_rust::language();
    let args = move_args(span(0, 12, 0, 0, 0, 12), span(13, 24, 1, 0, 1, 11));
    let out = move_block(&lang, &args).expect("move should succeed");
    assert_eq!(String::from_utf8(out).unwrap(), "fn foo() {}\nfn main() {}");
}

#[test]
fn unmatched_src_span_is_reported_first() {
    let lang = tree_sitter_rust::language();
    let args = move_args(span(999, 999, 999, 999, 999, 999), span(13, 24, 1, 0, 1, 11));
    let err = move_block(&lang, &args).unwrap_err();
    assert_eq!(err, BlockError::NotFoundSrc);
    assert_eq!(err.message(), "Failed to find src item");
}

#[test]
fn unmatched_dst_span_is_reported_second() {
    let lang = tree_sitter_rust::language();
    let args = move_args(span(0, 12, 0, 0, 0, 12), span(999, 999, 999, 999, 999, 999));
    let err = move_block(&lang, &args).unwrap_err();
    assert_eq!(err, BlockError::NotFoundDst);
    assert_eq!(err.message(), "Failed to find dst item");
}

#[test]
fn unparsed_text_has_no_matching_src_block() {
    let lang = tree_sitter_rust::language();
    let args = MoveBlockArgs {
        queries: vec![QUERY.to_string()],
        text: "bad text".as_bytes().to_vec(),
        language: SupportedLanguage::Rust,
        src_block: span(0, 12, 0, 0, 0, 12),
        dst_block: span(13, 24, 1, 0, 1, 11),
    };
    let err = move_block(&lang, &args).unwrap_err();
    assert_eq!(err.message(), "Failed to find src item");
}

#[test]
fn invalid_query_fails_both_operations_with_the_same_message() {
    let lang = tree_sitter_rust::language();
    let expected = "Query error at 1:1. Invalid syntax:\nbad query\n^";

    let extract = GetSubtreesArgs {
        queries: vec!["bad query".to_string()],
        text: TEXT.as_bytes().to_vec(),
        language: SupportedLanguage::Rust,
    };
    let extract_err = get_subtrees(&lang, &extract).unwrap_err();
    assert_eq!(extract_err.message(), expected);

    let relocate = MoveBlockArgs {
        queries: vec!["bad query".to_string()],
        text: TEXT.as_bytes().to_vec(),
        language: SupportedLanguage::Rust,
        src_block: span(0, 12, 0, 0, 0, 12),
        dst_block: span(13, 24, 1, 0, 1, 11),
    };
    let relocate_err = move_block(&lang, &relocate).unwrap_err();
    assert_eq!(relocate_err.message(), extract_err.message());
}

#[test]
fn every_block_stays_inside_the_document() {
    let lang = tree_sitter_rust::language();
    let forest = get_subtrees(&lang, &extract_args()).expect("extraction should succeed");
    let mut stack: Vec<&code_blocks::CodeBlock> = forest.iter().collect();
    let mut previous_end = 0usize;
    for top in &forest {
        assert!(top.block.start_byte >= previous_end, "siblings must not overlap");
        previous_end = top.block.end_byte;
    }
    while let Some(b) = stack.pop() {
        assert!(b.block.start_byte <= b.block.end_byte);
        assert!(b.block.end_byte <= TEXT.len());
        let mut child_end = b.block.start_byte;
        for c in &b.children {
            assert!(c.block.start_byte >= child_end, "siblings must not overlap");
            child_end = c.block.end_byte;
            stack.push(c);
        }
    }
}

#[test]
fn request_and_response_shapes_carry_their_payloads() {
    let call = MethodCall::GetSubtrees(extract_args());
    match call {
        MethodCall::GetSubtrees(args) => {
            assert_eq!(args.queries, vec![QUERY.to_string()]);
            assert_eq!(args.text, TEXT.as_bytes().to_vec());
            assert_eq!(args.language, SupportedLanguage::Rust);
        }
        MethodCall::MoveBlock(_) => panic!("decoded the wrong method"),
    }
    let response: JsonResult<u32> = JsonResult::Error("Failed to find src item".to_string());
    match response {
        JsonResult::Okay(_) => panic!("expected the error envelope"),
        JsonResult::Error(m) => assert_eq!(m, "Failed to find src item"),
    }
}

#[test]
fn run_method_dispatches_to_the_requested_operation() {
    let lang = tree_sitter_rust::language();
    match run_method(&lang, &MethodCall::GetSubtrees(extract_args())).unwrap() {
        MethodResult::Subtrees(forest) => assert_eq!(forest.len(), 2),
        MethodResult::NewText(_) => panic!("extraction must answer with a forest"),
    }
    let call = MethodCall::MoveBlock(move_args(
        span(0, 12, 0, 0, 0, 12),
        span(13, 24, 1, 0, 1, 11),
    ));
    match run_method(&lang, &call).unwrap() {
        MethodResult::NewText(t) => {
            assert_eq!(String::from_utf8(t).unwrap(), "fn foo() {}\nfn main() {}")
        }
        MethodResult::Subtrees(_) => panic!("relocation must answer with the new text"),
    }
}

use code_blocks::{
    artifact_file_name, build_forest, forest_contains_span, install_plan, language_from_tag,
    language_tag, position_of, relocate, resolve, swap_ranges, BlockError, BlockLocation,
    InstallAction, Platform, SupportedLanguage,
};

fn byte_span(sb: usize, eb: usize) -> BlockLocation {
    BlockLocation {
        start_byte: sb,
        end_byte: eb,
        start_row: 0,
        start_col: sb,
        end_row: 0,
        end_col: eb,
    }
}

#[test]
fn swapping_equal_length_ranges_twice_restores_the_text() {
    let text: Vec<u8> = b"abcdefgh".to_vec();
    let once = swap_ranges(&text, 0, 2, 4, 6);
    assert_eq!(once, b"efcdabgh".to_vec());
    let twice = swap_ranges(&once, 0, 2, 4, 6);
    assert_eq!(twice, text);
}

#[test]
fn swapping_keeps_the_text_between_and_around_the_ranges() {
    let text: Vec<u8> = b"one two three".to_vec();
    let out = swap_ranges(&text, 0, 3, 8, 13);
    assert_eq!(out, b"three two one".to_vec());
}

#[test]
fn forest_nests_contained_spans_and_keeps_disjoint_spans_apart() {
    let spans = vec![byte_span(0, 10), byte_span(2, 5), byte_span(6, 9), byte_span(12, 20)];
    let forest = build_forest(&spans, 20).expect("nestable spans must build");
    assert_eq!(forest.len(), 2);
    assert_eq!(forest[0].block.start_byte, 0);
    assert_eq!(forest[0].children.len(), 2);
    assert_eq!(forest[0].children[0].block.start_byte, 2);
    assert_eq!(forest[0].children[1].block.start_byte, 6);
    assert_eq!(forest[1].block.start_byte, 12);
    assert!(forest[1].children.is_empty());
}

#[test]
fn partially_overlapping_spans_are_an_unsupported_input() {
    let spans = vec![byte_span(0, 5), byte_span(3, 8)];
    let err = build_forest(&spans, 10).unwrap_err();
    assert_eq!(err, BlockError::Overlap);
    assert_eq!(err.message(), "Overlapping blocks are not supported");
}

#[test]
fn lookup_matches_blocks_by_exact_byte_range_at_any_depth() {
    let spans = vec![byte_span(0, 10), byte_span(2, 5)];
    let forest = build_forest(&spans, 10).expect("nestable spans must build");
    assert!(forest_contains_span(&forest, 0, 10));
    assert!(forest_contains_span(&forest, 2, 5));
    assert!(!forest_contains_span(&forest, 2, 6));
    assert!(!forest_contains_span(&forest, 0, 9));
}

#[test]
fn relocating_overlapping_ranges_is_refused() {
    let spans = vec![byte_span(0, 5), byte_span(2, 5)];
    let forest = build_forest(&spans, 5).expect("nested spans must build");
    let text: Vec<u8> = b"abcde".to_vec();
    let err = relocate(&forest, &text, &byte_span(0, 5), &byte_span(2, 5)).unwrap_err();
    assert_eq!(err, BlockError::Overlap);
}

#[test]
fn relocating_disjoint_blocks_swaps_their_contents() {
    let spans = vec![byte_span(0, 2), byte_span(3, 5)];
    let forest = build_forest(&spans, 5).expect("disjoint spans must build");
    let text: Vec<u8> = b"ab cd".to_vec();
    let out = relocate(&forest, &text, &byte_span(3, 5), &byte_span(0, 2)).unwrap();
    assert_eq!(out, b"cd ab".to_vec());
}

#[test]
fn registry_knows_every_language() {
    assert_eq!(resolve(SupportedLanguage::Rust).grammar_name, "rust");
    assert_eq!(resolve(SupportedLanguage::TypeScript).grammar_name, "typescript");
    assert_eq!(resolve(SupportedLanguage::TypeScript).source_subdir, "typescript");
    assert_eq!(resolve(SupportedLanguage::Tsx).grammar_name, "tsx");
    assert_eq!(resolve(SupportedLanguage::Svelte).grammar_name, "svelte");
}

#[test]
fn export_symbol_is_derived_from_the_grammar_name() {
    assert_eq!(code_blocks::export_symbol("rust"), "tree_sitter_rust");
    assert_eq!(code_blocks::export_symbol("tsx"), "tree_sitter_tsx");
    assert_eq!(code_blocks::export_symbol("foo-bar"), "tree_sitter_foo_bar");
}

#[test]
fn install_compiles_only_when_no_artifact_is_present() {
    assert_eq!(install_plan(false), InstallAction::CompileThenLoad);
    assert_eq!(install_plan(true), InstallAction::LoadOnly);
    assert_eq!(install_plan(true), install_plan(true));
}

#[test]
fn language_tags_round_trip_and_unknown_tags_enumerate_the_choices() {
    for lang in [
        SupportedLanguage::Rust,
        SupportedLanguage::TypeScript,
        SupportedLanguage::Tsx,
        SupportedLanguage::Svelte,
    ] {
        assert_eq!(language_from_tag(language_tag(lang)), Ok(lang));
    }
    let err = language_from_tag("bad language").unwrap_err();
    assert_eq!(
        err,
        "unknown variant `bad language`, expected one of `rust`, `typescript`, `tsx`, `svelte`"
    );
}

#[test]
fn query_error_rendering_names_the_line_and_column() {
    let rendered = code_blocks::render_query_error("bad query", 0, 0);
    assert_eq!(rendered, "Query error at 1:1. Invalid syntax:\nbad query\n^");
    let rendered = code_blocks::render_query_error("line one\nsecond line", 1, 11);
    assert_eq!(
        rendered,
        "Query error at 2:12. Invalid syntax:\nsecond line\n           ^"
    );
}

#[test]
fn artifact_names_follow_the_platform_conventions() {
    assert_eq!(artifact_file_name("rust", Platform::Linux), "librust.so");
    assert_eq!(artifact_file_name("rust", Platform::MacOs), "librust.dylib");
    assert_eq!(artifact_file_name("rust", Platform::Windows), "rust.dll");
}

#[test]
fn positions_count_rows_and_bytes_within_the_line() {
    let text = "fn main() {}\nfn foo() {}".as_bytes().to_vec();
    assert_eq!(position_of(&text, 0), (0, 0));
    assert_eq!(position_of(&text, 12), (0, 12));
    assert_eq!(position_of(&text, 13), (1, 0));
    assert_eq!(position_of(&text, 24), (1, 11));
}

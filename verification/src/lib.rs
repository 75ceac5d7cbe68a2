mod engine;
mod errors;
mod forest;
mod messages;
mod order;
mod position;
mod provision;
mod relocate;
mod span;
mod splice;

pub use engine::GetSubtreesArgs;
pub use engine::JsonResult;
pub use engine::MethodCall;
pub use engine::MethodResult;
pub use engine::run_method;
pub use engine::MoveBlockArgs;
pub use engine::extract_forest;
pub use engine::get_subtrees;
pub use engine::move_block;
pub use engine::moved_text_ok;
pub use errors::BlockError;
pub use forest::CodeBlock;
pub use forest::block_has_range;
pub use forest::block_locs_in;
pub use forest::block_ranges_unique;
pub use forest::block_wf;
pub use forest::forest_ranges_unique;
pub use forest::build_forest;
pub use forest::forest_contains_span;
pub use forest::forest_has_range;
pub use forest::forest_wf;
pub use forest::lemma_block_range_in_root;
pub use forest::lemma_block_ranges_nest;
pub use forest::lemma_forest_range_in_bounds;
pub use forest::lemma_forest_ranges_nest;
pub use forest::lemma_siblings_disjoint;
pub use messages::query_error_message;
pub use position::block_positions_match;
pub use position::col_of;
pub use position::forest_positions_match;
pub use position::lemma_locs_in_positions;
pub use position::lemma_position_order;
pub use position::loc_positions_match;
pub use position::position_of;
pub use position::row_of;
pub use position::with_positions;
pub use messages::render_query_error;
pub use provision::GrammarDescriptor;
pub use provision::Platform;
pub use provision::artifact_file_name;
pub use provision::artifact_file_name_of;
pub use provision::InstallAction;
pub use provision::SupportedLanguage;
pub use provision::export_symbol;
pub use provision::language_from_tag;
pub use provision::language_tag;
pub use provision::install_plan;
pub use provision::install_plan_spec;
pub use provision::lemma_install_idempotent;
pub use provision::resolve;
pub use provision::unknown_language_message;
pub use relocate::relocate;
pub use span::BlockLocation;
pub use splice::lemma_swap_twice;
pub use splice::swap_ranges;
pub use splice::swapped;

mod ast;
mod coalesce;
mod constrain;
mod error;
mod infer;
pub mod lumo_ast;
mod lumo_type;
mod render;
mod scan;
mod scope;
mod span;
mod syntax;
mod token;
mod tokenizer;
mod ty;

pub use ast::{
    BlockNode, CompoundExprBodyNode, DeclEnumNode, DeclFunctionNode, DestructuringBodyNode,
    DestructuringTagNode, EnumBranchNode, EnumTagNode, EnumVariantNode, ExpressionNode,
    FieldsNode, FunctionCallArgumentNode, FunctionCallNode, FunctionParameterNode,
    FunctionParameterPatternNode, IdentifierNode, InfixOperatorKind, InfixOperatorNode, ItemNode,
    MatchArmNode, MatchNode, NameNode, PathNode, PatternNode, PostfixOperatorKind,
    PostfixOperatorNode, PrefixOperatorKind, PrefixOperatorNode, SimplePatternNode, TypeNode,
    WithId,
};
pub use coalesce::{
    binder_keys, bounds_model, coalesce_type, coalesce_type_at, find_binder, joined_shape,
    lemma_polarity_duality, lemma_unit_identity, lemma_unvisited_stack_push, list_model,
    next_counter, option_view, rep_list_view, rep_shape, rep_view, state_key, top_shape,
    unvisited, var_key, visit_model, wip_keys, RepModel, VarKey,
};
pub use constrain::{
    constrain, constrain_each, constrain_model, constrain_step, grows, holes, is_suffix,
    lemma_prepends_only_refl, lemma_prepends_only_trans, lemma_suffix_trans, prepends_only,
    lemma_arity_mismatch_fails, lemma_constrain_depth_bound, lemma_grows_refl, lemma_grows_trans,
    row_unvisited, summary, unification_message, unvisited_pairs,
};
pub use error::InferError;
pub use infer::{
    appends_fresh, args_model, binds_more, block_model, call_model, extends, exprs_model,
    field_access_message, index_message, infer_error, infer_expr, infer_item, infer_model,
    infer_pat, infix_message, item_declared, item_model, lemma_extends_push, lemma_extends_refl,
    lemma_extends_trans, lemma_grows_extends, mut_bind_message, mut_name_message,
    named_destructuring_message, no_name_message, params_model, pat_model, pats_model,
    prefix_message, result_view,
};
pub use lumo_ast::{arm_names_distinct, LumoExpr, LumoItem, LumoMatchArm, LumoMatchExpr, LumoProgram};
pub use lumo_type::{
    fn_wf, names_distinct, product_wf, same_fn, same_product, same_type, substituted, type_wf, substituted_fn, substituted_product,
    LumoFnType, LumoProductType, LumoType,
};
pub use render::{decimal, digit_char, push_decimal, render_list, render_text};
pub use scan::{
    after_constructors, branch_model, constructors_model, declare_model, first_collision,
    first_core, function_type_model, functions_model, initial_scan_state, lower_all, recs_view,
    scan_model, tags_model, ScanState,
    branch_supported, conflicting, core_count, cores_unique, duplicate_message, fields_supported,
    has_conflict, int_name, is_core, item_at, multiple_core_message, named_fields_message,
    no_core_message, resolvable_field, scan, scan_error, scanned, variant_path,
};
pub use scope::{bindings_map, Scope};
pub use span::{Offset, Span, Spanned};
pub use syntax::{joined_path, lowered, path_message, transform_syntax_type, tuple_message};
pub use token::{Token, TokenKind};
pub use tokenizer::{
    failure_position, horizontal_end, horizontal_space, lemma_next_token_advances,
    lemma_run_ends, lemma_utf8_at_least_len, lemma_utf8_concat, line_col, next_token,
    position_after, prepend, punctuation, tokenize, tokens_model, utf8_len, utf8_length,
    vertical_space, word_end, word_kind, xid_continue, xid_start, TokenizeError,
};
pub use ty::{
    children, fresh_variable, refs_below, types_wf, unit_name, RepresentationalType, SimpleType,
    SimpleTypeRef, TypeModel, VariableState,
};

//! Conversions between concrete syntax token streams and token trees, with
//! the span bookkeeping that ties every produced token back to its source.
//!
//! Forward, `to_tt` turns the tokens of a syntax node (or of lexed text) into a
//! token tree; backward, `tree_sink` rebuilds a syntax tree from a token tree
//! and the parser's steps over it; `fragments` splits a separated repetition
//! into expressions. `round_trip` states what the two directions preserve.

pub mod buffer;
pub mod convert;
pub mod doc_comment;
pub mod fragments;
pub mod round_trip;
pub mod span_map;
pub mod syntax_kind;
pub mod targets;
pub mod to_tt;
pub mod tree_sink;
pub mod tt;
pub mod type_id_hasher;

pub use fragments::parse_exprs_with_sep;
pub use targets::target;
pub use to_tt::{
    map_from_syntax_node, parse_to_token_tree, syntax_node_to_token_tree,
    syntax_node_to_token_tree_censored,
};
pub use tree_sink::token_tree_to_syntax_node;
pub use type_id_hasher::TypeIdHasher;

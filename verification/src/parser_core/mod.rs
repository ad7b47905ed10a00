//! Syntax shared by all diagram kinds: the parse tree, arrows and note handling.
pub mod common_ast;
pub mod common_parser;
pub mod note_utils;
pub mod parse_tree;

//! Class diagrams: the element tree and the interpretation of matched tokens.
pub mod class_ast;
pub mod class_parser;

//! Component diagrams: the element tree and its parser.
pub mod component_ast;
pub mod component_parser;

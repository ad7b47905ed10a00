//! Sequence diagrams: the statement tree and the interpretation of matched tokens.
pub mod sequence_ast;
pub mod sequence_parser;
pub mod syntax_parser;

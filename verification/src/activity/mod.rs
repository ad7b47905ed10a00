//! Activity diagrams: the statement tree and the plain-text rendering of creole labels.
pub mod creole;
pub mod activity_ast;
pub mod activity_parser;

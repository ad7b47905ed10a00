//! Decisions taken while visiting a libclang AST.
pub mod class_parser_helper;
pub mod callable_declaration;
pub mod context;
pub mod class_relationship_resolver;
pub mod class_visitor;
pub mod function_visitor;

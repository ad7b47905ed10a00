//! Preprocessing of PlantUML sources: `!include` expansion and procedure macros.
pub mod include_ast;
pub mod include_parser;
pub mod procedure_parser;
pub mod utils;
pub mod procedure_ast;
pub mod procedure_expander;
pub mod include_expander;
pub mod preprocessor;

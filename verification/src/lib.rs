//! Verified core of the PlantUML and C++ diagram tooling.
use vstd::prelude::*;

pub mod coverage;
pub mod text;
pub mod cpp;
pub mod visitor;
pub mod preprocessor;
pub mod activity;
pub mod parser_core;
pub mod fta;
pub mod idmap;
pub mod diagram_model;
pub mod linker;
pub mod linker_input;
pub mod cli;
pub mod lobster;
pub mod golden;
pub mod class_diagram;
pub mod component_diagram;
pub mod source_location;
pub mod sequence;

verus! {
}

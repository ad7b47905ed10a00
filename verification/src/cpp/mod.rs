//! The C++ semantic model extracted from libclang, and the logic on it.
pub mod callable;
pub mod resolved_type;
pub mod control_flow;

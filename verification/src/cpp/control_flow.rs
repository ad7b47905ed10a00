//! The control flow inside a function body: calls, branches and loops, and
//! the guards that select a branch.
use vstd::prelude::*;
use crate::cpp::callable::LoopKind;
use crate::source_location::SourceLocation;

verus! {

/// A single item inside a function, branch, or loop body, in execution order.
#[derive(Debug)]
pub enum BodyItem {
    /// A call of a resolved callee, by its qualified name without a leading `::`.
    Call { target: String, source_location: SourceLocation },
    Branch { cases: Vec<BranchCase> },
    Loop { kind: LoopKind, body: Vec<BodyItem>, source_location: SourceLocation },
}

/// One arm of a conditional branch.
#[derive(Debug)]
pub struct BranchCase {
    /// `None` stands for a final `else` arm.
    pub guard: Option<GuardExpression>,
    pub body: Vec<BodyItem>,
    pub source_location: SourceLocation,
}

/// The condition that controls whether a branch case's body executes.
///
/// Logical nodes keep the short-circuit structure of C++; other expressions
/// are kept as source text.
#[derive(Debug)]
pub enum GuardExpression {
    Opaque { text: String, source_location: SourceLocation },
    /// A call of a resolved callee, by its qualified name without a leading `::`.
    Call { target: String, text: String, source_location: SourceLocation },
    Not { expression: Box<GuardExpression> },
    And { expressions: Vec<GuardExpression> },
    Or { expressions: Vec<GuardExpression> },
}

} // verus!

//! Syntax tree of the procedure (macro) layer of a PlantUML file.
use vstd::prelude::*;

verus! {

/// A parsed file: procedure definitions, macro calls and text, in order.
#[derive(Debug, Clone, PartialEq)]
pub struct ProcedureFile {
    pub stmts: Vec<Statement>,
}

/// One top-level statement.
#[derive(Debug, Clone, PartialEq)]
pub enum Statement {
    Procedure(ProcedureDef),
    MacroCall(MacroCallDef),
    Text(String),
}

/// A call `name(args...)`, with the 1-based line it stands on when known.
#[derive(Debug, Clone, PartialEq)]
pub struct MacroCallDef {
    pub name: String,
    pub args: Vec<Arg>,
    pub line: Option<usize>,
}

/// A `!procedure name(params) ... !endprocedure` definition.
#[derive(Debug, Clone, PartialEq)]
pub struct ProcedureDef {
    pub name: String,
    pub params: Vec<String>,
    pub body: Vec<BodyNode>,
}

/// A line of a procedure body: a nested call or text with variables.
#[derive(Debug, Clone, PartialEq)]
pub enum BodyNode {
    MacroCall(MacroCallDef),
    Text(Vec<TextPart>),
}

/// A call argument.
#[derive(Debug, Clone, PartialEq)]
pub enum Arg {
    /// macro: $alias
    Variable(String),
    /// string: "G1"
    String(String),
    /// number: 123, -42
    Number(i64),
    /// identifier: foo
    Identifier(String),
}

/// A piece of a body text line.
#[derive(Debug, Clone, PartialEq)]
pub enum TextPart {
    /// literal: plain text
    Literal(String),
    /// variable: $alias
    Variable(String),
}

/// The content of a text piece.
pub enum PartView {
    Literal(Seq<char>),
    Variable(Seq<char>),
}

/// The content of a text piece.
pub open spec fn part_view(p: TextPart) -> PartView {
    match p {
        TextPart::Literal(t) => PartView::Literal(t@),
        TextPart::Variable(t) => PartView::Variable(t@),
    }
}

/// The contents of text pieces.
pub open spec fn part_views(v: Seq<TextPart>) -> Seq<PartView> {
    v.map_values(|p: TextPart| part_view(p))
}

/// The content of a call argument.
pub enum ArgView {
    Variable(Seq<char>),
    Str(Seq<char>),
    Number(i64),
    Identifier(Seq<char>),
}

/// The content of a call argument.
pub open spec fn arg_view(a: Arg) -> ArgView {
    match a {
        Arg::Variable(t) => ArgView::Variable(t@),
        Arg::String(t) => ArgView::Str(t@),
        Arg::Number(n) => ArgView::Number(n),
        Arg::Identifier(t) => ArgView::Identifier(t@),
    }
}

/// The contents of call arguments.
pub open spec fn arg_views(v: Seq<Arg>) -> Seq<ArgView> {
    v.map_values(|a: Arg| arg_view(a))
}

/// The content of a call.
pub struct CallView {
    pub name: Seq<char>,
    pub args: Seq<ArgView>,
    pub line: Option<usize>,
}

/// The content of a call.
pub open spec fn call_view(c: MacroCallDef) -> CallView {
    CallView { name: c.name@, args: arg_views(c.args@), line: c.line }
}

/// The content of a body line.
pub enum BodyView {
    Call(CallView),
    Text(Seq<PartView>),
}

/// The content of a body line.
pub open spec fn body_view(b: BodyNode) -> BodyView {
    match b {
        BodyNode::MacroCall(c) => BodyView::Call(call_view(c)),
        BodyNode::Text(parts) => BodyView::Text(part_views(parts@)),
    }
}

/// The content of a procedure definition.
pub struct ProcView {
    pub name: Seq<char>,
    pub params: Seq<Seq<char>>,
    pub body: Seq<BodyView>,
}

/// The content of a procedure definition.
pub open spec fn proc_view(p: ProcedureDef) -> ProcView {
    ProcView {
        name: p.name@,
        params: p.params@.map_values(|s: String| s@),
        body: p.body@.map_values(|b: BodyNode| body_view(b)),
    }
}

/// The content of a top-level statement.
pub enum StmtView {
    Procedure(ProcView),
    Call(CallView),
    Text(Seq<char>),
}

/// The content of a top-level statement.
pub open spec fn stmt_view(s: Statement) -> StmtView {
    match s {
        Statement::Procedure(p) => StmtView::Procedure(proc_view(p)),
        Statement::MacroCall(c) => StmtView::Call(call_view(c)),
        Statement::Text(t) => StmtView::Text(t@),
    }
}

} // verus!

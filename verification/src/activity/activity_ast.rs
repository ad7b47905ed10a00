//! The statements of an activity diagram, in source order.
use vstd::prelude::*;

verus! {

/// A parsed activity diagram: its `@startuml` name and its statements.
#[derive(Debug, Clone, PartialEq)]
pub struct RawActivityDiagram {
    pub name: Option<String>,
    pub statements: Vec<RawActivityStmt>,
}

/// Where a statement stands in the source (1-based lines and columns).
#[derive(Debug, Clone, Copy, PartialEq, Eq, Structural)]
pub struct RawActivitySourceSpan {
    pub start_line: usize,
    pub start_column: usize,
    pub end_line: usize,
    pub end_column: usize,
}

/// One statement of an activity diagram.
#[derive(Debug, Clone, PartialEq)]
pub enum RawActivityStmt {
    Title(TitleStmt),
    Action(ActionStmt),
    Arrow(ArrowStmt),
    Backward(BackwardStmt),
    Start(StartStmt),
    Stop(StopStmt),
    Control(ControlStmt),
    IfStart(IfStartStmt),
    Else(ElseStmt),
    EndIf(EndIfStmt),
    WhileStart(WhileStartStmt),
    EndWhile(EndWhileStmt),
    RepeatStart(RepeatStartStmt),
    RepeatWhile(RepeatWhileStmt),
    ForkStart(ForkStartStmt),
    ForkAgain(ForkAgainStmt),
    ForkEnd(ForkEndStmt),
    Swimlane(SwimlaneStmt),
}

/// The source span of a statement.
pub open spec fn stmt_source(s: RawActivityStmt) -> RawActivitySourceSpan {
    match s {
        RawActivityStmt::Title(x) => x.source,
        RawActivityStmt::Action(x) => x.source,
        RawActivityStmt::Arrow(x) => x.source,
        RawActivityStmt::Backward(x) => x.source,
        RawActivityStmt::Start(x) => x.source,
        RawActivityStmt::Stop(x) => x.source,
        RawActivityStmt::Control(x) => x.source,
        RawActivityStmt::IfStart(x) => x.source,
        RawActivityStmt::Else(x) => x.source,
        RawActivityStmt::EndIf(x) => x.source,
        RawActivityStmt::WhileStart(x) => x.source,
        RawActivityStmt::EndWhile(x) => x.source,
        RawActivityStmt::RepeatStart(x) => x.source,
        RawActivityStmt::RepeatWhile(x) => x.source,
        RawActivityStmt::ForkStart(x) => x.source,
        RawActivityStmt::ForkAgain(x) => x.source,
        RawActivityStmt::ForkEnd(x) => x.source,
        RawActivityStmt::Swimlane(x) => x.source,
    }
}

impl RawActivityStmt {
    /// The line and column where the statement starts.
    pub fn start_location(&self) -> (r: (usize, usize))
        ensures
            r == (stmt_source(*self).start_line, stmt_source(*self).start_column),
    {
        let source = match self {
            Self::Title(stmt) => stmt.source,
            Self::Action(stmt) => stmt.source,
            Self::Arrow(stmt) => stmt.source,
            Self::Backward(stmt) => stmt.source,
            Self::Start(stmt) => stmt.source,
            Self::Stop(stmt) => stmt.source,
            Self::Control(stmt) => stmt.source,
            Self::IfStart(stmt) => stmt.source,
            Self::Else(stmt) => stmt.source,
            Self::EndIf(stmt) => stmt.source,
            Self::WhileStart(stmt) => stmt.source,
            Self::EndWhile(stmt) => stmt.source,
            Self::RepeatStart(stmt) => stmt.source,
            Self::RepeatWhile(stmt) => stmt.source,
            Self::ForkStart(stmt) => stmt.source,
            Self::ForkAgain(stmt) => stmt.source,
            Self::ForkEnd(stmt) => stmt.source,
            Self::Swimlane(stmt) => stmt.source,
        };
        (source.start_line, source.start_column)
    }
}

/// A `title` statement.
#[derive(Debug, Clone, PartialEq)]
pub struct TitleStmt {
    pub text: String,
    pub source: RawActivitySourceSpan,
}

/// An `:action;` statement.
#[derive(Debug, Clone, PartialEq)]
pub struct ActionStmt {
    pub label: String,
    pub source: RawActivitySourceSpan,
}

/// An explicit arrow between actions.
#[derive(Debug, Clone, PartialEq)]
pub struct ArrowStmt {
    pub syntax: String,
    pub label: Option<String>,
    pub source: RawActivitySourceSpan,
}

/// A `backward` action of a repeat loop.
#[derive(Debug, Clone, PartialEq)]
pub struct BackwardStmt {
    pub label: String,
    pub source: RawActivitySourceSpan,
}

/// `start`.
#[derive(Debug, Clone, PartialEq)]
pub struct StartStmt {
    pub source: RawActivitySourceSpan,
}

/// `stop` or `end`.
#[derive(Debug, Clone, PartialEq)]
pub struct StopStmt {
    pub source: RawActivitySourceSpan,
}

/// `break`, `kill` or `detach`.
#[derive(Debug, Clone, PartialEq)]
pub struct ControlStmt {
    pub kind: ControlKind,
    pub source: RawActivitySourceSpan,
}

/// `if (condition) then (label)`.
#[derive(Debug, Clone, PartialEq)]
pub struct IfStartStmt {
    pub condition: String,
    pub label: Option<String>,
    pub source: RawActivitySourceSpan,
}

/// `else (label)`.
#[derive(Debug, Clone, PartialEq)]
pub struct ElseStmt {
    pub label: Option<String>,
    pub source: RawActivitySourceSpan,
}

/// `endif`.
#[derive(Debug, Clone, PartialEq)]
pub struct EndIfStmt {
    pub source: RawActivitySourceSpan,
}

/// `while (condition) is (label)`.
#[derive(Debug, Clone, PartialEq)]
pub struct WhileStartStmt {
    pub condition: String,
    pub label: Option<String>,
    pub source: RawActivitySourceSpan,
}

/// `endwhile (label)`.
#[derive(Debug, Clone, PartialEq)]
pub struct EndWhileStmt {
    pub label: Option<String>,
    pub source: RawActivitySourceSpan,
}

/// `repeat`.
#[derive(Debug, Clone, PartialEq)]
pub struct RepeatStartStmt {
    pub source: RawActivitySourceSpan,
}

/// `repeat while (condition) is (label)`.
#[derive(Debug, Clone, PartialEq)]
pub struct RepeatWhileStmt {
    pub condition: String,
    pub label: Option<String>,
    pub source: RawActivitySourceSpan,
}

/// `fork`.
#[derive(Debug, Clone, PartialEq)]
pub struct ForkStartStmt {
    pub source: RawActivitySourceSpan,
}

/// `fork again`.
#[derive(Debug, Clone, PartialEq)]
pub struct ForkAgainStmt {
    pub source: RawActivitySourceSpan,
}

/// `end fork` or `end merge`, with an optional `{and}`/`{or}`.
#[derive(Debug, Clone, PartialEq)]
pub struct ForkEndStmt {
    pub kind: ForkEndKind,
    pub modifier: Option<ForkModifier>,
    pub source: RawActivitySourceSpan,
}

/// `|lane|`.
#[derive(Debug, Clone, PartialEq)]
pub struct SwimlaneStmt {
    pub name: String,
    pub source: RawActivitySourceSpan,
}

/// The kind of a control statement.
#[derive(Debug, Clone, Copy, PartialEq, Eq, Structural)]
pub enum ControlKind {
    Break,
    Kill,
    Detach,
}

/// How a fork is closed.
#[derive(Debug, Clone, Copy, PartialEq, Eq, Structural)]
pub enum ForkEndKind {
    EndFork,
    EndMerge,
}

/// The join condition of a fork end.
#[derive(Debug, Clone, Copy, PartialEq, Eq, Structural)]
pub enum ForkModifier {
    And,
    Or,
}

/// The content of an optional text.
pub open spec fn opt_text_view(o: Option<String>) -> Option<Seq<char>> {
    match o {
        Some(s) => Some(s@),
        None => None,
    }
}

/// The content of a statement.
pub enum ActStmtView {
    Title(Seq<char>, RawActivitySourceSpan),
    Action(Seq<char>, RawActivitySourceSpan),
    Arrow(Seq<char>, Option<Seq<char>>, RawActivitySourceSpan),
    Backward(Seq<char>, RawActivitySourceSpan),
    Start(RawActivitySourceSpan),
    Stop(RawActivitySourceSpan),
    Control(ControlKind, RawActivitySourceSpan),
    IfStart(Seq<char>, Option<Seq<char>>, RawActivitySourceSpan),
    Else(Option<Seq<char>>, RawActivitySourceSpan),
    EndIf(RawActivitySourceSpan),
    WhileStart(Seq<char>, Option<Seq<char>>, RawActivitySourceSpan),
    EndWhile(Option<Seq<char>>, RawActivitySourceSpan),
    RepeatStart(RawActivitySourceSpan),
    RepeatWhile(Seq<char>, Option<Seq<char>>, RawActivitySourceSpan),
    ForkStart(RawActivitySourceSpan),
    ForkAgain(RawActivitySourceSpan),
    ForkEnd(ForkEndKind, Option<ForkModifier>, RawActivitySourceSpan),
    Swimlane(Seq<char>, RawActivitySourceSpan),
}

/// The content of a statement.
pub open spec fn stmt_view(s: RawActivityStmt) -> ActStmtView {
    match s {
        RawActivityStmt::Title(x) => ActStmtView::Title(x.text@, x.source),
        RawActivityStmt::Action(x) => ActStmtView::Action(x.label@, x.source),
        RawActivityStmt::Arrow(x) => ActStmtView::Arrow(x.syntax@, opt_text_view(x.label), x.source),
        RawActivityStmt::Backward(x) => ActStmtView::Backward(x.label@, x.source),
        RawActivityStmt::Start(x) => ActStmtView::Start(x.source),
        RawActivityStmt::Stop(x) => ActStmtView::Stop(x.source),
        RawActivityStmt::Control(x) => ActStmtView::Control(x.kind, x.source),
        RawActivityStmt::IfStart(x) => ActStmtView::IfStart(x.condition@, opt_text_view(x.label), x.source),
        RawActivityStmt::Else(x) => ActStmtView::Else(opt_text_view(x.label), x.source),
        RawActivityStmt::EndIf(x) => ActStmtView::EndIf(x.source),
        RawActivityStmt::WhileStart(x) => ActStmtView::WhileStart(x.condition@, opt_text_view(x.label), x.source),
        RawActivityStmt::EndWhile(x) => ActStmtView::EndWhile(opt_text_view(x.label), x.source),
        RawActivityStmt::RepeatStart(x) => ActStmtView::RepeatStart(x.source),
        RawActivityStmt::RepeatWhile(x) => ActStmtView::RepeatWhile(
            x.condition@,
            opt_text_view(x.label),
            x.source,
        ),
        RawActivityStmt::ForkStart(x) => ActStmtView::ForkStart(x.source),
        RawActivityStmt::ForkAgain(x) => ActStmtView::ForkAgain(x.source),
        RawActivityStmt::ForkEnd(x) => ActStmtView::ForkEnd(x.kind, x.modifier, x.source),
        RawActivityStmt::Swimlane(x) => ActStmtView::Swimlane(x.name@, x.source),
    }
}

/// The contents of statements.
pub open spec fn stmt_views(v: Seq<RawActivityStmt>) -> Seq<ActStmtView> {
    v.map_values(|s: RawActivityStmt| stmt_view(s))
}

} // verus!

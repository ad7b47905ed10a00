//! The statements of a sequence diagram.
use vstd::prelude::*;
use crate::parser_core::common_ast::{Arrow, ArrowView, arrow_view};
use crate::source_location::SourceLocation;

verus! {

/// A parsed sequence diagram.
#[derive(Debug, PartialEq)]
pub struct SeqPumlDocument {
    pub name: Option<String>,
    pub statements: Vec<Statement>,
}

/// One statement of a sequence diagram.
#[derive(Debug, PartialEq)]
pub enum Statement {
    CreateCmd(CreateCmd),
    DestroyCmd(DestroyCmd),
    ActivateCmd(ActivateCmd),
    DeactivateCmd(DeactivateCmd),
    ParticipantDef(ParticipantDef),
    Message(Message),
    GroupCmd(GroupCmd),
    RefCmd(RefCmd),
    ReturnCmd(ReturnCmd),
}

/// A participant declaration.
#[derive(Debug, Clone, PartialEq)]
pub struct ParticipantDef {
    pub participant_type: ParticipantType,
    pub identifier: ParticipantIdentifier,
    pub stereotype: Option<String>,
    pub source_location: SourceLocation,
}

/// A `create` command.
#[derive(Debug, Clone, PartialEq)]
pub struct CreateCmd {
    pub participant_type: ParticipantType,
    pub identifier: ParticipantIdentifier,
    pub stereotype: Option<String>,
    pub source_location: SourceLocation,
}

/// The shape a participant is drawn as.
#[derive(Debug, Clone, Copy, PartialEq, Eq, Structural)]
pub enum ParticipantType {
    Participant,
    Actor,
    Boundary,
    Control,
    Entity,
    Queue,
    Database,
    Collections,
}

/// A participant's display name and alias.
#[derive(Debug, Clone, PartialEq)]
pub struct ParticipantIdentifier {
    pub display_name: String,
    pub alias: Option<String>,
}

/// A reference to a participant.
#[derive(Debug, Clone, PartialEq)]
pub struct ParticipantRef {
    pub identifier: String,
}

/// A `destroy` command.
#[derive(Debug, Clone, PartialEq)]
pub struct DestroyCmd {
    pub participant: ParticipantRef,
}

/// An `activate` command.
#[derive(Debug, Clone, PartialEq)]
pub struct ActivateCmd {
    pub participant: ParticipantRef,
}

/// A `deactivate` command.
#[derive(Debug, Clone, PartialEq)]
pub struct DeactivateCmd {
    pub participant: ParticipantRef,
}

/// A message between two endpoints.
#[derive(Debug, PartialEq)]
pub struct Message {
    pub left: MessageEndpoint,
    pub arrow: Arrow,
    pub right: MessageEndpoint,
    pub suffix: Option<MessageSuffix>,
    pub description: Option<String>,
    pub source_location: SourceLocation,
}

/// A message endpoint: a participant or a lost/found marker.
#[derive(Debug, Clone, PartialEq)]
pub enum MessageEndpoint {
    Participant(ParticipantIdentifier),
    LostFound(String),
}

/// Lifeline shorthand after a message: `++`, `--`, `**`, `!!`, or several
/// of them together.
#[derive(Debug, PartialEq)]
pub enum MessageSuffix {
    Activate,
    Deactivate,
    Create,
    Destroy,
    Combined(Vec<MessageSuffix>),
}

/// `++` or `--`.
#[derive(Debug, Clone, Copy, PartialEq, Eq, Structural)]
pub enum ActivationType {
    Activate,
    Deactivate,
}

/// A grouping command: the start of a group, an `else` branch, or `end`.
#[derive(Debug, Clone, PartialEq)]
pub enum GroupCmd {
    Start(GroupStart),
    Else(GroupElse),
    End(GroupEnd),
}

/// The start of a group (`alt`, `loop`, ...), possibly parallel.
#[derive(Debug, Clone, PartialEq)]
pub struct GroupStart {
    pub kind: GroupKind,
    pub label: Option<String>,
    pub is_parallel: bool,
    pub source_location: SourceLocation,
}

/// An `else` branch of a group.
#[derive(Debug, Clone, PartialEq)]
pub struct GroupElse {
    pub label: Option<String>,
    pub source_location: SourceLocation,
}

/// The end of a group, naming its kind when given.
#[derive(Debug, Clone, PartialEq)]
pub struct GroupEnd {
    pub kind: Option<GroupKind>,
    pub source_location: SourceLocation,
}

/// The kind of a group.
#[derive(Debug, Clone, Copy, PartialEq, Eq, Structural)]
pub enum GroupKind {
    Alt,
    Opt,
    Loop,
    Par,
    Break,
    Critical,
    Group,
}

/// A `ref over` block: the participants it spans and its text.
#[derive(Debug, Clone, PartialEq)]
pub struct RefCmd {
    pub participants: Vec<ParticipantRef>,
    pub text: Option<String>,
    pub source_location: SourceLocation,
}

/// A `return` with its optional label.
#[derive(Debug, Clone, PartialEq)]
pub struct ReturnCmd {
    pub label: Option<String>,
    pub source_location: SourceLocation,
}

/// The kind of a grouping command.
#[derive(Debug, Clone, Copy, PartialEq, Eq, Structural)]
pub enum GroupType {
    Opt,
    Alt,
    Loop,
    Par,
    Par2,
    Break,
    Critical,
    Else,
    Also,
    End,
    Group,
}

/// The content of an optional text.
pub open spec fn opt_seq(o: Option<String>) -> Option<Seq<char>> {
    match o {
        Some(s) => Some(s@),
        None => None,
    }
}

/// The content of a source location.
pub struct LocView {
    pub file: Seq<char>,
    pub line: u32,
}

/// The content of a source location.
pub open spec fn loc_view(l: SourceLocation) -> LocView {
    LocView { file: l.file@, line: l.line }
}

/// The content of a participant identifier.
pub struct PidView {
    pub display_name: Seq<char>,
    pub alias: Option<Seq<char>>,
}

/// The content of a participant identifier.
pub open spec fn pid_view(p: ParticipantIdentifier) -> PidView {
    PidView { display_name: p.display_name@, alias: opt_seq(p.alias) }
}

/// The content of a message endpoint.
pub enum EndpointView {
    Participant(PidView),
    LostFound(Seq<char>),
}

/// The content of a message endpoint.
pub open spec fn endpoint_view(e: MessageEndpoint) -> EndpointView {
    match e {
        MessageEndpoint::Participant(p) => EndpointView::Participant(pid_view(p)),
        MessageEndpoint::LostFound(m) => EndpointView::LostFound(m@),
    }
}

/// The content of a message suffix.
pub enum SuffixView {
    Activate,
    Deactivate,
    Create,
    Destroy,
    Combined(Seq<SuffixView>),
}

/// The content of a message suffix.
pub open spec fn suffix_view(s: MessageSuffix) -> SuffixView
    decreases s,
{
    match s {
        MessageSuffix::Activate => SuffixView::Activate,
        MessageSuffix::Deactivate => SuffixView::Deactivate,
        MessageSuffix::Create => SuffixView::Create,
        MessageSuffix::Destroy => SuffixView::Destroy,
        MessageSuffix::Combined(v) => SuffixView::Combined(
            Seq::new(
                v@.len(),
                |i: int|
                    if 0 <= i < v@.len() {
                        suffix_view(v@[i])
                    } else {
                        SuffixView::Activate
                    },
            ),
        ),
    }
}

/// The content of a message.
pub struct MessageView {
    pub left: EndpointView,
    pub arrow: ArrowView,
    pub right: EndpointView,
    pub suffix: Option<SuffixView>,
    pub description: Option<Seq<char>>,
    pub loc: LocView,
}

/// The content of a message.
pub open spec fn message_view(m: Message) -> MessageView {
    MessageView {
        left: endpoint_view(m.left),
        arrow: arrow_view(m.arrow),
        right: endpoint_view(m.right),
        suffix: match m.suffix {
            Some(s) => Some(suffix_view(s)),
            None => None,
        },
        description: opt_seq(m.description),
        loc: loc_view(m.source_location),
    }
}

/// The content of a participant declaration or `create` command.
pub struct DefView {
    pub participant_type: ParticipantType,
    pub identifier: PidView,
    pub stereotype: Option<Seq<char>>,
    pub loc: LocView,
}

/// The content of a statement.
pub enum StatementView {
    ParticipantDef(DefView),
    Create(DefView),
    Destroy(Seq<char>),
    Activate(Seq<char>),
    Deactivate(Seq<char>),
    Message(MessageView),
    GroupStart(GroupKind, Option<Seq<char>>, bool, LocView),
    GroupElse(Option<Seq<char>>, LocView),
    GroupEnd(Option<GroupKind>, LocView),
    Ref(Seq<Seq<char>>, Option<Seq<char>>, LocView),
    Return(Option<Seq<char>>, LocView),
}

/// The identifiers of participant references.
pub open spec fn ref_ids(v: Seq<ParticipantRef>) -> Seq<Seq<char>> {
    v.map_values(|p: ParticipantRef| p.identifier@)
}

/// The content of a statement.
pub open spec fn statement_view(s: Statement) -> StatementView {
    match s {
        Statement::ParticipantDef(d) => StatementView::ParticipantDef(
            DefView {
                participant_type: d.participant_type,
                identifier: pid_view(d.identifier),
                stereotype: opt_seq(d.stereotype),
                loc: loc_view(d.source_location),
            },
        ),
        Statement::CreateCmd(d) => StatementView::Create(
            DefView {
                participant_type: d.participant_type,
                identifier: pid_view(d.identifier),
                stereotype: opt_seq(d.stereotype),
                loc: loc_view(d.source_location),
            },
        ),
        Statement::DestroyCmd(d) => StatementView::Destroy(d.participant.identifier@),
        Statement::ActivateCmd(d) => StatementView::Activate(d.participant.identifier@),
        Statement::DeactivateCmd(d) => StatementView::Deactivate(d.participant.identifier@),
        Statement::Message(m) => StatementView::Message(message_view(m)),
        Statement::GroupCmd(g) => match g {
            GroupCmd::Start(x) => StatementView::GroupStart(
                x.kind,
                opt_seq(x.label),
                x.is_parallel,
                loc_view(x.source_location),
            ),
            GroupCmd::Else(x) => StatementView::GroupElse(opt_seq(x.label), loc_view(x.source_location)),
            GroupCmd::End(x) => StatementView::GroupEnd(x.kind, loc_view(x.source_location)),
        },
        Statement::RefCmd(r) => StatementView::Ref(
            ref_ids(r.participants@),
            opt_seq(r.text),
            loc_view(r.source_location),
        ),
        Statement::ReturnCmd(r) => StatementView::Return(opt_seq(r.label), loc_view(r.source_location)),
    }
}

/// The contents of statements.
pub open spec fn statement_views(v: Seq<Statement>) -> Seq<StatementView> {
    v.map_values(|s: Statement| statement_view(s))
}

} // verus!

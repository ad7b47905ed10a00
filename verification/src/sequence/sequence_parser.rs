//! Builds the statements of a sequence diagram from the parse tree the
//! sequence grammar produces.
use vstd::prelude::*;
use crate::parser_core::common_ast::{Arrow, ArrowView, arrow_view};
use crate::parser_core::common_parser::{arrow_error, arrow_model, parse_arrow as common_parse_arrow};
use crate::parser_core::parse_tree::{
    ParseNode, Rule, find_first, find_last, first_with, last_text, last_with, lemma_first_with, lemma_last_with,
    lemma_take_step, rule_name, rule_text, text_with,
};
use crate::sequence::sequence_ast::{
    ActivateCmd, CreateCmd, DeactivateCmd, DefView, DestroyCmd, EndpointView, GroupCmd, GroupElse, GroupEnd,
    GroupKind, GroupStart, LocView, Message, RefCmd, ReturnCmd, SeqPumlDocument,
    MessageEndpoint, MessageSuffix, MessageView, ParticipantDef, ParticipantIdentifier, ParticipantRef,
    ParticipantType, PidView, Statement, StatementView, SuffixView, endpoint_view, loc_view, message_view,
    opt_seq, pid_view, ref_ids, statement_view, statement_views, suffix_view,
};
use crate::parser_core::parse_tree::{lemma_last_step, with_rule};
use crate::source_location::SourceLocation;
use crate::text::{
    ascii_lower, ascii_text, chars_of, concat_text, is_literal, lowercase, string_of, to_lowercase, trim, trimmed_chars, strip_lead_char,
    strip_trail_char, strip_lead_pat, strip_trail_pat, trim_start_char, trim_end_char, trim_start_pat,
    trim_end_pat,
};

verus! {

/// Why a sequence statement could not be built.
#[derive(Debug, Clone, PartialEq)]
pub enum SequenceError {
    InvalidStatement(String),
}

/// `s` trimmed, then without its leading and trailing double quotes.
pub open spec fn unquoted(s: Seq<char>) -> Seq<char> {
    strip_trail_char(strip_lead_char(trim(s), '"'), '"')
}

/// `s` trimmed, then without its `<<` openers and `>>` closers.
pub open spec fn unstereotyped(s: Seq<char>) -> Seq<char> {
    strip_trail_pat(strip_lead_pat(trim(s), "<<"@), ">>"@)
}

/// Builds the statements of a sequence diagram from matched tokens.
pub struct PumlSequenceParser;

impl PumlSequenceParser {
    /// The rejection of a participant identifier, with its reason.
    pub fn invalid_participant_identifier(reason: &str) -> (r: Result<
        ParticipantIdentifier,
        SequenceError,
    >)
        ensures
            r matches Err(SequenceError::InvalidStatement(m)) && m@ == reason@,
    {
        Err(SequenceError::InvalidStatement(reason.to_owned()))
    }

    /// The endpoint used when a message names none: the lost/found marker `?`.
    pub fn missing_message_endpoint() -> (r: MessageEndpoint)
        ensures
            r matches MessageEndpoint::LostFound(m) && m@ == "?"@,
    {
        MessageEndpoint::LostFound("?".to_owned())
    }

    /// A quoted name without its quotes.
    pub fn extract_quoted_string(s: &str) -> (r: String)
        ensures
            r@ == unquoted(s@),
    {
        let v = chars_of(s);
        let t = trimmed_chars(v.as_slice());
        let a = trim_start_char(t.as_slice(), '"');
        let b = trim_end_char(a.as_slice(), '"');
        string_of(b.as_slice())
    }

    /// A stereotype without its `<<` `>>` delimiters.
    pub fn extract_stereotype(s: &str) -> (r: String)
        ensures
            r@ == unstereotyped(s@),
    {
        let v = chars_of(s);
        let t = trimmed_chars(v.as_slice());
        let open = chars_of("<<");
        let close = chars_of(">>");
        proof {
            reveal_strlit("<<");
            reveal_strlit(">>");
        }
        let a = trim_start_pat(t.as_slice(), open.as_slice());
        let b = trim_end_pat(a.as_slice(), close.as_slice());
        string_of(b.as_slice())
    }
}

/// Whether `e` is the invalid-statement error with message `m`.
pub open spec fn is_invalid(e: SequenceError, m: Seq<char>) -> bool {
    e matches SequenceError::InvalidStatement(s) && s@ == m
}

/// An invalid-statement error with message `m`.
fn invalid(m: &str) -> (e: SequenceError)
    ensures
        is_invalid(e, m@),
{
    SequenceError::InvalidStatement(m.to_owned())
}

/// An invalid-statement error with message `prefix` followed by `tail`.
fn invalid_with(prefix: &str, tail: &[char]) -> (e: SequenceError)
    ensures
        is_invalid(e, prefix@ + tail@),
{
    SequenceError::InvalidStatement(concat_text(prefix, tail))
}

/// An invalid-statement error naming a rule after `prefix`.
fn invalid_rule(prefix: &str, r: Rule) -> (e: SequenceError)
    ensures
        is_invalid(e, prefix@ + rule_text(r)),
{
    let name = chars_of(rule_name(r));
    invalid_with(prefix, name.as_slice())
}

/// The trimmed text of a match.
fn trimmed_text(node: &ParseNode) -> (r: String)
    ensures
        r@ == trim(node.text@),
{
    let v = chars_of(node.text.as_str());
    let t = trimmed_chars(v.as_slice());
    string_of(t.as_slice())
}

/// The trimmed texts of the parts of a match.
pub open spec fn parts_of(n: ParseNode) -> Seq<Seq<char>> {
    n.children@.map_values(|c: ParseNode| trim(c.text@))
}

/// The participant identifier a match denotes, or why it is refused.
pub open spec fn participant_identifier_model(n: ParseNode) -> Result<PidView, Seq<char>> {
    if n.children@.len() == 0 {
        Err("participant_identifier must contain a participant identifier"@)
    } else {
        let p = n.children@[0];
        let parts = parts_of(p);
        if p.rule == Rule::quoted_display_with_alias {
            if parts.len() == 2 {
                Ok(PidView { display_name: unquoted(parts[0]), alias: Some(parts[1]) })
            } else {
                Err("quoted_display_with_alias grammar shape changed"@)
            }
        } else if p.rule == Rule::display_with_alias {
            if parts.len() == 2 {
                Ok(PidView { display_name: parts[0], alias: Some(parts[1]) })
            } else {
                Err("display_with_alias grammar shape changed"@)
            }
        } else if p.rule == Rule::alias_with_quoted_display {
            if parts.len() == 2 {
                Ok(PidView { display_name: unquoted(parts[1]), alias: Some(parts[0]) })
            } else {
                Err("alias_with_quoted_display grammar shape changed"@)
            }
        } else if p.rule == Rule::quoted_display {
            Ok(PidView { display_name: unquoted(p.text@), alias: None })
        } else if p.rule == Rule::alias_only {
            Ok(PidView { display_name: trim(p.text@), alias: None })
        } else {
            Err("unsupported participant_identifier grammar value: "@ + rule_text(p.rule))
        }
    }
}

/// The participant type a keyword denotes, by its lowercase text.
pub open spec fn participant_type_of(t: Seq<char>) -> Option<ParticipantType> {
    if t == "participant"@ {
        Some(ParticipantType::Participant)
    } else if t == "actor"@ {
        Some(ParticipantType::Actor)
    } else if t == "boundary"@ {
        Some(ParticipantType::Boundary)
    } else if t == "control"@ {
        Some(ParticipantType::Control)
    } else if t == "entity"@ {
        Some(ParticipantType::Entity)
    } else if t == "queue"@ {
        Some(ParticipantType::Queue)
    } else if t == "database"@ {
        Some(ParticipantType::Database)
    } else if t == "collections"@ {
        Some(ParticipantType::Collections)
    } else {
        None
    }
}

/// Each participant keyword names its own type, and only that keyword names it;
/// any other text names no type.
pub proof fn lemma_participant_keywords(t: Seq<char>)
    ensures
        participant_type_of(t) == Some(ParticipantType::Participant) <==> (t == "participant"@),
        participant_type_of(t) == Some(ParticipantType::Actor) <==> (t == "actor"@),
        participant_type_of(t) == Some(ParticipantType::Boundary) <==> (t == "boundary"@),
        participant_type_of(t) == Some(ParticipantType::Control) <==> (t == "control"@),
        participant_type_of(t) == Some(ParticipantType::Entity) <==> (t == "entity"@),
        participant_type_of(t) == Some(ParticipantType::Queue) <==> (t == "queue"@),
        participant_type_of(t) == Some(ParticipantType::Database) <==> (t == "database"@),
        participant_type_of(t) == Some(ParticipantType::Collections) <==> (t == "collections"@),
        participant_type_of(t) is None <==> !(t == "participant"@ || t == "actor"@ || t == "boundary"@ || t == "control"@ || t == "entity"@ || t == "queue"@ || t == "database"@ || t == "collections"@),
{
    reveal_strlit("participant");
    reveal_strlit("actor");
    reveal_strlit("boundary");
    reveal_strlit("control");
    reveal_strlit("entity");
    reveal_strlit("queue");
    reveal_strlit("database");
    reveal_strlit("collections");
    assert("participant"@ != "actor"@) by {
        assert("participant"@.len() == 11 && "actor"@.len() == 5);
    }
    assert("participant"@ != "boundary"@) by {
        assert("participant"@.len() == 11 && "boundary"@.len() == 8);
    }
    assert("participant"@ != "control"@) by {
        assert("participant"@.len() == 11 && "control"@.len() == 7);
    }
    assert("participant"@ != "entity"@) by {
        assert("participant"@.len() == 11 && "entity"@.len() == 6);
    }
    assert("participant"@ != "queue"@) by {
        assert("participant"@.len() == 11 && "queue"@.len() == 5);
    }
    assert("participant"@ != "database"@) by {
        assert("participant"@.len() == 11 && "database"@.len() == 8);
    }
    assert("participant"@ != "collections"@) by {
        assert("participant"@[0] != "collections"@[0]);
    }
    assert("actor"@ != "boundary"@) by {
        assert("actor"@.len() == 5 && "boundary"@.len() == 8);
    }
    assert("actor"@ != "control"@) by {
        assert("actor"@.len() == 5 && "control"@.len() == 7);
    }
    assert("actor"@ != "entity"@) by {
        assert("actor"@.len() == 5 && "entity"@.len() == 6);
    }
    assert("actor"@ != "queue"@) by {
        assert("actor"@[0] != "queue"@[0]);
    }
    assert("actor"@ != "database"@) by {
        assert("actor"@.len() == 5 && "database"@.len() == 8);
    }
    assert("actor"@ != "collections"@) by {
        assert("actor"@.len() == 5 && "collections"@.len() == 11);
    }
    assert("boundary"@ != "control"@) by {
        assert("boundary"@.len() == 8 && "control"@.len() == 7);
    }
    assert("boundary"@ != "entity"@) by {
        assert("boundary"@.len() == 8 && "entity"@.len() == 6);
    }
    assert("boundary"@ != "queue"@) by {
        assert("boundary"@.len() == 8 && "queue"@.len() == 5);
    }
    assert("boundary"@ != "database"@) by {
        assert("boundary"@[0] != "database"@[0]);
    }
    assert("boundary"@ != "collections"@) by {
        assert("boundary"@.len() == 8 && "collections"@.len() == 11);
    }
    assert("control"@ != "entity"@) by {
        assert("control"@.len() == 7 && "entity"@.len() == 6);
    }
    assert("control"@ != "queue"@) by {
        assert("control"@.len() == 7 && "queue"@.len() == 5);
    }
    assert("control"@ != "database"@) by {
        assert("control"@.len() == 7 && "database"@.len() == 8);
    }
    assert("control"@ != "collections"@) by {
        assert("control"@.len() == 7 && "collections"@.len() == 11);
    }
    assert("entity"@ != "queue"@) by {
        assert("entity"@.len() == 6 && "queue"@.len() == 5);
    }
    assert("entity"@ != "database"@) by {
        assert("entity"@.len() == 6 && "database"@.len() == 8);
    }
    assert("entity"@ != "collections"@) by {
        assert("entity"@.len() == 6 && "collections"@.len() == 11);
    }
    assert("queue"@ != "database"@) by {
        assert("queue"@.len() == 5 && "database"@.len() == 8);
    }
    assert("queue"@ != "collections"@) by {
        assert("queue"@.len() == 5 && "collections"@.len() == 11);
    }
    assert("database"@ != "collections"@) by {
        assert("database"@.len() == 8 && "collections"@.len() == 11);
    }
}

/// The participant type a match denotes, or why it is refused.
pub open spec fn participant_type_model(n: ParseNode) -> Result<ParticipantType, Seq<char>> {
    let t = lowercase(n.text@);
    match participant_type_of(t) {
        Some(p) => Ok(p),
        None => Err("unsupported participant type: "@ + t),
    }
}

/// The lost/found marker a match denotes, or why it is refused.
pub open spec fn lost_found_model(n: ParseNode) -> Result<Seq<char>, Seq<char>> {
    if n.children@.len() == 0 {
        Err("lost_found_marker must contain a lost-found endpoint"@)
    } else {
        let m = n.children@[0];
        if m.rule == Rule::left_lost_found || m.rule == Rule::right_lost_found || m.rule == Rule::short_lost_found {
            Ok(trim(m.text@))
        } else {
            Err("lost_found_marker grammar produced unsupported value: "@ + rule_text(m.rule))
        }
    }
}

/// The message endpoint a match denotes, or why it is refused.
pub open spec fn endpoint_model(n: ParseNode) -> Result<EndpointView, Seq<char>> {
    if n.children@.len() == 0 {
        Err("message_endpoint must contain an endpoint"@)
    } else {
        let e = n.children@[0];
        if e.rule == Rule::inline_participant {
            match participant_identifier_model(e) {
                Ok(p) => Ok(EndpointView::Participant(p)),
                Err(m) => Err(m),
            }
        } else if e.rule == Rule::lost_found_marker {
            match lost_found_model(e) {
                Ok(t) => Ok(EndpointView::LostFound(t)),
                Err(m) => Err(m),
            }
        } else {
            Err("message_endpoint grammar produced unsupported value: "@ + rule_text(e.rule))
        }
    }
}

/// The single suffix a match denotes, or why it is refused.
pub open spec fn suffix_part_model(n: ParseNode) -> Result<SuffixView, Seq<char>> {
    if n.rule == Rule::activate_suffix {
        Ok(SuffixView::Activate)
    } else if n.rule == Rule::deactivate_suffix {
        Ok(SuffixView::Deactivate)
    } else if n.rule == Rule::create_suffix {
        Ok(SuffixView::Create)
    } else if n.rule == Rule::destroy_suffix {
        Ok(SuffixView::Destroy)
    } else {
        Err("message_suffix grammar produced unsupported value: "@ + rule_text(n.rule))
    }
}

/// The suffixes the parts `cs` denote, or why the first refused one is refused.
pub open spec fn suffix_parts_model(cs: Seq<ParseNode>) -> Result<Seq<SuffixView>, Seq<char>>
    decreases cs.len(),
{
    if cs.len() == 0 {
        Ok(Seq::empty())
    } else {
        match suffix_parts_model(cs.drop_last()) {
            Err(m) => Err(m),
            Ok(v) => match suffix_part_model(cs.last()) {
                Err(m) => Err(m),
                Ok(x) => Ok(v.push(x)),
            },
        }
    }
}

/// The message suffix a match denotes: its one part, or all of them combined.
pub open spec fn suffix_model(n: ParseNode) -> Result<SuffixView, Seq<char>> {
    match suffix_parts_model(n.children@) {
        Err(m) => Err(m),
        Ok(v) => if v.len() == 1 {
            Ok(v[0])
        } else {
            Ok(SuffixView::Combined(v))
        },
    }
}

/// The group kind a keyword denotes, by its lowercase text.
pub open spec fn group_kind_of(t: Seq<char>) -> Option<GroupKind> {
    if t == "alt"@ {
        Some(GroupKind::Alt)
    } else if t == "opt"@ {
        Some(GroupKind::Opt)
    } else if t == "loop"@ {
        Some(GroupKind::Loop)
    } else if t == "par"@ {
        Some(GroupKind::Par)
    } else if t == "break"@ {
        Some(GroupKind::Break)
    } else if t == "critical"@ {
        Some(GroupKind::Critical)
    } else if t == "group"@ {
        Some(GroupKind::Group)
    } else {
        None
    }
}

/// Each group keyword names its own kind, and only that keyword names it:
/// `alt`, `opt`, `loop`, `par`, `break`, `critical` and `group` read as
/// `Alt`, `Opt`, `Loop`, `Par`, `Break`, `Critical` and `Group`; any other
/// text names no kind; two texts that name one kind are the same keyword.
pub proof fn lemma_group_keywords(t: Seq<char>, u: Seq<char>)
    ensures
        group_kind_of(t) == Some(GroupKind::Alt) <==> t == "alt"@,
        group_kind_of(t) == Some(GroupKind::Opt) <==> t == "opt"@,
        group_kind_of(t) == Some(GroupKind::Loop) <==> t == "loop"@,
        group_kind_of(t) == Some(GroupKind::Par) <==> t == "par"@,
        group_kind_of(t) == Some(GroupKind::Break) <==> t == "break"@,
        group_kind_of(t) == Some(GroupKind::Critical) <==> t == "critical"@,
        group_kind_of(t) == Some(GroupKind::Group) <==> t == "group"@,
        group_kind_of(t) is None <==> !(t == "alt"@ || t == "opt"@ || t == "loop"@ || t == "par"@ || t
            == "break"@ || t == "critical"@ || t == "group"@),
        group_kind_of(t) is Some && group_kind_of(t) == group_kind_of(u) ==> t == u,
{
    reveal_strlit("alt");
    reveal_strlit("opt");
    reveal_strlit("loop");
    reveal_strlit("par");
    reveal_strlit("break");
    reveal_strlit("critical");
    reveal_strlit("group");
    assert("alt"@ != "opt"@) by {
        assert("alt"@[0] != "opt"@[0]);
    }
    assert("alt"@ != "loop"@) by {
        assert("alt"@.len() == 3 && "loop"@.len() == 4);
    }
    assert("alt"@ != "par"@) by {
        assert("alt"@[0] != "par"@[0]);
    }
    assert("alt"@ != "break"@) by {
        assert("alt"@.len() == 3 && "break"@.len() == 5);
    }
    assert("alt"@ != "critical"@) by {
        assert("alt"@.len() == 3 && "critical"@.len() == 8);
    }
    assert("alt"@ != "group"@) by {
        assert("alt"@.len() == 3 && "group"@.len() == 5);
    }
    assert("opt"@ != "loop"@) by {
        assert("opt"@.len() == 3 && "loop"@.len() == 4);
    }
    assert("opt"@ != "par"@) by {
        assert("opt"@[0] != "par"@[0]);
    }
    assert("opt"@ != "break"@) by {
        assert("opt"@.len() == 3 && "break"@.len() == 5);
    }
    assert("opt"@ != "critical"@) by {
        assert("opt"@.len() == 3 && "critical"@.len() == 8);
    }
    assert("opt"@ != "group"@) by {
        assert("opt"@.len() == 3 && "group"@.len() == 5);
    }
    assert("loop"@ != "par"@) by {
        assert("loop"@.len() == 4 && "par"@.len() == 3);
    }
    assert("loop"@ != "break"@) by {
        assert("loop"@.len() == 4 && "break"@.len() == 5);
    }
    assert("loop"@ != "critical"@) by {
        assert("loop"@.len() == 4 && "critical"@.len() == 8);
    }
    assert("loop"@ != "group"@) by {
        assert("loop"@.len() == 4 && "group"@.len() == 5);
    }
    assert("par"@ != "break"@) by {
        assert("par"@.len() == 3 && "break"@.len() == 5);
    }
    assert("par"@ != "critical"@) by {
        assert("par"@.len() == 3 && "critical"@.len() == 8);
    }
    assert("par"@ != "group"@) by {
        assert("par"@.len() == 3 && "group"@.len() == 5);
    }
    assert("break"@ != "critical"@) by {
        assert("break"@.len() == 5 && "critical"@.len() == 8);
    }
    assert("break"@ != "group"@) by {
        assert("break"@[0] != "group"@[0]);
    }
    assert("critical"@ != "group"@) by {
        assert("critical"@.len() == 8 && "group"@.len() == 5);
    }
}

/// The group kind a match denotes, or why it is refused.
pub open spec fn group_kind_model(n: ParseNode) -> Result<GroupKind, Seq<char>> {
    let t = lowercase(n.text@);
    match group_kind_of(t) {
        Some(k) => Ok(k),
        None => Err("unsupported group kind: "@ + t),
    }
}

/// The participant a reference match names: a participant reference reads
/// its first part, or its own trimmed text when it has none; anything else
/// its trimmed text.
pub open spec fn participant_ref_text(n: ParseNode) -> Seq<char>
    decreases n,
{
    if n.rule == Rule::participant_ref && n.children@.len() > 0 {
        participant_ref_text(n.children@[0])
    } else {
        trim(n.text@)
    }
}

/// A refused part among a prefix is the first refused part of the whole.
proof fn lemma_suffix_parts_prefix(cs: Seq<ParseNode>, k: int)
    requires
        0 <= k <= cs.len(),
    ensures
        suffix_parts_model(cs.take(k)) matches Err(m) ==> suffix_parts_model(cs) == Err::<Seq<SuffixView>, Seq<char>>(m),
    decreases cs.len(),
{
    if k < cs.len() {
        assert(cs.drop_last().take(k) =~= cs.take(k));
        lemma_suffix_parts_prefix(cs.drop_last(), k);
    } else {
        assert(cs.take(k) =~= cs);
    }
}

impl PumlSequenceParser {
    /// The trimmed texts of the parts of a participant match.
    pub fn participant_parts(participant: &ParseNode) -> (r: Vec<String>)
        ensures
            r@.map_values(|s: String| s@) == parts_of(*participant),
    {
        let cs = &participant.children;
        let mut out: Vec<String> = Vec::new();
        let mut i: usize = 0;
        while i < cs.len()
            invariant
                i <= cs@.len(),
                cs == participant.children,
                out@.map_values(|s: String| s@) == cs@.take(i as int).map_values(|c: ParseNode| trim(c.text@)),
            decreases cs@.len() - i,
        {
            proof {
                lemma_take_step(cs@, i as int);
            }
            let ghost before = out@;
            let t = trimmed_text(&cs[i]);
            out.push(t);
            proof {
                assert(out@.map_values(|s: String| s@) =~= before.map_values(|s: String| s@).push(t@));
                assert(cs@.take(i + 1).map_values(|c: ParseNode| trim(c.text@)) =~= cs@.take(i as int).map_values(
                    |c: ParseNode| trim(c.text@),
                ).push(trim(cs@[i as int].text@)));
            }
            i = i + 1;
        }
        assert(cs@.take(cs@.len() as int) =~= cs@);
        out
    }

    /// Reads a participant identifier: a quoted or plain display name, with
    /// or without an alias, in the shapes the grammar gives.
    pub fn parse_participant_identifier(node: &ParseNode) -> (r: Result<ParticipantIdentifier, SequenceError>)
        ensures
            match participant_identifier_model(*node) {
                Ok(v) => r matches Ok(p) && pid_view(p) == v,
                Err(m) => r matches Err(e) && is_invalid(e, m),
            },
    {
        if node.children.len() == 0 {
            return Err(invalid("participant_identifier must contain a participant identifier"));
        }
        let participant = &node.children[0];
        let rule = participant.rule;
        if rule == Rule::quoted_display_with_alias || rule == Rule::display_with_alias || rule
            == Rule::alias_with_quoted_display {
            let parts = Self::participant_parts(participant);
            if parts.len() != 2 {
                if rule == Rule::quoted_display_with_alias {
                    return Err(invalid("quoted_display_with_alias grammar shape changed"));
                } else if rule == Rule::display_with_alias {
                    return Err(invalid("display_with_alias grammar shape changed"));
                } else {
                    return Err(invalid("alias_with_quoted_display grammar shape changed"));
                }
            }
            proof {
                assert(parts@[0]@ == parts_of(*participant)[0]);
                assert(parts@[1]@ == parts_of(*participant)[1]);
            }
            if rule == Rule::quoted_display_with_alias {
                Ok(
                    ParticipantIdentifier {
                        display_name: Self::extract_quoted_string(parts[0].as_str()),
                        alias: Some(parts[1].clone()),
                    },
                )
            } else if rule == Rule::display_with_alias {
                Ok(ParticipantIdentifier { display_name: parts[0].clone(), alias: Some(parts[1].clone()) })
            } else {
                Ok(
                    ParticipantIdentifier {
                        display_name: Self::extract_quoted_string(parts[1].as_str()),
                        alias: Some(parts[0].clone()),
                    },
                )
            }
        } else if rule == Rule::quoted_display {
            Ok(
                ParticipantIdentifier {
                    display_name: Self::extract_quoted_string(participant.text.as_str()),
                    alias: None,
                },
            )
        } else if rule == Rule::alias_only {
            Ok(ParticipantIdentifier { display_name: trimmed_text(participant), alias: None })
        } else {
            Err(invalid_rule("unsupported participant_identifier grammar value: ", rule))
        }
    }

    /// The participant type a lowercase keyword names, if it names one.
    pub fn participant_type_keyword(lower: &str) -> (r: Option<ParticipantType>)
        ensures
            r == participant_type_of(lower@),
    {
        let v = chars_of(lower);
        let t = v.as_slice();
        if is_literal(t, "participant") {
            Some(ParticipantType::Participant)
        } else if is_literal(t, "actor") {
            Some(ParticipantType::Actor)
        } else if is_literal(t, "boundary") {
            Some(ParticipantType::Boundary)
        } else if is_literal(t, "control") {
            Some(ParticipantType::Control)
        } else if is_literal(t, "entity") {
            Some(ParticipantType::Entity)
        } else if is_literal(t, "queue") {
            Some(ParticipantType::Queue)
        } else if is_literal(t, "database") {
            Some(ParticipantType::Database)
        } else if is_literal(t, "collections") {
            Some(ParticipantType::Collections)
        } else {
            None
        }
    }

    /// Reads a participant type keyword, in any letter case.
    pub fn parse_participant_type(node: &ParseNode) -> (r: Result<ParticipantType, SequenceError>)
        ensures
            match participant_type_model(*node) {
                Ok(t) => r == Ok::<ParticipantType, SequenceError>(t),
                Err(m) => r matches Err(e) && is_invalid(e, m),
            },
            ascii_text(node.text@) ==> match participant_type_of(ascii_lower(node.text@)) {
                Some(t) => r == Ok::<ParticipantType, SequenceError>(t),
                None => r is Err,
            },
    {
        let lower = to_lowercase(node.text.as_str());
        match Self::participant_type_keyword(lower.as_str()) {
            Some(t) => Ok(t),
            None => {
                let v = chars_of(lower.as_str());
                Err(invalid_with("unsupported participant type: ", v.as_slice()))
            },
        }
    }


    /// Reads a lost/found marker: the trimmed text of its one endpoint part.
    pub fn parse_lost_found_marker(node: &ParseNode) -> (r: Result<String, SequenceError>)
        ensures
            match lost_found_model(*node) {
                Ok(t) => r matches Ok(s) && s@ == t,
                Err(m) => r matches Err(e) && is_invalid(e, m),
            },
    {
        if node.children.len() == 0 {
            return Err(invalid("lost_found_marker must contain a lost-found endpoint"));
        }
        let marker = &node.children[0];
        if marker.rule == Rule::left_lost_found || marker.rule == Rule::right_lost_found || marker.rule
            == Rule::short_lost_found {
            Ok(trimmed_text(marker))
        } else {
            Err(invalid_rule("lost_found_marker grammar produced unsupported value: ", marker.rule))
        }
    }

    /// Reads a message endpoint: an inline participant or a lost/found marker.
    pub fn parse_message_endpoint(node: &ParseNode) -> (r: Result<MessageEndpoint, SequenceError>)
        ensures
            match endpoint_model(*node) {
                Ok(v) => r matches Ok(p) && endpoint_view(p) == v,
                Err(m) => r matches Err(e) && is_invalid(e, m),
            },
    {
        if node.children.len() == 0 {
            return Err(invalid("message_endpoint must contain an endpoint"));
        }
        let endpoint = &node.children[0];
        if endpoint.rule == Rule::inline_participant {
            match Self::parse_participant_identifier(endpoint) {
                Ok(p) => Ok(MessageEndpoint::Participant(p)),
                Err(e) => Err(e),
            }
        } else if endpoint.rule == Rule::lost_found_marker {
            match Self::parse_lost_found_marker(endpoint) {
                Ok(t) => Ok(MessageEndpoint::LostFound(t)),
                Err(e) => Err(e),
            }
        } else {
            Err(invalid_rule("message_endpoint grammar produced unsupported value: ", endpoint.rule))
        }
    }

    /// Reads one message suffix: `++`, `--`, `**` or `!!`.
    pub fn parse_message_suffix_part(node: &ParseNode) -> (r: Result<MessageSuffix, SequenceError>)
        ensures
            match suffix_part_model(*node) {
                Ok(v) => r matches Ok(s) && suffix_view(s) == v,
                Err(m) => r matches Err(e) && is_invalid(e, m),
            },
    {
        if node.rule == Rule::activate_suffix {
            Ok(MessageSuffix::Activate)
        } else if node.rule == Rule::deactivate_suffix {
            Ok(MessageSuffix::Deactivate)
        } else if node.rule == Rule::create_suffix {
            Ok(MessageSuffix::Create)
        } else if node.rule == Rule::destroy_suffix {
            Ok(MessageSuffix::Destroy)
        } else {
            Err(invalid_rule("message_suffix grammar produced unsupported value: ", node.rule))
        }
    }

    /// Reads the suffixes after a message: one alone, or several combined.
    pub fn parse_message_suffix(node: &ParseNode) -> (r: Result<MessageSuffix, SequenceError>)
        ensures
            match suffix_model(*node) {
                Ok(v) => r matches Ok(s) && suffix_view(s) == v,
                Err(m) => r matches Err(e) && is_invalid(e, m),
            },
    {
        let cs = &node.children;
        let mut parts: Vec<MessageSuffix> = Vec::new();
        let mut i: usize = 0;
        while i < cs.len()
            invariant
                i <= cs@.len(),
                cs == node.children,
                suffix_parts_model(cs@.take(i as int)) matches Ok(v) && parts@.map_values(
                    |s: MessageSuffix| suffix_view(s),
                ) == v,
            decreases cs@.len() - i,
        {
            proof {
                lemma_take_step(cs@, i as int);
            }
            match Self::parse_message_suffix_part(&cs[i]) {
                Ok(part) => {
                    let ghost before = parts@;
                    parts.push(part);
                    proof {
                        assert(parts@.map_values(|s: MessageSuffix| suffix_view(s)) =~= before.map_values(
                            |s: MessageSuffix| suffix_view(s),
                        ).push(suffix_view(part)));
                    }
                },
                Err(e) => {
                    proof {
                        lemma_suffix_parts_prefix(cs@, i + 1);
                    }
                    return Err(e);
                },
            }
            i = i + 1;
        }
        assert(cs@.take(cs@.len() as int) =~= cs@);
        if parts.len() == 1 {
            let ghost v = parts@.map_values(|s: MessageSuffix| suffix_view(s));
            match parts.pop() {
                Some(p) => {
                    assert(suffix_view(p) == v[0]);
                    Ok(p)
                },
                None => Ok(MessageSuffix::Combined(Vec::new())),
            }
        } else {
            let r = MessageSuffix::Combined(parts);
            proof {
                let v = parts@.map_values(|s: MessageSuffix| suffix_view(s));
                assert(suffix_view(r) == SuffixView::Combined(v)) by {
                    if let SuffixView::Combined(w) = suffix_view(r) {
                        assert(w =~= v);
                    }
                }
            }
            Ok(r)
        }
    }

    /// The group kind a lowercase keyword names, if it names one.
    pub fn group_kind_keyword(lower: &str) -> (r: Option<GroupKind>)
        ensures
            r == group_kind_of(lower@),
            (r == Some(GroupKind::Alt)) == (lower@ == "alt"@),
            (r == Some(GroupKind::Opt)) == (lower@ == "opt"@),
            (r == Some(GroupKind::Loop)) == (lower@ == "loop"@),
            (r == Some(GroupKind::Par)) == (lower@ == "par"@),
            (r == Some(GroupKind::Break)) == (lower@ == "break"@),
            (r == Some(GroupKind::Critical)) == (lower@ == "critical"@),
            (r == Some(GroupKind::Group)) == (lower@ == "group"@),
    {
        proof {
            lemma_group_keywords(lower@, lower@);
        }
        let v = chars_of(lower);
        let t = v.as_slice();
        if is_literal(t, "alt") {
            Some(GroupKind::Alt)
        } else if is_literal(t, "opt") {
            Some(GroupKind::Opt)
        } else if is_literal(t, "loop") {
            Some(GroupKind::Loop)
        } else if is_literal(t, "par") {
            Some(GroupKind::Par)
        } else if is_literal(t, "break") {
            Some(GroupKind::Break)
        } else if is_literal(t, "critical") {
            Some(GroupKind::Critical)
        } else if is_literal(t, "group") {
            Some(GroupKind::Group)
        } else {
            None
        }
    }

    /// Reads a group kind keyword, in any letter case.
    pub fn parse_group_kind(node: &ParseNode) -> (r: Result<GroupKind, SequenceError>)
        ensures
            match group_kind_model(*node) {
                Ok(k) => r == Ok::<GroupKind, SequenceError>(k),
                Err(m) => r matches Err(e) && is_invalid(e, m),
            },
            ascii_text(node.text@) ==> match group_kind_of(ascii_lower(node.text@)) {
                Some(k) => r == Ok::<GroupKind, SequenceError>(k),
                None => r is Err,
            },
    {
        let lower = to_lowercase(node.text.as_str());
        match Self::group_kind_keyword(lower.as_str()) {
            Some(k) => Ok(k),
            None => {
                let v = chars_of(lower.as_str());
                Err(invalid_with("unsupported group kind: ", v.as_slice()))
            },
        }
    }

    /// The participant a reference names.
    pub fn extract_participant_ref(node: &ParseNode) -> (r: String)
        ensures
            r@ == participant_ref_text(*node),
        decreases node,
    {
        if node.rule == Rule::participant_ref && node.children.len() > 0 {
            Self::extract_participant_ref(&node.children[0])
        } else {
            trimmed_text(node)
        }
    }

    /// A participant reference.
    pub fn parse_participant_ref(node: &ParseNode) -> (r: ParticipantRef)
        ensures
            r.identifier@ == participant_ref_text(*node),
    {
        ParticipantRef { identifier: Self::extract_participant_ref(node) }
    }
}

/// The arrow of a message, or why it is refused.
pub open spec fn seq_arrow_model(n: ParseNode) -> Result<ArrowView, Seq<char>> {
    match arrow_error(n) {
        Some(m) => Err("invalid arrow: "@ + m),
        None => Ok(arrow_model(n)),
    }
}

/// The endpoints and last arrow among the parts `cs` of a message body, or
/// why the first refused part is refused.
pub open spec fn body_fold(cs: Seq<ParseNode>) -> Result<(Seq<EndpointView>, Option<ArrowView>), Seq<char>>
    decreases cs.len(),
{
    if cs.len() == 0 {
        Ok((Seq::empty(), None))
    } else {
        match body_fold(cs.drop_last()) {
            Err(m) => Err(m),
            Ok(st) => {
                let c = cs.last();
                if c.rule == Rule::message_endpoint {
                    match endpoint_model(c) {
                        Err(m) => Err(m),
                        Ok(e) => Ok((st.0.push(e), st.1)),
                    }
                } else if c.rule == Rule::sequence_arrow {
                    match seq_arrow_model(c) {
                        Err(m) => Err(m),
                        Ok(a) => Ok((st.0, Some(a))),
                    }
                } else {
                    Ok(st)
                }
            },
        }
    }
}

/// The endpoint standing for a missing participant: the lost/found marker `?`.
pub open spec fn missing_endpoint() -> EndpointView {
    EndpointView::LostFound("?"@)
}

/// The left endpoint, arrow and right endpoint a message body denotes, or why
/// it is refused: a full message names both endpoints; one missing its left
/// or right endpoint has `?` there.
pub open spec fn message_body_model(n: ParseNode) -> Result<(EndpointView, ArrowView, EndpointView), Seq<char>> {
    if n.children@.len() == 0 {
        Err("empty message body"@)
    } else {
        let body = n.children@[0];
        match body_fold(body.children@) {
            Err(m) => Err(m),
            Ok(st) => match st.1 {
                None => Err("message body must contain arrow"@),
                Some(a) => {
                    let eps = st.0;
                    if body.rule == Rule::message_full {
                        if eps.len() < 1 {
                            Err("message_full must contain left endpoint"@)
                        } else if eps.len() < 2 {
                            Err("message_full must contain right endpoint"@)
                        } else {
                            Ok((eps[0], a, eps[1]))
                        }
                    } else if body.rule == Rule::message_missing_left {
                        if eps.len() < 1 {
                            Err("message_missing_left must contain right endpoint"@)
                        } else {
                            Ok((missing_endpoint(), a, eps[0]))
                        }
                    } else if body.rule == Rule::message_missing_right {
                        if eps.len() < 1 {
                            Err("message_missing_right must contain left endpoint"@)
                        } else {
                            Ok((eps[0], a, missing_endpoint()))
                        }
                    } else {
                        Err("unsupported message body: "@ + rule_text(body.rule))
                    }
                },
            },
        }
    }
}

/// A refused part among a prefix is the first refused part of the whole.
proof fn lemma_body_fold_prefix(cs: Seq<ParseNode>, k: int)
    requires
        0 <= k <= cs.len(),
    ensures
        body_fold(cs.take(k)) matches Err(m) ==> body_fold(cs) == Err::<(Seq<EndpointView>, Option<ArrowView>), Seq<char>>(m),
    decreases cs.len(),
{
    if k < cs.len() {
        assert(cs.drop_last().take(k) =~= cs.take(k));
        lemma_body_fold_prefix(cs.drop_last(), k);
    } else {
        assert(cs.take(k) =~= cs);
    }
}

impl PumlSequenceParser {
    /// Reads the arrow of a message; a refused arrow refuses the message.
    pub fn parse_arrow(node: &ParseNode) -> (r: Result<Arrow, SequenceError>)
        ensures
            match seq_arrow_model(*node) {
                Ok(a) => r matches Ok(x) && arrow_view(x) == a,
                Err(m) => r matches Err(e) && is_invalid(e, m),
            },
    {
        match common_parse_arrow(node) {
            Ok(a) => Ok(a),
            Err(e) => {
                let v = chars_of(e.as_str());
                Err(invalid_with("invalid arrow: ", v.as_slice()))
            },
        }
    }

    /// Reads a message body: its endpoints and arrow in the shape its rule names.
    pub fn parse_message_body(node: &ParseNode) -> (r: Result<
        (MessageEndpoint, Arrow, MessageEndpoint),
        SequenceError,
    >)
        ensures
            match message_body_model(*node) {
                Ok(v) => r matches Ok(x) && endpoint_view(x.0) == v.0 && arrow_view(x.1) == v.1 && endpoint_view(x.2)
                    == v.2,
                Err(m) => r matches Err(e) && is_invalid(e, m),
            },
    {
        if node.children.len() == 0 {
            return Err(invalid("empty message body"));
        }
        let body = &node.children[0];
        let body_rule = body.rule;
        let cs = &body.children;
        let mut endpoints: Vec<MessageEndpoint> = Vec::new();
        let mut arrow: Option<Arrow> = None;
        let mut i: usize = 0;
        while i < cs.len()
            invariant
                i <= cs@.len(),
                cs == body.children,
                node.children@.len() > 0,
                *body == node.children@[0],
                body_fold(cs@.take(i as int)) matches Ok(st) && endpoints@.map_values(
                    |e: MessageEndpoint| endpoint_view(e),
                ) == st.0 && (match arrow {
                    Some(a) => Some(arrow_view(a)),
                    None => None,
                }) == st.1,
            decreases cs@.len() - i,
        {
            proof {
                lemma_take_step(cs@, i as int);
            }
            let c = &cs[i];
            if c.rule == Rule::message_endpoint {
                match Self::parse_message_endpoint(c) {
                    Ok(e) => {
                        let ghost before = endpoints@;
                        endpoints.push(e);
                        proof {
                            assert(endpoints@.map_values(|e: MessageEndpoint| endpoint_view(e)) =~= before.map_values(
                                |e: MessageEndpoint| endpoint_view(e),
                            ).push(endpoint_view(e)));
                        }
                    },
                    Err(e) => {
                        proof {
                            assert(body_fold(cs@.take(i + 1)) matches Err(m) && is_invalid(e, m));
                            lemma_body_fold_prefix(cs@, i + 1);
                        }
                        return Err(e);
                    },
                }
            } else if c.rule == Rule::sequence_arrow {
                match Self::parse_arrow(c) {
                    Ok(a) => {
                        arrow = Some(a);
                    },
                    Err(e) => {
                        proof {
                            assert(body_fold(cs@.take(i + 1)) matches Err(m) && is_invalid(e, m));
                            lemma_body_fold_prefix(cs@, i + 1);
                        }
                        return Err(e);
                    },
                }
            }
            i = i + 1;
        }
        assert(cs@.take(cs@.len() as int) =~= cs@);
        let arrow = match arrow {
            Some(a) => a,
            None => {
                return Err(invalid("message body must contain arrow"));
            },
        };
        let ghost eps = endpoints@.map_values(|e: MessageEndpoint| endpoint_view(e));
        if body_rule == Rule::message_full {
            if endpoints.len() < 1 {
                return Err(invalid("message_full must contain left endpoint"));
            }
            if endpoints.len() < 2 {
                return Err(invalid("message_full must contain right endpoint"));
            }
            let ghost before = endpoints@;
            let right = endpoints.remove(1);
            let left = endpoints.remove(0);
            proof {
                assert(endpoint_view(left) == eps[0]);
                assert(endpoint_view(right) == eps[1]);
            }
            Ok((left, arrow, right))
        } else if body_rule == Rule::message_missing_left {
            if endpoints.len() < 1 {
                return Err(invalid("message_missing_left must contain right endpoint"));
            }
            let right = endpoints.remove(0);
            assert(endpoint_view(right) == eps[0]);
            Ok((Self::missing_message_endpoint(), arrow, right))
        } else if body_rule == Rule::message_missing_right {
            if endpoints.len() < 1 {
                return Err(invalid("message_missing_right must contain left endpoint"));
            }
            let left = endpoints.remove(0);
            assert(endpoint_view(left) == eps[0]);
            Ok((left, arrow, Self::missing_message_endpoint()))
        } else {
            Err(invalid_rule("unsupported message body: ", body_rule))
        }
    }
}

/// The suffix and description read from the parts `cs` of a message, or why
/// the first refused suffix is refused.
pub open spec fn message_fold(cs: Seq<ParseNode>) -> Result<(Option<SuffixView>, Option<Seq<char>>), Seq<char>>
    decreases cs.len(),
{
    if cs.len() == 0 {
        Ok((None, None))
    } else {
        match message_fold(cs.drop_last()) {
            Err(m) => Err(m),
            Ok(st) => {
                let c = cs.last();
                if c.rule == Rule::message_suffix {
                    match suffix_model(c) {
                        Err(m) => Err(m),
                        Ok(x) => Ok((Some(x), st.1)),
                    }
                } else if c.rule == Rule::sequence_description {
                    Ok(
                        (
                            st.0,
                            if c.children@.len() > 0 {
                                Some(trim(c.children@[0].text@))
                            } else {
                                None
                            },
                        ),
                    )
                } else {
                    Ok(st)
                }
            },
        }
    }
}

proof fn lemma_message_fold_prefix(cs: Seq<ParseNode>, k: int)
    requires
        0 <= k <= cs.len(),
    ensures
        message_fold(cs.take(k)) matches Err(m) ==> message_fold(cs) == Err::<
            (Option<SuffixView>, Option<Seq<char>>),
            Seq<char>,
        >(m),
    decreases cs.len(),
{
    if k < cs.len() {
        assert(cs.drop_last().take(k) =~= cs.take(k));
        lemma_message_fold_prefix(cs.drop_last(), k);
    } else {
        assert(cs.take(k) =~= cs);
    }
}

/// The message a match denotes at `loc`, or why it is refused: its last
/// body's endpoints and arrow, its last suffix and its last description.
pub open spec fn message_model(n: ParseNode, loc: LocView) -> Result<MessageView, Seq<char>> {
    let cs = n.children@;
    match message_fold(cs) {
        Err(m) => Err(m),
        Ok(st) => match last_with(cs, Rule::message_body) {
            None => Err("missing message body"@),
            Some(i) => match message_body_model(cs[i]) {
                Err(m) => Err(m),
                Ok(b) => Ok(MessageView { left: b.0, arrow: b.1, right: b.2, suffix: st.0, description: st.1, loc }),
            },
        },
    }
}

/// The type, identifier and stereotype read from the parts `cs` of a
/// participant declaration, or why the first refused part is refused.
pub open spec fn def_fold(cs: Seq<ParseNode>) -> Result<
    (Option<ParticipantType>, Option<PidView>, Option<Seq<char>>),
    Seq<char>,
>
    decreases cs.len(),
{
    if cs.len() == 0 {
        Ok((None, None, None))
    } else {
        match def_fold(cs.drop_last()) {
            Err(m) => Err(m),
            Ok(st) => {
                let c = cs.last();
                if c.rule == Rule::participant_type {
                    match participant_type_model(c) {
                        Err(m) => Err(m),
                        Ok(t) => Ok((Some(t), st.1, st.2)),
                    }
                } else if c.rule == Rule::participant_identifier {
                    match participant_identifier_model(c) {
                        Err(m) => Err(m),
                        Ok(p) => Ok((st.0, Some(p), st.2)),
                    }
                } else if c.rule == Rule::stereotype {
                    Ok((st.0, st.1, Some(unstereotyped(c.text@))))
                } else {
                    Ok(st)
                }
            },
        }
    }
}

proof fn lemma_def_fold_prefix(cs: Seq<ParseNode>, k: int)
    requires
        0 <= k <= cs.len(),
    ensures
        def_fold(cs.take(k)) matches Err(m) ==> def_fold(cs) == Err::<
            (Option<ParticipantType>, Option<PidView>, Option<Seq<char>>),
            Seq<char>,
        >(m),
    decreases cs.len(),
{
    if k < cs.len() {
        assert(cs.drop_last().take(k) =~= cs.take(k));
        lemma_def_fold_prefix(cs.drop_last(), k);
    } else {
        assert(cs.take(k) =~= cs);
    }
}

/// The participant declaration a match denotes at `loc`, or why it is refused.
pub open spec fn participant_def_model(n: ParseNode, loc: LocView) -> Result<DefView, Seq<char>> {
    match def_fold(n.children@) {
        Err(m) => Err(m),
        Ok(st) => match st.0 {
            None => Err("missing participant type"@),
            Some(t) => match st.1 {
                None => Err("missing participant identifier"@),
                Some(p) => Ok(DefView { participant_type: t, identifier: p, stereotype: st.2, loc }),
            },
        },
    }
}

/// The `create` command a match denotes at `loc`, or why it is refused; its
/// type defaults to a plain participant.
pub open spec fn create_model(n: ParseNode, loc: LocView) -> Result<DefView, Seq<char>> {
    match def_fold(n.children@) {
        Err(m) => Err(m),
        Ok(st) => match st.1 {
            None => Err("missing participant identifier"@),
            Some(p) => Ok(
                DefView {
                    participant_type: match st.0 {
                        Some(t) => t,
                        None => ParticipantType::Participant,
                    },
                    identifier: p,
                    stereotype: st.2,
                    loc,
                },
            ),
        },
    }
}

/// The participant named by the last reference among `cs`.
pub open spec fn last_ref(cs: Seq<ParseNode>) -> Option<Seq<char>> {
    match last_with(cs, Rule::participant_ref) {
        Some(i) => Some(participant_ref_text(cs[i])),
        None => None,
    }
}

/// The statements a short activation (`A++` / `A--`) denotes, or why it is refused.
pub open spec fn activation_short_model(n: ParseNode) -> Result<Seq<StatementView>, Seq<char>> {
    let cs = n.children@;
    if cs.len() == 0 || cs[0].rule != Rule::participant_ref {
        Err("missing participant in short activation"@)
    } else if cs.len() < 2 {
        Err("missing short activation suffix"@)
    } else {
        let p = participant_ref_text(cs[0]);
        if cs[1].rule == Rule::activate_suffix {
            Ok(seq![StatementView::Activate(p)])
        } else if cs[1].rule == Rule::deactivate_suffix {
            Ok(seq![StatementView::Deactivate(p)])
        } else {
            Err("unsupported short activation suffix: "@ + rule_text(cs[1].rule))
        }
    }
}

/// The statements a lifecycle command denotes at `loc`, or why it is refused.
pub open spec fn lifecycle_model(n: ParseNode, loc: LocView) -> Result<Seq<StatementView>, Seq<char>> {
    if n.children@.len() == 0 {
        Err("empty lifecycle command"@)
    } else {
        let c = n.children@[0];
        if c.rule == Rule::create_cmd {
            match create_model(c, loc) {
                Err(m) => Err(m),
                Ok(d) => Ok(seq![StatementView::Create(d)]),
            }
        } else if c.rule == Rule::destroy_cmd {
            match last_ref(c.children@) {
                None => Err("missing participant in destroy"@),
                Some(p) => Ok(seq![StatementView::Destroy(p)]),
            }
        } else if c.rule == Rule::activate_cmd {
            match last_ref(c.children@) {
                None => Err("missing participant in activate"@),
                Some(p) => Ok(seq![StatementView::Activate(p)]),
            }
        } else if c.rule == Rule::deactivate_cmd {
            match last_ref(c.children@) {
                None => Err("missing participant in deactivate"@),
                Some(p) => Ok(seq![StatementView::Deactivate(p)]),
            }
        } else if c.rule == Rule::activation_short {
            activation_short_model(c)
        } else {
            Err("unsupported lifecycle command: "@ + rule_text(c.rule))
        }
    }
}

/// The content of a statement that is a participant declaration.
pub open spec fn def_statement(d: ParticipantDef) -> DefView {
    DefView {
        participant_type: d.participant_type,
        identifier: pid_view(d.identifier),
        stereotype: opt_seq(d.stereotype),
        loc: loc_view(d.source_location),
    }
}

/// The content of a `create` command.
pub open spec fn create_statement(d: CreateCmd) -> DefView {
    DefView {
        participant_type: d.participant_type,
        identifier: pid_view(d.identifier),
        stereotype: opt_seq(d.stereotype),
        loc: loc_view(d.source_location),
    }
}

impl PumlSequenceParser {
    /// Reads a message: its body, suffix and description, at `source_location`.
    pub fn parse_message(node: &ParseNode, source_location: SourceLocation) -> (r: Result<Message, SequenceError>)
        ensures
            match message_model(*node, loc_view(source_location)) {
                Ok(v) => r matches Ok(x) && message_view(x) == v,
                Err(m) => r matches Err(e) && is_invalid(e, m),
            },
    {
        let cs = &node.children;
        let mut suffix: Option<MessageSuffix> = None;
        let mut description: Option<String> = None;
        let mut i: usize = 0;
        while i < cs.len()
            invariant
                i <= cs@.len(),
                cs == node.children,
                message_fold(cs@.take(i as int)) matches Ok(st) && (match suffix {
                    Some(x) => Some(suffix_view(x)),
                    None => None,
                }) == st.0 && opt_seq(description) == st.1,
            decreases cs@.len() - i,
        {
            proof {
                lemma_take_step(cs@, i as int);
            }
            let c = &cs[i];
            if c.rule == Rule::message_suffix {
                match Self::parse_message_suffix(c) {
                    Ok(x) => {
                        suffix = Some(x);
                    },
                    Err(e) => {
                        proof {
                            assert(message_fold(cs@.take(i + 1)) matches Err(m) && is_invalid(e, m));
                            lemma_message_fold_prefix(cs@, i + 1);
                        }
                        return Err(e);
                    },
                }
            } else if c.rule == Rule::sequence_description {
                description = if c.children.len() > 0 {
                    Some(trimmed_text(&c.children[0]))
                } else {
                    None
                };
            }
            i = i + 1;
        }
        assert(cs@.take(cs@.len() as int) =~= cs@);
        proof {
            lemma_last_with(cs@, Rule::message_body);
        }
        let body = match find_last(cs, Rule::message_body) {
            Some(k) => &cs[k],
            None => {
                return Err(invalid("missing message body"));
            },
        };
        let (left, arrow, right) = match Self::parse_message_body(body) {
            Ok(b) => b,
            Err(e) => {
                return Err(e);
            },
        };
        Ok(Message { left, arrow, right, suffix, description, source_location })
    }

    /// Reads the type, identifier and stereotype of a participant declaration
    /// or `create` command; the first refused part refuses it.
    fn read_def_parts(node: &ParseNode) -> (r: Result<
        (Option<ParticipantType>, Option<ParticipantIdentifier>, Option<String>),
        SequenceError,
    >)
        ensures
            match def_fold(node.children@) {
                Ok(st) => r matches Ok(x) && x.0 == st.0 && (match x.1 {
                    Some(p) => Some(pid_view(p)),
                    None => None,
                }) == st.1 && opt_seq(x.2) == st.2,
                Err(m) => r matches Err(e) && is_invalid(e, m),
            },
    {
        let cs = &node.children;
        let mut participant_type: Option<ParticipantType> = None;
        let mut identifier: Option<ParticipantIdentifier> = None;
        let mut stereotype: Option<String> = None;
        let mut i: usize = 0;
        while i < cs.len()
            invariant
                i <= cs@.len(),
                cs == node.children,
                def_fold(cs@.take(i as int)) matches Ok(st) && participant_type == st.0 && (match identifier {
                    Some(p) => Some(pid_view(p)),
                    None => None,
                }) == st.1 && opt_seq(stereotype) == st.2,
            decreases cs@.len() - i,
        {
            proof {
                lemma_take_step(cs@, i as int);
            }
            let c = &cs[i];
            if c.rule == Rule::participant_type {
                match Self::parse_participant_type(c) {
                    Ok(t) => {
                        participant_type = Some(t);
                    },
                    Err(e) => {
                        proof {
                            assert(def_fold(cs@.take(i + 1)) matches Err(m) && is_invalid(e, m));
                            lemma_def_fold_prefix(cs@, i + 1);
                        }
                        return Err(e);
                    },
                }
            } else if c.rule == Rule::participant_identifier {
                match Self::parse_participant_identifier(c) {
                    Ok(p) => {
                        identifier = Some(p);
                    },
                    Err(e) => {
                        proof {
                            assert(def_fold(cs@.take(i + 1)) matches Err(m) && is_invalid(e, m));
                            lemma_def_fold_prefix(cs@, i + 1);
                        }
                        return Err(e);
                    },
                }
            } else if c.rule == Rule::stereotype {
                stereotype = Some(Self::extract_stereotype(c.text.as_str()));
            }
            i = i + 1;
        }
        assert(cs@.take(cs@.len() as int) =~= cs@);
        Ok((participant_type, identifier, stereotype))
    }

    /// Reads a participant declaration at `source_location`.
    pub fn parse_participant_def(node: &ParseNode, source_location: SourceLocation) -> (r: Result<
        ParticipantDef,
        SequenceError,
    >)
        ensures
            match participant_def_model(*node, loc_view(source_location)) {
                Ok(v) => r matches Ok(x) && def_statement(x) == v,
                Err(m) => r matches Err(e) && is_invalid(e, m),
            },
    {
        let (participant_type, identifier, stereotype) = match Self::read_def_parts(node) {
            Ok(parts) => parts,
            Err(e) => {
                return Err(e);
            },
        };
        let participant_type = match participant_type {
            Some(t) => t,
            None => {
                return Err(invalid("missing participant type"));
            },
        };
        let identifier = match identifier {
            Some(p) => p,
            None => {
                return Err(invalid("missing participant identifier"));
            },
        };
        Ok(ParticipantDef { participant_type, identifier, stereotype, source_location })
    }

    /// Reads a `create` command at `source_location`.
    pub fn parse_create_cmd(node: &ParseNode, source_location: SourceLocation) -> (r: Result<
        CreateCmd,
        SequenceError,
    >)
        ensures
            match create_model(*node, loc_view(source_location)) {
                Ok(v) => r matches Ok(x) && create_statement(x) == v,
                Err(m) => r matches Err(e) && is_invalid(e, m),
            },
    {
        let (participant_type, identifier, stereotype) = match Self::read_def_parts(node) {
            Ok(parts) => parts,
            Err(e) => {
                return Err(e);
            },
        };
        let identifier = match identifier {
            Some(p) => p,
            None => {
                return Err(invalid("missing participant identifier"));
            },
        };
        let participant_type = match participant_type {
            Some(t) => t,
            None => ParticipantType::Participant,
        };
        Ok(CreateCmd { participant_type, identifier, stereotype, source_location })
    }

    /// The last participant reference among the parts of a match.
    fn last_participant_ref(node: &ParseNode) -> (r: Option<ParticipantRef>)
        ensures
            match last_ref(node.children@) {
                Some(p) => r matches Some(x) && x.identifier@ == p,
                None => r is None,
            },
    {
        proof {
            lemma_last_with(node.children@, Rule::participant_ref);
        }
        match find_last(&node.children, Rule::participant_ref) {
            Some(i) => Some(Self::parse_participant_ref(&node.children[i])),
            None => None,
        }
    }

    /// Reads a `destroy` command.
    pub fn parse_destroy_cmd(node: &ParseNode) -> (r: Result<DestroyCmd, SequenceError>)
        ensures
            match last_ref(node.children@) {
                Some(p) => r matches Ok(x) && x.participant.identifier@ == p,
                None => r matches Err(e) && is_invalid(e, "missing participant in destroy"@),
            },
    {
        match Self::last_participant_ref(node) {
            Some(participant) => Ok(DestroyCmd { participant }),
            None => Err(invalid("missing participant in destroy")),
        }
    }

    /// Reads an `activate` command.
    pub fn parse_activate_cmd(node: &ParseNode) -> (r: Result<ActivateCmd, SequenceError>)
        ensures
            match last_ref(node.children@) {
                Some(p) => r matches Ok(x) && x.participant.identifier@ == p,
                None => r matches Err(e) && is_invalid(e, "missing participant in activate"@),
            },
    {
        match Self::last_participant_ref(node) {
            Some(participant) => Ok(ActivateCmd { participant }),
            None => Err(invalid("missing participant in activate")),
        }
    }

    /// Reads a `deactivate` command.
    pub fn parse_deactivate_cmd(node: &ParseNode) -> (r: Result<DeactivateCmd, SequenceError>)
        ensures
            match last_ref(node.children@) {
                Some(p) => r matches Ok(x) && x.participant.identifier@ == p,
                None => r matches Err(e) && is_invalid(e, "missing participant in deactivate"@),
            },
    {
        match Self::last_participant_ref(node) {
            Some(participant) => Ok(DeactivateCmd { participant }),
            None => Err(invalid("missing participant in deactivate")),
        }
    }

    /// Reads a short activation: a participant reference followed by `++` or `--`.
    pub fn parse_activation_short(node: &ParseNode) -> (r: Result<Vec<Statement>, SequenceError>)
        ensures
            match activation_short_model(*node) {
                Ok(v) => r matches Ok(x) && statement_views(x@) == v,
                Err(m) => r matches Err(e) && is_invalid(e, m),
            },
    {
        let cs = &node.children;
        if cs.len() == 0 || cs[0].rule != Rule::participant_ref {
            return Err(invalid("missing participant in short activation"));
        }
        let participant = Self::parse_participant_ref(&cs[0]);
        if cs.len() < 2 {
            return Err(invalid("missing short activation suffix"));
        }
        let suffix = cs[1].rule;
        let mut out: Vec<Statement> = Vec::new();
        if suffix == Rule::activate_suffix {
            out.push(Statement::ActivateCmd(ActivateCmd { participant }));
        } else if suffix == Rule::deactivate_suffix {
            out.push(Statement::DeactivateCmd(DeactivateCmd { participant }));
        } else {
            return Err(invalid_rule("unsupported short activation suffix: ", suffix));
        }
        proof {
            assert(statement_views(out@) =~= activation_short_model(*node)->Ok_0);
        }
        Ok(out)
    }

    /// Reads a lifecycle command at `source_location`.
    pub fn parse_lifecycle_cmd(node: &ParseNode, source_location: SourceLocation) -> (r: Result<
        Vec<Statement>,
        SequenceError,
    >)
        ensures
            match lifecycle_model(*node, loc_view(source_location)) {
                Ok(v) => r matches Ok(x) && statement_views(x@) == v,
                Err(m) => r matches Err(e) && is_invalid(e, m),
            },
    {
        if node.children.len() == 0 {
            return Err(invalid("empty lifecycle command"));
        }
        let inner = &node.children[0];
        let mut out: Vec<Statement> = Vec::new();
        if inner.rule == Rule::create_cmd {
            match Self::parse_create_cmd(inner, source_location) {
                Ok(c) => out.push(Statement::CreateCmd(c)),
                Err(e) => {
                    return Err(e);
                },
            }
        } else if inner.rule == Rule::destroy_cmd {
            match Self::parse_destroy_cmd(inner) {
                Ok(c) => out.push(Statement::DestroyCmd(c)),
                Err(e) => {
                    return Err(e);
                },
            }
        } else if inner.rule == Rule::activate_cmd {
            match Self::parse_activate_cmd(inner) {
                Ok(c) => out.push(Statement::ActivateCmd(c)),
                Err(e) => {
                    return Err(e);
                },
            }
        } else if inner.rule == Rule::deactivate_cmd {
            match Self::parse_deactivate_cmd(inner) {
                Ok(c) => out.push(Statement::DeactivateCmd(c)),
                Err(e) => {
                    return Err(e);
                },
            }
        } else if inner.rule == Rule::activation_short {
            return Self::parse_activation_short(inner);
        } else {
            return Err(invalid_rule("unsupported lifecycle command: ", inner.rule));
        }
        proof {
            assert(statement_views(out@) =~= lifecycle_model(*node, loc_view(source_location))->Ok_0);
        }
        Ok(out)
    }
}

/// The kind, label and parallel mark read from the parts `cs` of a group
/// start, or why the first refused kind is refused.
pub open spec fn group_start_fold(cs: Seq<ParseNode>) -> Result<(Option<GroupKind>, Option<Seq<char>>, bool), Seq<char>>
    decreases cs.len(),
{
    if cs.len() == 0 {
        Ok((None, None, false))
    } else {
        match group_start_fold(cs.drop_last()) {
            Err(m) => Err(m),
            Ok(st) => {
                let c = cs.last();
                if c.rule == Rule::parallel_marker {
                    Ok((st.0, st.1, true))
                } else if c.rule == Rule::group_start_type {
                    match group_kind_model(c) {
                        Err(m) => Err(m),
                        Ok(k) => Ok((Some(k), st.1, st.2)),
                    }
                } else if c.rule == Rule::group_label {
                    Ok((st.0, Some(trim(c.text@)), st.2))
                } else {
                    Ok(st)
                }
            },
        }
    }
}

proof fn lemma_group_start_fold_prefix(cs: Seq<ParseNode>, k: int)
    requires
        0 <= k <= cs.len(),
    ensures
        group_start_fold(cs.take(k)) matches Err(m) ==> group_start_fold(cs) == Err::<
            (Option<GroupKind>, Option<Seq<char>>, bool),
            Seq<char>,
        >(m),
    decreases cs.len(),
{
    if k < cs.len() {
        assert(cs.drop_last().take(k) =~= cs.take(k));
        lemma_group_start_fold_prefix(cs.drop_last(), k);
    } else {
        assert(cs.take(k) =~= cs);
    }
}

/// The trimmed text of the last label among `cs`.
pub open spec fn last_label(cs: Seq<ParseNode>) -> Option<Seq<char>> {
    match text_with(cs, Rule::group_label) {
        Some(t) => Some(trim(t)),
        None => None,
    }
}

/// The group command a match denotes at `loc`, or why it is refused.
pub open spec fn group_cmd_model(n: ParseNode, loc: LocView) -> Result<StatementView, Seq<char>> {
    if n.children@.len() == 0 {
        Err("empty group command"@)
    } else {
        let c = n.children@[0];
        let cs = c.children@;
        if c.rule == Rule::group_start {
            match group_start_fold(cs) {
                Err(m) => Err(m),
                Ok(st) => match st.0 {
                    None => Err("missing group start kind"@),
                    Some(k) => Ok(StatementView::GroupStart(k, st.1, st.2, loc)),
                },
            }
        } else if c.rule == Rule::group_branch {
            if last_with(cs, Rule::group_branch_type) is None {
                Err("missing group branch kind"@)
            } else {
                Ok(StatementView::GroupElse(last_label(cs), loc))
            }
        } else if c.rule == Rule::group_end {
            match group_end_fold(cs) {
                Err(m) => Err(m),
                Ok(k) => Ok(StatementView::GroupEnd(k, loc)),
            }
        } else {
            Err("unsupported group command: "@ + rule_text(c.rule))
        }
    }
}

/// The kind read from the parts `cs` of a group end, or why the first
/// refused kind is refused.
pub open spec fn group_end_fold(cs: Seq<ParseNode>) -> Result<Option<GroupKind>, Seq<char>>
    decreases cs.len(),
{
    if cs.len() == 0 {
        Ok(None)
    } else {
        match group_end_fold(cs.drop_last()) {
            Err(m) => Err(m),
            Ok(k) => if cs.last().rule == Rule::group_start_type {
                match group_kind_model(cs.last()) {
                    Err(m) => Err(m),
                    Ok(x) => Ok(Some(x)),
                }
            } else {
                Ok(k)
            },
        }
    }
}

proof fn lemma_group_end_fold_prefix(cs: Seq<ParseNode>, k: int)
    requires
        0 <= k <= cs.len(),
    ensures
        group_end_fold(cs.take(k)) matches Err(m) ==> group_end_fold(cs) == Err::<Option<GroupKind>, Seq<char>>(m),
    decreases cs.len(),
{
    if k < cs.len() {
        assert(cs.drop_last().take(k) =~= cs.take(k));
        lemma_group_end_fold_prefix(cs.drop_last(), k);
    } else {
        assert(cs.take(k) =~= cs);
    }
}

/// The participants and text found so far while walking a `ref` block.
pub type RefFound = (Seq<Seq<char>>, Option<Seq<char>>);

/// Walks a match of a `ref` block in order: a participant list adds its
/// references, a text part with non-blank text sets the text, any other rule
/// is walked into.
pub open spec fn ref_walk(n: ParseNode, found: RefFound) -> RefFound
    decreases n,
{
    if n.rule == Rule::participant_list {
        (
            found.0 + with_rule(n.children@, Rule::participant_ref).map_values(
                |p: ParseNode| participant_ref_text(p),
            ),
            found.1,
        )
    } else if n.rule == Rule::sequence_text_content || n.rule == Rule::ref_body {
        if trim(n.text@).len() > 0 {
            (found.0, Some(trim(n.text@)))
        } else {
            found
        }
    } else {
        ref_walk_seq(n.children@, found)
    }
}

/// Walks the matches `cs` in order.
pub open spec fn ref_walk_seq(cs: Seq<ParseNode>, found: RefFound) -> RefFound
    decreases cs,
{
    if cs.len() == 0 {
        found
    } else {
        ref_walk(cs.last(), ref_walk_seq(cs.drop_last(), found))
    }
}

/// The label of a `return`: its first text part, trimmed, when not blank.
pub open spec fn return_label(cs: Seq<ParseNode>) -> Option<Seq<char>> {
    match first_with(cs, Rule::sequence_text_content) {
        Some(i) => if trim(cs[i].text@).len() > 0 {
            Some(trim(cs[i].text@))
        } else {
            None
        },
        None => None,
    }
}

/// The statements a statement match denotes in the file `path`, or why it is
/// refused; statements the grammar accepts but the diagram does not model
/// denote none.
pub open spec fn statement_model(n: ParseNode, path: Seq<char>) -> Result<Seq<StatementView>, Seq<char>> {
    let loc = LocView { file: path, line: n.line as u32 };
    if n.children@.len() == 0 {
        Err("empty statement"@)
    } else {
        let c = n.children@[0];
        if c.rule == Rule::participant_def {
            match participant_def_model(c, loc) {
                Err(m) => Err(m),
                Ok(d) => Ok(seq![StatementView::ParticipantDef(d)]),
            }
        } else if c.rule == Rule::lifecycle_cmd {
            lifecycle_model(c, loc)
        } else if c.rule == Rule::message {
            match message_model(c, loc) {
                Err(m) => Err(m),
                Ok(x) => Ok(seq![StatementView::Message(x)]),
            }
        } else if c.rule == Rule::group_cmd {
            match group_cmd_model(c, loc) {
                Err(m) => Err(m),
                Ok(g) => Ok(seq![g]),
            }
        } else if c.rule == Rule::ref_stmt {
            let found = ref_walk(c, (Seq::empty(), None));
            Ok(seq![StatementView::Ref(found.0, found.1, loc)])
        } else if c.rule == Rule::return_cmd {
            Ok(seq![StatementView::Return(return_label(c.children@), loc)])
        } else {
            Ok(Seq::empty())
        }
    }
}

/// The name on a `@startuml` line: its first name part, trimmed.
pub open spec fn startuml_name(n: ParseNode) -> Option<Seq<char>> {
    match first_with(n.children@, Rule::puml_name) {
        Some(i) => Some(trim(n.children@[i].text@)),
        None => None,
    }
}

impl PumlSequenceParser {
    /// Reads the kind, label and parallel mark of a group start.
    fn parse_group_start(node: &ParseNode, source_location: SourceLocation) -> (r: Result<GroupCmd, SequenceError>)
        ensures
            match group_start_fold(node.children@) {
                Err(m) => r matches Err(e) && is_invalid(e, m),
                Ok(st) => match st.0 {
                    None => r matches Err(e) && is_invalid(e, "missing group start kind"@),
                    Some(k) => r matches Ok(g) && statement_view(Statement::GroupCmd(g))
                        == StatementView::GroupStart(k, st.1, st.2, loc_view(source_location)),
                },
            },
    {
        let cs = &node.children;
        let mut kind: Option<GroupKind> = None;
        let mut label: Option<String> = None;
        let mut is_parallel = false;
        let mut i: usize = 0;
        while i < cs.len()
            invariant
                i <= cs@.len(),
                cs == node.children,
                group_start_fold(cs@.take(i as int)) matches Ok(st) && kind == st.0 && opt_seq(label) == st.1
                    && is_parallel == st.2,
            decreases cs@.len() - i,
        {
            proof {
                lemma_take_step(cs@, i as int);
            }
            let c = &cs[i];
            if c.rule == Rule::parallel_marker {
                is_parallel = true;
            } else if c.rule == Rule::group_start_type {
                match Self::parse_group_kind(c) {
                    Ok(k) => {
                        kind = Some(k);
                    },
                    Err(e) => {
                        proof {
                            assert(group_start_fold(cs@.take(i + 1)) matches Err(m) && is_invalid(e, m));
                            lemma_group_start_fold_prefix(cs@, i + 1);
                        }
                        return Err(e);
                    },
                }
            } else if c.rule == Rule::group_label {
                label = Some(trimmed_text(c));
            }
            i = i + 1;
        }
        assert(cs@.take(cs@.len() as int) =~= cs@);
        match kind {
            Some(kind) => Ok(GroupCmd::Start(GroupStart { kind, label, is_parallel, source_location })),
            None => Err(invalid("missing group start kind")),
        }
    }

    /// Reads an `else` branch of a group.
    fn parse_group_branch(node: &ParseNode, source_location: SourceLocation) -> (r: Result<GroupCmd, SequenceError>)
        ensures
            last_with(node.children@, Rule::group_branch_type) is None ==> (r matches Err(e) && is_invalid(
                e,
                "missing group branch kind"@,
            )),
            last_with(node.children@, Rule::group_branch_type) is Some ==> (r matches Ok(g) && statement_view(
                Statement::GroupCmd(g),
            ) == StatementView::GroupElse(last_label(node.children@), loc_view(source_location))),
    {
        let has_else = find_last(&node.children, Rule::group_branch_type).is_some();
        let label = match last_text(&node.children, Rule::group_label) {
            Some(t) => {
                let v = chars_of(t.as_str());
                let tr = trimmed_chars(v.as_slice());
                Some(string_of(tr.as_slice()))
            },
            None => None,
        };
        if !has_else {
            return Err(invalid("missing group branch kind"));
        }
        Ok(GroupCmd::Else(GroupElse { label, source_location }))
    }

    /// Reads the end of a group.
    fn parse_group_end(node: &ParseNode, source_location: SourceLocation) -> (r: Result<GroupCmd, SequenceError>)
        ensures
            match group_end_fold(node.children@) {
                Err(m) => r matches Err(e) && is_invalid(e, m),
                Ok(k) => r matches Ok(g) && statement_view(Statement::GroupCmd(g)) == StatementView::GroupEnd(
                    k,
                    loc_view(source_location),
                ),
            },
    {
        let cs = &node.children;
        let mut kind: Option<GroupKind> = None;
        let mut i: usize = 0;
        while i < cs.len()
            invariant
                i <= cs@.len(),
                cs == node.children,
                group_end_fold(cs@.take(i as int)) == Ok::<Option<GroupKind>, Seq<char>>(kind),
            decreases cs@.len() - i,
        {
            proof {
                lemma_take_step(cs@, i as int);
            }
            if cs[i].rule == Rule::group_start_type {
                match Self::parse_group_kind(&cs[i]) {
                    Ok(k) => {
                        kind = Some(k);
                    },
                    Err(e) => {
                        proof {
                            assert(group_end_fold(cs@.take(i + 1)) matches Err(m) && is_invalid(e, m));
                            lemma_group_end_fold_prefix(cs@, i + 1);
                        }
                        return Err(e);
                    },
                }
            }
            i = i + 1;
        }
        assert(cs@.take(cs@.len() as int) =~= cs@);
        Ok(GroupCmd::End(GroupEnd { kind, source_location }))
    }

    /// Reads a group command: a start, an `else` branch or an end.
    pub fn parse_group_cmd(node: &ParseNode, source_location: SourceLocation) -> (r: Result<GroupCmd, SequenceError>)
        ensures
            match group_cmd_model(*node, loc_view(source_location)) {
                Ok(v) => r matches Ok(g) && statement_view(Statement::GroupCmd(g)) == v,
                Err(m) => r matches Err(e) && is_invalid(e, m),
            },
    {
        if node.children.len() == 0 {
            return Err(invalid("empty group command"));
        }
        let inner = &node.children[0];
        if inner.rule == Rule::group_start {
            Self::parse_group_start(inner, source_location)
        } else if inner.rule == Rule::group_branch {
            Self::parse_group_branch(inner, source_location)
        } else if inner.rule == Rule::group_end {
            Self::parse_group_end(inner, source_location)
        } else {
            Err(invalid_rule("unsupported group command: ", inner.rule))
        }
    }
}

/// The statements of a sequence diagram match: the parts of its top-level
/// `sequence_start` matches, in order.
pub open spec fn document_items(pairs: Seq<ParseNode>) -> Seq<ParseNode>
    decreases pairs.len(),
{
    if pairs.len() == 0 {
        Seq::empty()
    } else if pairs.last().rule == Rule::sequence_start {
        document_items(pairs.drop_last()) + pairs.last().children@
    } else {
        document_items(pairs.drop_last())
    }
}

/// The name and statements read from the parts `items` of a diagram in the
/// file `path`, or why the first refused statement is refused: a `@startuml`
/// line sets the name, each statement appends what it denotes.
pub open spec fn document_fold(items: Seq<ParseNode>, path: Seq<char>) -> Result<
    (Option<Seq<char>>, Seq<StatementView>),
    Seq<char>,
>
    decreases items.len(),
{
    if items.len() == 0 {
        Ok((None, Seq::empty()))
    } else {
        match document_fold(items.drop_last(), path) {
            Err(m) => Err(m),
            Ok(st) => {
                let c = items.last();
                if c.rule == Rule::startuml {
                    Ok((startuml_name(c), st.1))
                } else if c.rule == Rule::sequence_statement {
                    match statement_model(c, path) {
                        Err(m) => Err(m),
                        Ok(v) => Ok((st.0, st.1 + v)),
                    }
                } else {
                    Ok(st)
                }
            },
        }
    }
}

/// A refused statement stays the first refused one whatever follows it.
proof fn lemma_document_fold_extend(a: Seq<ParseNode>, b: Seq<ParseNode>, path: Seq<char>)
    ensures
        document_fold(a, path) matches Err(m) ==> document_fold(a + b, path) == Err::<
            (Option<Seq<char>>, Seq<StatementView>),
            Seq<char>,
        >(m),
    decreases b.len(),
{
    if b.len() == 0 {
        assert(a + b =~= a);
    } else {
        assert((a + b).drop_last() =~= a + b.drop_last());
        lemma_document_fold_extend(a, b.drop_last(), path);
    }
}

/// The statements of concatenated matches are those of each, concatenated.
proof fn lemma_document_items_concat(a: Seq<ParseNode>, b: Seq<ParseNode>)
    ensures
        document_items(a + b) == document_items(a) + document_items(b),
    decreases b.len(),
{
    if b.len() == 0 {
        assert(a + b =~= a);
        assert(document_items(a) + document_items(b) =~= document_items(a));
    } else {
        assert((a + b).drop_last() =~= a + b.drop_last());
        lemma_document_items_concat(a, b.drop_last());
        if b.last().rule == Rule::sequence_start {
            assert(document_items(a) + (document_items(b.drop_last()) + b.last().children@) =~= (document_items(a)
                + document_items(b.drop_last())) + b.last().children@);
        }
    }
}

/// The diagram a sequence of top-level matches denotes in the file `path`,
/// or why it is refused.
pub open spec fn document_model(pairs: Seq<ParseNode>, path: Seq<char>) -> Result<
    (Option<Seq<char>>, Seq<StatementView>),
    Seq<char>,
> {
    document_fold(document_items(pairs), path)
}

impl PumlSequenceParser {
    /// Collects the participants and text of a `ref` block.
    pub fn extract_ref_parts(node: &ParseNode, participants: &mut Vec<ParticipantRef>, text: &mut Option<String>)
        ensures
            (ref_ids(final(participants)@), opt_seq(*final(text))) == ref_walk(
                *node,
                (ref_ids(old(participants)@), opt_seq(*old(text))),
            ),
        decreases node,
    {
        let cs = &node.children;
        if node.rule == Rule::participant_list {
            let ghost base = ref_ids(participants@);
            let mut i: usize = 0;
            while i < cs.len()
                invariant
                    i <= cs@.len(),
                    cs == node.children,
                    base == ref_ids(old(participants)@),
                    opt_seq(*text) == opt_seq(*old(text)),
                    ref_ids(participants@) == base + with_rule(cs@.take(i as int), Rule::participant_ref).map_values(
                        |p: ParseNode| participant_ref_text(p),
                    ),
                decreases cs@.len() - i,
            {
                proof {
                    lemma_last_step(cs@, i as int, Rule::participant_ref);
                }
                if cs[i].rule == Rule::participant_ref {
                    let ghost before = participants@;
                    let p = Self::parse_participant_ref(&cs[i]);
                    participants.push(p);
                    proof {
                        assert(ref_ids(participants@) =~= ref_ids(before).push(p.identifier@));
                        assert(with_rule(cs@.take(i + 1), Rule::participant_ref).map_values(
                            |p: ParseNode| participant_ref_text(p),
                        ) =~= with_rule(cs@.take(i as int), Rule::participant_ref).map_values(
                            |p: ParseNode| participant_ref_text(p),
                        ).push(participant_ref_text(cs@[i as int])));
                    }
                }
                i = i + 1;
            }
            assert(cs@.take(cs@.len() as int) =~= cs@);
        } else if node.rule == Rule::sequence_text_content || node.rule == Rule::ref_body {
            let v = chars_of(node.text.as_str());
            let value = trimmed_chars(v.as_slice());
            if value.len() > 0 {
                *text = Some(string_of(value.as_slice()));
            }
        } else {
            let ghost start = (ref_ids(participants@), opt_seq(*text));
            let mut i: usize = 0;
            while i < cs.len()
                invariant
                    i <= cs@.len(),
                    cs == node.children,
                    node.rule != Rule::participant_list,
                    node.rule != Rule::sequence_text_content && node.rule != Rule::ref_body,
                    start == (ref_ids(old(participants)@), opt_seq(*old(text))),
                    (ref_ids(participants@), opt_seq(*text)) == ref_walk_seq(cs@.take(i as int), start),
                decreases cs@.len() - i,
            {
                proof {
                    lemma_take_step(cs@, i as int);
                }
                Self::extract_ref_parts(&cs[i], participants, text);
                i = i + 1;
            }
            assert(cs@.take(cs@.len() as int) =~= cs@);
        }
    }

    /// Reads a `ref` block: the participants it spans and its text.
    pub fn parse_ref_cmd(node: &ParseNode, source_location: SourceLocation) -> (r: RefCmd)
        ensures
            ({
                let found = ref_walk(*node, (Seq::empty(), None));
                statement_view(Statement::RefCmd(r)) == StatementView::Ref(found.0, found.1, loc_view(source_location))
            }),
    {
        let mut participants: Vec<ParticipantRef> = Vec::new();
        let mut text: Option<String> = None;
        proof {
            assert(ref_ids(participants@) =~= Seq::<Seq<char>>::empty());
        }
        Self::extract_ref_parts(node, &mut participants, &mut text);
        RefCmd { participants, text, source_location }
    }

    /// Reads a `return`: its first text part, trimmed, when not blank.
    pub fn parse_return_cmd(node: &ParseNode, source_location: SourceLocation) -> (r: ReturnCmd)
        ensures
            opt_seq(r.label) == return_label(node.children@),
            loc_view(r.source_location) == loc_view(source_location),
    {
        proof {
            lemma_first_with(node.children@, Rule::sequence_text_content);
        }
        let label = match find_first(&node.children, Rule::sequence_text_content) {
            Some(i) => {
                let v = chars_of(node.children[i].text.as_str());
                let t = trimmed_chars(v.as_slice());
                if t.len() > 0 {
                    Some(string_of(t.as_slice()))
                } else {
                    None
                }
            },
            None => None,
        };
        ReturnCmd { label, source_location }
    }

    /// Reads one statement of a sequence diagram in the file `source_path`:
    /// what it denotes, located at the line it starts on; statements the
    /// grammar accepts but the diagram does not model yield none.
    pub fn parse_statement(node: &ParseNode, source_path: &str) -> (r: Result<Vec<Statement>, SequenceError>)
        ensures
            match statement_model(*node, source_path@) {
                Ok(v) => r matches Ok(x) && statement_views(x@) == v,
                Err(m) => r matches Err(e) && is_invalid(e, m),
            },
    {
        let source_location = SourceLocation::new(source_path, node.line as u32);
        if node.children.len() == 0 {
            return Err(invalid("empty statement"));
        }
        let inner = &node.children[0];
        let ghost loc = loc_view(source_location);
        let mut out: Vec<Statement> = Vec::new();
        if inner.rule == Rule::participant_def {
            match Self::parse_participant_def(inner, source_location) {
                Ok(d) => out.push(Statement::ParticipantDef(d)),
                Err(e) => {
                    return Err(e);
                },
            }
        } else if inner.rule == Rule::lifecycle_cmd {
            return Self::parse_lifecycle_cmd(inner, source_location);
        } else if inner.rule == Rule::message {
            match Self::parse_message(inner, source_location) {
                Ok(m) => out.push(Statement::Message(m)),
                Err(e) => {
                    return Err(e);
                },
            }
        } else if inner.rule == Rule::group_cmd {
            match Self::parse_group_cmd(inner, source_location) {
                Ok(g) => out.push(Statement::GroupCmd(g)),
                Err(e) => {
                    return Err(e);
                },
            }
        } else if inner.rule == Rule::ref_stmt {
            out.push(Statement::RefCmd(Self::parse_ref_cmd(inner, source_location)));
        } else if inner.rule == Rule::return_cmd {
            out.push(Statement::ReturnCmd(Self::parse_return_cmd(inner, source_location)));
        }
        proof {
            assert(statement_views(out@) =~= statement_model(*node, source_path@)->Ok_0);
        }
        Ok(out)
    }

    /// The name on a `@startuml` line.
    pub fn parse_startuml(node: &ParseNode) -> (r: Option<String>)
        ensures
            opt_seq(r) == startuml_name(*node),
    {
        proof {
            lemma_first_with(node.children@, Rule::puml_name);
        }
        match find_first(&node.children, Rule::puml_name) {
            Some(i) => Some(trimmed_text(&node.children[i])),
            None => None,
        }
    }

    /// Builds the diagram the top-level matches `pairs` of a sequence diagram
    /// denote in the file `source_path`: the name of its `@startuml` line and
    /// its statements in order; the first refused statement refuses it.
    pub fn parse_document(pairs: &Vec<ParseNode>, source_path: &str) -> (r: Result<SeqPumlDocument, SequenceError>)
        ensures
            match document_model(pairs@, source_path@) {
                Ok(st) => r matches Ok(d) && opt_seq(d.name) == st.0 && statement_views(d.statements@) == st.1,
                Err(m) => r matches Err(e) && is_invalid(e, m),
            },
    {
        let mut document = SeqPumlDocument { name: None, statements: Vec::new() };
        let ghost path = source_path@;
        proof {
            assert(statement_views(document.statements@) =~= Seq::<StatementView>::empty());
            assert(pairs@.take(0) =~= Seq::<ParseNode>::empty());
        }
        let mut i: usize = 0;
        while i < pairs.len()
            invariant
                i <= pairs@.len(),
                path == source_path@,
                document_fold(document_items(pairs@.take(i as int)), path) matches Ok(st) && opt_seq(document.name)
                    == st.0 && statement_views(document.statements@) == st.1,
            decreases pairs@.len() - i,
        {
            proof {
                lemma_take_step(pairs@, i as int);
            }
            let pair = &pairs[i];
            if pair.rule == Rule::sequence_start {
                let cs = &pair.children;
                let ghost prior = document_items(pairs@.take(i as int));
                proof {
                    assert(prior + cs@.take(0) =~= prior);
                }
                let mut j: usize = 0;
                while j < cs.len()
                    invariant
                        j <= cs@.len(),
                        cs == pair.children,
                        *pair == pairs@[i as int],
                        i < pairs@.len(),
                        path == source_path@,
                        prior == document_items(pairs@.take(i as int)),
                        document_items(pairs@.take(i + 1)) == prior + cs@,
                        document_fold(prior + cs@.take(j as int), path) matches Ok(st) && opt_seq(document.name)
                            == st.0 && statement_views(document.statements@) == st.1,
                    decreases cs@.len() - j,
                {
                    proof {
                        lemma_take_step(cs@, j as int);
                        assert((prior + cs@.take(j + 1)).drop_last() =~= prior + cs@.take(j as int));
                        assert((prior + cs@.take(j + 1)).last() == cs@[j as int]);
                    }
                    let c = &cs[j];
                    if c.rule == Rule::startuml {
                        document.name = Self::parse_startuml(c);
                    } else if c.rule == Rule::sequence_statement {
                        match Self::parse_statement(c, source_path) {
                            Ok(mut v) => {
                                let ghost before = document.statements@;
                                let ghost added = v@;
                                document.statements.append(&mut v);
                                proof {
                                    assert(statement_views(document.statements@) =~= statement_views(before)
                                        + statement_views(added));
                                }
                            },
                            Err(e) => {
                                proof {
                                    let seen = prior + cs@.take(j + 1);
                                    assert(document_fold(seen, path) matches Err(m) && is_invalid(e, m));
                                    let rest = cs@.skip(j + 1) + document_items(pairs@.skip(i + 1));
                                    assert(pairs@ =~= pairs@.take(i + 1) + pairs@.skip(i + 1));
                                    lemma_document_items_concat(pairs@.take(i + 1), pairs@.skip(i + 1));
                                    assert(cs@ =~= cs@.take(j + 1) + cs@.skip(j + 1));
                                    assert(document_items(pairs@) =~= seen + rest);
                                    lemma_document_fold_extend(seen, rest, path);
                                }
                                return Err(e);
                            },
                        }
                    }
                    j = j + 1;
                }
                proof {
                    assert(cs@.take(cs@.len() as int) =~= cs@);
                }
            }
            i = i + 1;
        }
        assert(pairs@.take(pairs@.len() as int) =~= pairs@);
        Ok(document)
    }
}

} // verus!

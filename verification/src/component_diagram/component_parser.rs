//! Builds the statements of a component diagram from the parse tree the
//! component grammar produces.
use vstd::prelude::*;
use crate::class_diagram::class_parser::{strip_quotes, without_quotes};
use crate::component_diagram::component_ast::{
    CompPumlDocument, ComponentStyle, Element, IdentityView, Port, PortType, PortView, Relation, RelationView,
    Statement, StmtView, StyleView, lemma_element_view, opt_seq, port_view, relation_view, stmt_view, stmt_views,
    style_view,
};
use crate::linker_input::ov;
use crate::parser_core::common_ast::{Arrow, ArrowView, ElementIdentity, arrow_view};
use crate::parser_core::common_parser::{arrow_error, arrow_model, parse_arrow as common_parse_arrow};
use crate::parser_core::note_utils::{IgnoredNoteRegistry, find_note_alias, is_note_rule, note_alias_of};
use crate::parser_core::parse_tree::{
    ParseNode, Rule, find_last, first_text, first_text_with, first_with, last_text, last_with, lemma_first_with,
    lemma_last_with, lemma_take_step, text_with,
};
use crate::source_location::SourceLocation;
use crate::text::{chars_of, concat_text, is_literal, string_of, trim, trimmed_chars};

verus! {

/// Why a component statement could not be built.
#[derive(Debug, Clone, PartialEq)]
pub enum ComponentError {
    InvalidStatement(String),
}

/// Whether `e` is the invalid-statement error with message `m`.
pub open spec fn is_invalid(e: ComponentError, m: Seq<char>) -> bool {
    e matches ComponentError::InvalidStatement(s) && s@ == m
}

/// A text, or the empty text.
pub open spec fn or_empty(t: Option<Seq<char>>) -> Seq<char> {
    match t {
        Some(t) => t,
        None => Seq::empty(),
    }
}

/// The style a style block gives: no color and no attributes.
pub open spec fn plain_style() -> StyleView {
    StyleView { color: None, attributes: Seq::empty() }
}

/// The alias an alias clause names: its first alias identifier.
pub open spec fn alias_of(n: ParseNode) -> Option<Seq<char>> {
    first_text_with(n.children@, Rule::ALIAS_ID)
}

/// The stereotype a stereotype match names: its first stereotype name.
pub open spec fn stereotype_of(n: ParseNode) -> Option<Seq<char>> {
    first_text_with(n.children@, Rule::STEREOTYPE_NAME)
}

/// The name in a short form: the text of its first name part of rule `r`, or none.
pub open spec fn short_name(n: ParseNode, r: Rule) -> Seq<char> {
    or_empty(first_text_with(n.children@, r))
}

/// The name in a short interface form, without wrapping quotes.
pub open spec fn interface_name(n: ParseNode) -> Seq<char> {
    match first_text_with(n.children@, Rule::short_form_interface_name) {
        Some(t) => without_quotes(t),
        None => Seq::empty(),
    }
}

/// The direction a port keyword names.
pub open spec fn port_type_of(t: Option<Seq<char>>) -> PortType {
    match t {
        Some(k) => if k == "portin"@ {
            PortType::PortIn
        } else if k == "portout"@ {
            PortType::PortOut
        } else {
            PortType::Port
        },
        None => PortType::Port,
    }
}

/// `portin` declares an input port, `portout` an output port, and `port`
/// (or no keyword) a plain port.
pub proof fn lemma_port_keywords(t: Option<Seq<char>>)
    ensures
        port_type_of(t) == PortType::PortIn <==> t == Some("portin"@),
        port_type_of(t) == PortType::PortOut <==> t == Some("portout"@),
        port_type_of(t) == PortType::Port <==> !(t == Some("portin"@) || t == Some("portout"@)),
        port_type_of(Some("port"@)) == PortType::Port,
{
    reveal_strlit("portin");
    reveal_strlit("portout");
    reveal_strlit("port");
    assert("portin"@ != "portout"@) by {
        assert("portin"@.len() == 6 && "portout"@.len() == 7);
    }
    assert("portin"@ != "port"@) by {
        assert("portin"@.len() == 6 && "port"@.len() == 4);
    }
    assert("portout"@ != "port"@) by {
        assert("portout"@.len() == 7 && "port"@.len() == 4);
    }
}

/// The port a port declaration denotes: the direction of its last keyword,
/// the text of its last name, and the alias of its last alias clause.
pub open spec fn port_model(n: ParseNode) -> PortView {
    let cs = n.children@;
    PortView {
        port_type: port_type_of(text_with(cs, Rule::port_keyword)),
        name: or_empty(text_with(cs, Rule::port_name)),
        alias: match last_with(cs, Rule::alias_clause) {
            Some(i) => alias_of(cs[i]),
            None => None,
        },
    }
}

/// The kind and name of a default element head: the text of its last kind
/// keyword (or none), and its last name without wrapping quotes.
pub open spec fn default_element_model(n: ParseNode) -> (Seq<char>, Option<Seq<char>>) {
    let cs = n.children@;
    (
        or_empty(text_with(cs, Rule::element_kind)),
        match text_with(cs, Rule::default_element_name) {
            Some(t) => Some(without_quotes(t)),
            None => None,
        },
    )
}

/// The name of a bracket element head: the name of its last short component form.
pub open spec fn bracket_model(n: ParseNode) -> Option<Seq<char>> {
    let cs = n.children@;
    match last_with(cs, Rule::short_form_component) {
        Some(i) => Some(short_name(cs[i], Rule::short_form_component_name)),
        None => None,
    }
}

/// The left end, right end, arrow and description read from the parts `cs`
/// of a relation, or why its first refused arrow is refused.
pub open spec fn relation_fold(cs: Seq<ParseNode>) -> Result<
    (Seq<char>, Seq<char>, ArrowView, Option<Seq<char>>),
    Seq<char>,
>
    decreases cs.len(),
{
    if cs.len() == 0 {
        Ok((Seq::empty(), Seq::empty(), ArrowView { left: None, line: Seq::empty(), middle: None, right: None }, None))
    } else {
        match relation_fold(cs.drop_last()) {
            Err(m) => Err(m),
            Ok(st) => {
                let c = cs.last();
                if c.rule == Rule::relation_left {
                    Ok((without_quotes(c.text@), st.1, st.2, st.3))
                } else if c.rule == Rule::relation_right {
                    Ok((st.0, without_quotes(c.text@), st.2, st.3))
                } else if c.rule == Rule::connection_arrow {
                    match arrow_error(c) {
                        Some(m) => Err("invalid arrow: "@ + m),
                        None => Ok((st.0, st.1, arrow_model(c), st.3)),
                    }
                } else if c.rule == Rule::relation_description {
                    Ok(
                        (
                            st.0,
                            st.1,
                            st.2,
                            match first_text_with(c.children@, Rule::description_text) {
                                Some(t) => Some(trim(t)),
                                None => None,
                            },
                        ),
                    )
                } else {
                    Ok(st)
                }
            },
        }
    }
}

/// The relation a match denotes in the file `file`, or why it is refused.
pub open spec fn relation_model(n: ParseNode, file: Seq<char>) -> Result<RelationView, Seq<char>> {
    match relation_fold(n.children@) {
        Err(m) => Err(m),
        Ok(st) => Ok(
            RelationView {
                lhs: st.0,
                arrow: st.2,
                rhs: st.1,
                style: None,
                description: st.3,
                file,
                line: n.line as u32,
            },
        ),
    }
}

/// The aliases of ignored notes after reading a note match.
pub open spec fn register_note(notes: Set<Seq<char>>, n: ParseNode) -> Set<Seq<char>> {
    match note_alias_of(n) {
        Some(a) => notes.insert(a),
        None => notes,
    }
}

/// Whether a rule declares a note.
pub open spec fn note_rule(r: Rule) -> bool {
    r == Rule::note_single_line || r == Rule::note_multiline || r == Rule::note_declaration
}

/// Whether a rule starts a statement: an element, relation, port, `together`
/// block or note.
pub open spec fn statement_rule(r: Rule) -> bool {
    r == Rule::element || r == Rule::relation || r == Rule::port_declaration || r == Rule::together_block
        || note_rule(r)
}

/// The index of the first part of `cs` that starts a statement.
pub open spec fn first_statement(cs: Seq<ParseNode>) -> Option<int>
    decreases cs.len(),
{
    if cs.len() == 0 {
        None
    } else {
        match first_statement(cs.drop_last()) {
            Some(i) => Some(i),
            None => if statement_rule(cs.last().rule) {
                Some(cs.len() - 1)
            } else {
                None
            },
        }
    }
}

/// What an element has read so far: its kind, name, alias, stereotype,
/// style, nested statements, and the aliases of ignored notes.
pub struct ElemState {
    pub kind: Seq<char>,
    pub name: Option<Seq<char>>,
    pub alias: Option<Seq<char>>,
    pub stereotype: Option<Seq<char>>,
    pub style: Option<StyleView>,
    pub statements: Seq<StmtView>,
    pub notes: Set<Seq<char>>,
}

/// An element after reading the parts `gs` of its nested head: a default
/// head sets its kind and name, a bracket head makes it a component.
pub open spec fn nested_heads(st: ElemState, gs: Seq<ParseNode>) -> ElemState
    decreases gs.len(),
{
    if gs.len() == 0 {
        st
    } else {
        let s = nested_heads(st, gs.drop_last());
        let g = gs.last();
        if g.rule == Rule::default_element {
            let (kind, name) = default_element_model(g);
            ElemState { kind, name, ..s }
        } else if g.rule == Rule::bracket_element {
            ElemState { kind: "component"@, name: bracket_model(g), ..s }
        } else {
            s
        }
    }
}

/// An element after reading the parts `ms` of an element modifier: alias
/// clauses and stereotypes.
pub open spec fn element_modifiers(st: ElemState, ms: Seq<ParseNode>) -> ElemState
    decreases ms.len(),
{
    if ms.len() == 0 {
        st
    } else {
        let s = element_modifiers(st, ms.drop_last());
        let m = ms.last();
        if m.rule == Rule::alias_clause {
            ElemState { alias: alias_of(m), ..s }
        } else if m.rule == Rule::stereotype {
            ElemState { stereotype: stereotype_of(m), ..s }
        } else {
            s
        }
    }
}

/// An element with no parts read, given the aliases of ignored notes.
pub open spec fn fresh_element(notes: Set<Seq<char>>) -> ElemState {
    ElemState {
        kind: Seq::empty(),
        name: None,
        alias: None,
        stereotype: None,
        style: None,
        statements: Seq::empty(),
        notes,
    }
}

/// An element after reading the parts `cs` in the file `file`, or why a
/// nested statement is refused.
pub open spec fn element_fold(cs: Seq<ParseNode>, file: Seq<char>, notes: Set<Seq<char>>) -> Result<
    ElemState,
    Seq<char>,
>
    decreases cs,
{
    if cs.len() == 0 {
        Ok(fresh_element(notes))
    } else {
        match element_fold(cs.drop_last(), file, notes) {
            Err(m) => Err(m),
            Ok(s) => {
                let c = cs.last();
                if c.rule == Rule::nested_element {
                    Ok(nested_heads(s, c.children@))
                } else if c.rule == Rule::short_form_component {
                    Ok(ElemState { name: Some(short_name(c, Rule::short_form_component_name)), kind: "component"@, ..s })
                } else if c.rule == Rule::short_form_actor {
                    Ok(ElemState { name: Some(short_name(c, Rule::short_form_actor_name)), kind: "actor"@, ..s })
                } else if c.rule == Rule::short_form_interface {
                    Ok(ElemState { name: Some(interface_name(c)), kind: "interface"@, ..s })
                } else if c.rule == Rule::short_form_usecase {
                    Ok(ElemState { name: Some(short_name(c, Rule::short_form_usecase_name)), kind: "usecase"@, ..s })
                } else if c.rule == Rule::alias_clause {
                    Ok(ElemState { alias: alias_of(c), ..s })
                } else if c.rule == Rule::stereotype {
                    Ok(ElemState { stereotype: stereotype_of(c), ..s })
                } else if c.rule == Rule::element_modifier {
                    Ok(element_modifiers(s, c.children@))
                } else if c.rule == Rule::element_style {
                    Ok(ElemState { style: Some(plain_style()), ..s })
                } else if c.rule == Rule::statement_block {
                    match block_fold(c.children@, file, s.notes) {
                        Err(m) => Err(m),
                        Ok(b) => Ok(ElemState { statements: b.0, notes: b.1, ..s }),
                    }
                } else {
                    Ok(s)
                }
            },
        }
    }
}

/// The element a match denotes in the file `file`, with the aliases of
/// ignored notes after it, or why a nested statement is refused.
pub open spec fn element_model(n: ParseNode, file: Seq<char>, notes: Set<Seq<char>>) -> Result<
    (StmtView, Set<Seq<char>>),
    Seq<char>,
>
    decreases n,
{
    match element_fold(n.children@, file, notes) {
        Err(m) => Err(m),
        Ok(s) => Ok(
            (
                StmtView::Element(
                    IdentityView {
                        name: s.name,
                        alias: s.alias,
                        stereotype: s.stereotype,
                        element_kind: s.kind,
                        file,
                        line: n.line as u32,
                    },
                    s.style,
                    s.statements,
                ),
                s.notes,
            ),
        ),
    }
}

/// The statements of a block's parts `cs` in the file `file`, with the
/// aliases of ignored notes after them, or why the first refused statement
/// is refused: statements are appended, notes are registered.
pub open spec fn block_fold(cs: Seq<ParseNode>, file: Seq<char>, notes: Set<Seq<char>>) -> Result<
    (Seq<StmtView>, Set<Seq<char>>),
    Seq<char>,
>
    decreases cs,
{
    if cs.len() == 0 {
        Ok((Seq::empty(), notes))
    } else {
        match block_fold(cs.drop_last(), file, notes) {
            Err(m) => Err(m),
            Ok(st) => {
                let c = cs.last();
                if c.rule == Rule::diagram_statement {
                    match statement_model(c, file, st.1) {
                        Err(m) => Err(m),
                        Ok(x) => Ok((st.0 + x.0, x.1)),
                    }
                } else if note_rule(c.rule) {
                    Ok((st.0, register_note(st.1, c)))
                } else {
                    Ok(st)
                }
            },
        }
    }
}

/// The statements a statement match denotes in the file `file` — those of
/// its first part that starts a statement — with the aliases of ignored
/// notes after it, or why it is refused.
pub open spec fn statement_model(n: ParseNode, file: Seq<char>, notes: Set<Seq<char>>) -> Result<
    (Seq<StmtView>, Set<Seq<char>>),
    Seq<char>,
>
    decreases n,
{
    let cs = n.children@;
    match first_statement(cs) {
        None => Ok((Seq::empty(), notes)),
        Some(i) => {
            if 0 <= i < cs.len() {
                let c = cs[i];
                if c.rule == Rule::element {
                    match element_model(c, file, notes) {
                        Err(m) => Err(m),
                        Ok(x) => Ok((seq![x.0], x.1)),
                    }
                } else if c.rule == Rule::relation {
                    match relation_model(c, file) {
                        Err(m) => Err(m),
                        Ok(r) => Ok((seq![StmtView::Relation(r)], notes)),
                    }
                } else if c.rule == Rule::port_declaration {
                    Ok((seq![StmtView::Port(port_model(c))], notes))
                } else if c.rule == Rule::together_block {
                    block_fold(c.children@, file, notes)
                } else {
                    Ok((Seq::empty(), register_note(notes, c)))
                }
            } else {
                Ok((Seq::empty(), notes))
            }
        },
    }
}

/// The statements `v` without the relations that touch an ignored note, at
/// any depth.
pub open spec fn without_note_relations(v: Seq<StmtView>, notes: Set<Seq<char>>) -> Seq<StmtView>
    decreases v,
{
    if v.len() == 0 {
        Seq::empty()
    } else {
        let rest = without_note_relations(v.drop_last(), notes);
        match v.last() {
            StmtView::Relation(r) => if notes.contains(r.lhs) || notes.contains(r.rhs) {
                rest
            } else {
                rest.push(v.last())
            },
            StmtView::Element(id, style, inner) => rest.push(
                StmtView::Element(id, style, without_note_relations(inner, notes)),
            ),
            StmtView::Port(_) => rest.push(v.last()),
        }
    }
}

/// Whether no relation among `v`, at any depth, touches an ignored note.
pub open spec fn avoids_notes(v: Seq<StmtView>, notes: Set<Seq<char>>) -> bool
    decreases v,
{
    if v.len() == 0 {
        true
    } else {
        &&& avoids_notes(v.drop_last(), notes)
        &&& match v.last() {
            StmtView::Relation(r) => !notes.contains(r.lhs) && !notes.contains(r.rhs),
            StmtView::Element(_, _, inner) => avoids_notes(inner, notes),
            StmtView::Port(_) => true,
        }
    }
}

/// After filtering, no relation touches an ignored note, at any depth.
pub proof fn lemma_filtered_relations_avoid_notes(v: Seq<StmtView>, notes: Set<Seq<char>>)
    ensures
        avoids_notes(without_note_relations(v, notes), notes),
    decreases v,
{
    if v.len() > 0 {
        lemma_filtered_relations_avoid_notes(v.drop_last(), notes);
        let rest = without_note_relations(v.drop_last(), notes);
        match v.last() {
            StmtView::Element(id, style, inner) => {
                lemma_filtered_relations_avoid_notes(inner, notes);
                assert(rest.push(StmtView::Element(id, style, without_note_relations(inner, notes))).drop_last()
                    == rest);
            },
            _ => {
                assert(rest.push(v.last()).drop_last() == rest);
            },
        }
    }
}

/// The diagram's parts: the parts of its top-level matches, in order.
pub open spec fn document_items(pairs: Seq<ParseNode>) -> Seq<ParseNode>
    decreases pairs.len(),
{
    if pairs.len() == 0 {
        Seq::empty()
    } else {
        document_items(pairs.drop_last()) + pairs.last().children@
    }
}

/// The name, statements and aliases of ignored notes read from the parts
/// `items` of a diagram in the file `file`, or why the first refused
/// statement is refused.
pub open spec fn document_fold(items: Seq<ParseNode>, file: Seq<char>) -> Result<
    (Option<Seq<char>>, Seq<StmtView>, Set<Seq<char>>),
    Seq<char>,
>
    decreases items.len(),
{
    if items.len() == 0 {
        Ok((None, Seq::empty(), Set::empty()))
    } else {
        match document_fold(items.drop_last(), file) {
            Err(m) => Err(m),
            Ok(st) => {
                let c = items.last();
                if c.rule == Rule::startuml {
                    match first_text_with(c.children@, Rule::puml_name) {
                        Some(t) => Ok((Some(t), st.1, st.2)),
                        None => Ok(st),
                    }
                } else if c.rule == Rule::diagram_statement {
                    match statement_model(c, file, st.2) {
                        Err(m) => Err(m),
                        Ok(x) => Ok((st.0, st.1 + x.0, x.1)),
                    }
                } else if note_rule(c.rule) {
                    Ok((st.0, st.1, register_note(st.2, c)))
                } else {
                    Ok(st)
                }
            },
        }
    }
}

/// The diagram the top-level matches `pairs` denote in the file `file`: its
/// name and its statements without the relations that touch an ignored
/// note, or why it is refused.
pub open spec fn document_model(pairs: Seq<ParseNode>, file: Seq<char>) -> Result<
    (Option<Seq<char>>, Seq<StmtView>),
    Seq<char>,
> {
    match document_fold(document_items(pairs), file) {
        Err(m) => Err(m),
        Ok(st) => Ok((st.0, without_note_relations(st.1, st.2))),
    }
}

/// Builds component diagrams from the matches of the component grammar.
pub struct PumlComponentParser;

impl PumlComponentParser {
    /// An interface name without the double quotes that wrap it, if it has both.
    pub fn strip_wrapping_quotes(raw: &str) -> (r: String)
        ensures
            r@ == without_quotes(raw@),
    {
        strip_quotes(raw)
    }

    /// Records the alias a note declares, if any, among the ignored notes.
    pub fn register_ignored_note(ignored_notes: &mut IgnoredNoteRegistry, node: &ParseNode)
        ensures
            final(ignored_notes)@ == register_note(old(ignored_notes)@, *node),
    {
        match find_note_alias(node) {
            Some(alias) => ignored_notes.register(alias.as_str()),
            None => {},
        }
    }

    /// The alias an alias clause names.
    pub fn extract_alias(node: &ParseNode) -> (r: Option<String>)
        ensures
            ov(r) == alias_of(*node),
    {
        first_text(&node.children, Rule::ALIAS_ID)
    }

    /// The stereotype a stereotype match names.
    pub fn extract_stereotype(node: &ParseNode) -> (r: Option<String>)
        ensures
            ov(r) == stereotype_of(*node),
    {
        first_text(&node.children, Rule::STEREOTYPE_NAME)
    }

    /// The text of the first name part of rule `r`, or the empty name.
    fn short_form_name(node: &ParseNode, r: Rule) -> (s: String)
        ensures
            s@ == short_name(*node, r),
    {
        match first_text(&node.children, r) {
            Some(t) => t,
            None => String::new(),
        }
    }

    /// The name in a short component form (`[Name]`).
    pub fn extract_component_name(node: &ParseNode) -> (r: String)
        ensures
            r@ == short_name(*node, Rule::short_form_component_name),
    {
        Self::short_form_name(node, Rule::short_form_component_name)
    }

    /// The name in a short actor form (`:Name:`).
    pub fn extract_actor_name(node: &ParseNode) -> (r: String)
        ensures
            r@ == short_name(*node, Rule::short_form_actor_name),
    {
        Self::short_form_name(node, Rule::short_form_actor_name)
    }

    /// The name in a short interface form (`()Name`), without wrapping quotes.
    pub fn extract_interface_name(node: &ParseNode) -> (r: String)
        ensures
            r@ == interface_name(*node),
    {
        match first_text(&node.children, Rule::short_form_interface_name) {
            Some(t) => Self::strip_wrapping_quotes(t.as_str()),
            None => String::new(),
        }
    }

    /// The name in a short use case form (`(Name)`).
    pub fn extract_usecase_name(node: &ParseNode) -> (r: String)
        ensures
            r@ == short_name(*node, Rule::short_form_usecase_name),
    {
        Self::short_form_name(node, Rule::short_form_usecase_name)
    }

    /// Reads a port declaration.
    pub fn parse_port(node: &ParseNode) -> (r: Result<Port, ComponentError>)
        ensures
            r matches Ok(p) && port_view(p) == port_model(*node),
    {
        let cs = &node.children;
        let port_type = match last_text(cs, Rule::port_keyword) {
            Some(k) => {
                let v = chars_of(k.as_str());
                if is_literal(v.as_slice(), "portin") {
                    PortType::PortIn
                } else if is_literal(v.as_slice(), "portout") {
                    PortType::PortOut
                } else {
                    PortType::Port
                }
            },
            None => PortType::Port,
        };
        let name = match last_text(cs, Rule::port_name) {
            Some(t) => t,
            None => String::new(),
        };
        proof {
            lemma_last_with(cs@, Rule::alias_clause);
        }
        let alias = match find_last(cs, Rule::alias_clause) {
            Some(i) => Self::extract_alias(&cs[i]),
            None => None,
        };
        Ok(Port { port_type, name, alias })
    }

    /// Reads the kind and name of a default element head.
    pub fn parse_default_element(node: &ParseNode) -> (r: Result<(String, Option<String>), ComponentError>)
        ensures
            r matches Ok(x) && (x.0@, ov(x.1)) == default_element_model(*node),
    {
        let kind = match last_text(&node.children, Rule::element_kind) {
            Some(k) => k,
            None => String::new(),
        };
        let name = match last_text(&node.children, Rule::default_element_name) {
            Some(t) => Some(Self::strip_wrapping_quotes(t.as_str())),
            None => None,
        };
        Ok((kind, name))
    }

    /// Reads the name of a bracket element head.
    pub fn parse_bracket_element(node: &ParseNode) -> (r: Result<Option<String>, ComponentError>)
        ensures
            r matches Ok(x) && ov(x) == bracket_model(*node),
    {
        proof {
            lemma_last_with(node.children@, Rule::short_form_component);
        }
        match find_last(&node.children, Rule::short_form_component) {
            Some(i) => Ok(Some(Self::extract_component_name(&node.children[i]))),
            None => Ok(None),
        }
    }

    /// The style of a style block: no color and no attributes.
    pub fn parse_component_style(node: &ParseNode) -> (r: Result<ComponentStyle, ComponentError>)
        ensures
            r matches Ok(s) && style_view(s) == plain_style(),
    {
        let s = ComponentStyle { color: None, attributes: Vec::new() };
        assert(style_view(s).attributes =~= Seq::<Seq<char>>::empty());
        Ok(s)
    }

    /// The description of a relation: its first description text, trimmed.
    pub fn parse_description(node: &ParseNode) -> (r: Option<String>)
        ensures
            ov(r) == (match first_text_with(node.children@, Rule::description_text) {
                Some(t) => Some(trim(t)),
                None => None,
            }),
    {
        match first_text(&node.children, Rule::description_text) {
            Some(t) => {
                let v = chars_of(t.as_str());
                let tr = trimmed_chars(v.as_slice());
                Some(string_of(tr.as_slice()))
            },
            None => None,
        }
    }

    /// Reads the arrow of a relation; a refused arrow refuses the relation.
    pub fn parse_arrow(node: &ParseNode) -> (r: Result<Arrow, ComponentError>)
        ensures
            match arrow_error(*node) {
                Some(m) => r matches Err(e) && is_invalid(e, "invalid arrow: "@ + m),
                None => r matches Ok(a) && arrow_view(a) == arrow_model(*node),
            },
    {
        match common_parse_arrow(node) {
            Ok(a) => Ok(a),
            Err(e) => {
                let v = chars_of(e.as_str());
                Err(ComponentError::InvalidStatement(concat_text("invalid arrow: ", v.as_slice())))
            },
        }
    }

    /// Reads a relation in the file `source_file`: its ends, arrow and
    /// description, located at the line it starts on.
    pub fn parse_relation(node: &ParseNode, source_file: &str) -> (r: Result<Relation, ComponentError>)
        ensures
            match relation_model(*node, source_file@) {
                Ok(v) => r matches Ok(x) && relation_view(x) == v,
                Err(m) => r matches Err(e) && is_invalid(e, m),
            },
    {
        let cs = &node.children;
        let mut lhs = String::new();
        let mut rhs = String::new();
        let mut arrow = Arrow::default();
        let mut description: Option<String> = None;
        let source_line = node.line as u32;
        let mut i: usize = 0;
        while i < cs.len()
            invariant
                i <= cs@.len(),
                cs == node.children,
                relation_fold(cs@.take(i as int)) matches Ok(st) && lhs@ == st.0 && rhs@ == st.1 && arrow_view(arrow)
                    == st.2 && ov(description) == st.3,
            decreases cs@.len() - i,
        {
            proof {
                lemma_take_step(cs@, i as int);
            }
            let c = &cs[i];
            if c.rule == Rule::relation_left {
                lhs = Self::strip_wrapping_quotes(c.text.as_str());
            } else if c.rule == Rule::relation_right {
                rhs = Self::strip_wrapping_quotes(c.text.as_str());
            } else if c.rule == Rule::connection_arrow {
                match Self::parse_arrow(c) {
                    Ok(a) => {
                        arrow = a;
                    },
                    Err(e) => {
                        proof {
                            assert(relation_fold(cs@.take(i + 1)) matches Err(m) && is_invalid(e, m));
                            lemma_relation_fold_prefix(cs@, i + 1);
                        }
                        return Err(e);
                    },
                }
            } else if c.rule == Rule::relation_description {
                description = Self::parse_description(c);
            }
            i = i + 1;
        }
        assert(cs@.take(cs@.len() as int) =~= cs@);
        Ok(
            Relation {
                lhs,
                arrow,
                rhs,
                style: None,
                description,
                source_location: SourceLocation::new(source_file, source_line),
            },
        )
    }
}

/// A refused statement in a prefix is the first refused one of the whole.
proof fn lemma_block_fold_prefix(cs: Seq<ParseNode>, k: int, file: Seq<char>, notes: Set<Seq<char>>)
    requires
        0 <= k <= cs.len(),
    ensures
        block_fold(cs.take(k), file, notes) matches Err(m) ==> block_fold(cs, file, notes) == Err::<
            (Seq<StmtView>, Set<Seq<char>>),
            Seq<char>,
        >(m),
    decreases cs.len(),
{
    if k < cs.len() {
        assert(cs.drop_last().take(k) =~= cs.take(k));
        lemma_block_fold_prefix(cs.drop_last(), k, file, notes);
    } else {
        assert(cs.take(k) =~= cs);
    }
}

/// A refused nested statement in a prefix is the first refused one of the whole.
proof fn lemma_element_fold_prefix(cs: Seq<ParseNode>, k: int, file: Seq<char>, notes: Set<Seq<char>>)
    requires
        0 <= k <= cs.len(),
    ensures
        element_fold(cs.take(k), file, notes) matches Err(m) ==> element_fold(cs, file, notes) == Err::<
            ElemState,
            Seq<char>,
        >(m),
    decreases cs.len(),
{
    if k < cs.len() {
        assert(cs.drop_last().take(k) =~= cs.take(k));
        lemma_element_fold_prefix(cs.drop_last(), k, file, notes);
    } else {
        assert(cs.take(k) =~= cs);
    }
}

/// The first statement found is one of `cs`, and none before it starts one.
proof fn lemma_first_statement(cs: Seq<ParseNode>)
    ensures
        first_statement(cs) matches Some(i) ==> 0 <= i < cs.len() && statement_rule(cs[i].rule) && forall|k: int|
            0 <= k < i ==> !statement_rule(cs[k].rule),
        first_statement(cs) is None ==> forall|k: int| 0 <= k < cs.len() ==> !statement_rule(cs[k].rule),
    decreases cs.len(),
{
    if cs.len() > 0 {
        let d = cs.drop_last();
        lemma_first_statement(d);
        assert(forall|k: int| 0 <= k < d.len() ==> d[k] == cs[k]);
    }
}

/// The index of the first part that starts a statement.
fn find_first_statement(cs: &Vec<ParseNode>) -> (o: Option<usize>)
    ensures
        match first_statement(cs@) {
            Some(k) => o matches Some(i) && i as int == k,
            None => o is None,
        },
{
    proof {
        lemma_first_statement(cs@);
    }
    let mut i: usize = 0;
    while i < cs.len()
        invariant
            i <= cs@.len(),
            forall|k: int| 0 <= k < i ==> !statement_rule(cs@[k].rule),
            first_statement(cs@) matches Some(j) ==> 0 <= j < cs@.len() && statement_rule(cs@[j].rule) && forall|
                k: int,
            | 0 <= k < j ==> !statement_rule(cs@[k].rule),
            first_statement(cs@) is None ==> forall|k: int| 0 <= k < cs@.len() ==> !statement_rule(cs@[k].rule),
        decreases cs@.len() - i,
    {
        let r = cs[i].rule;
        if r == Rule::element || r == Rule::relation || r == Rule::port_declaration || r == Rule::together_block
            || is_note_rule(r) {
            return Some(i);
        }
        i = i + 1;
    }
    None
}

/// The contents of concatenated statements are those of each, concatenated.
proof fn lemma_stmt_views_concat(a: Seq<Statement>, b: Seq<Statement>)
    ensures
        stmt_views(a + b) == stmt_views(a) + stmt_views(b),
{
    assert(stmt_views(a + b) =~= stmt_views(a) + stmt_views(b));
}

impl PumlComponentParser {
    /// Reads the statements of a block's parts, registering its notes.
    fn read_block(node: &ParseNode, source_file: &str, ignored_notes: &mut IgnoredNoteRegistry) -> (r: Result<
        Vec<Statement>,
        ComponentError,
    >)
        ensures
            match block_fold(node.children@, source_file@, old(ignored_notes)@) {
                Ok(st) => r matches Ok(v) && stmt_views(v@) == st.0 && final(ignored_notes)@ == st.1,
                Err(m) => r matches Err(e) && is_invalid(e, m),
            },
        decreases node, 0nat,
    {
        let cs = &node.children;
        let mut statements: Vec<Statement> = Vec::new();
        proof {
            assert(stmt_views(statements@) =~= Seq::<StmtView>::empty());
        }
        let mut i: usize = 0;
        while i < cs.len()
            invariant
                i <= cs@.len(),
                cs == node.children,
                block_fold(cs@.take(i as int), source_file@, old(ignored_notes)@) matches Ok(st) && stmt_views(
                    statements@,
                ) == st.0 && ignored_notes@ == st.1,
            decreases cs@.len() - i,
        {
            proof {
                lemma_take_step(cs@, i as int);
            }
            let c = &cs[i];
            if c.rule == Rule::diagram_statement {
                match Self::parse_statement(c, source_file, ignored_notes) {
                    Ok(mut v) => {
                        let ghost before = statements@;
                        let ghost added = v@;
                        statements.append(&mut v);
                        proof {
                            lemma_stmt_views_concat(before, added);
                        }
                    },
                    Err(e) => {
                        proof {
                            assert(block_fold(cs@.take(i + 1), source_file@, old(ignored_notes)@) matches Err(m)
                                && is_invalid(e, m));
                            lemma_block_fold_prefix(cs@, i + 1, source_file@, old(ignored_notes)@);
                        }
                        return Err(e);
                    },
                }
            } else if is_note_rule(c.rule) {
                Self::register_ignored_note(ignored_notes, c);
            }
            i = i + 1;
        }
        assert(cs@.take(cs@.len() as int) =~= cs@);
        Ok(statements)
    }

    /// Reads a `together` block: its statements join the enclosing scope.
    pub fn parse_together_block(node: &ParseNode, source_file: &str, ignored_notes: &mut IgnoredNoteRegistry) -> (r:
        Result<Vec<Statement>, ComponentError>)
        ensures
            match block_fold(node.children@, source_file@, old(ignored_notes)@) {
                Ok(st) => r matches Ok(v) && stmt_views(v@) == st.0 && final(ignored_notes)@ == st.1,
                Err(m) => r matches Err(e) && is_invalid(e, m),
            },
        decreases node, 1nat,
    {
        Self::read_block(node, source_file, ignored_notes)
    }

    /// Reads the statement block of an element.
    pub fn parse_statement_block(node: &ParseNode, source_file: &str, ignored_notes: &mut IgnoredNoteRegistry) -> (r:
        Result<Vec<Statement>, ComponentError>)
        ensures
            match block_fold(node.children@, source_file@, old(ignored_notes)@) {
                Ok(st) => r matches Ok(v) && stmt_views(v@) == st.0 && final(ignored_notes)@ == st.1,
                Err(m) => r matches Err(e) && is_invalid(e, m),
            },
        decreases node, 1nat,
    {
        Self::read_block(node, source_file, ignored_notes)
    }

    /// Reads one statement: the first of its parts that starts one — an
    /// element, a relation, a port, a `together` block (whose statements are
    /// returned) or a note (registered, yielding none).
    pub fn parse_statement(node: &ParseNode, source_file: &str, ignored_notes: &mut IgnoredNoteRegistry) -> (r:
        Result<Vec<Statement>, ComponentError>)
        ensures
            match statement_model(*node, source_file@, old(ignored_notes)@) {
                Ok(st) => r matches Ok(v) && stmt_views(v@) == st.0 && final(ignored_notes)@ == st.1,
                Err(m) => r matches Err(e) && is_invalid(e, m),
            },
        decreases node, 1nat,
    {
        let cs = &node.children;
        proof {
            lemma_first_statement(cs@);
        }
        let mut out: Vec<Statement> = Vec::new();
        match find_first_statement(cs) {
            None => {
                proof {
                    assert(stmt_views(out@) =~= Seq::<StmtView>::empty());
                }
                Ok(out)
            },
            Some(i) => {
                let c = &cs[i];
                if c.rule == Rule::element {
                    match Self::parse_element(c, source_file, ignored_notes) {
                        Ok(e) => {
                            out.push(Statement::Element(e));
                            proof {
                                assert(stmt_views(out@) =~= seq![stmt_view(Statement::Element(e))]);
                            }
                            Ok(out)
                        },
                        Err(e) => Err(e),
                    }
                } else if c.rule == Rule::relation {
                    match Self::parse_relation(c, source_file) {
                        Ok(rel) => {
                            out.push(Statement::Relation(rel));
                            proof {
                                assert(stmt_views(out@) =~= seq![stmt_view(Statement::Relation(rel))]);
                            }
                            Ok(out)
                        },
                        Err(e) => Err(e),
                    }
                } else if c.rule == Rule::port_declaration {
                    match Self::parse_port(c) {
                        Ok(p) => {
                            out.push(Statement::Port(p));
                            proof {
                                assert(stmt_views(out@) =~= seq![stmt_view(Statement::Port(p))]);
                            }
                            Ok(out)
                        },
                        Err(e) => Err(e),
                    }
                } else if c.rule == Rule::together_block {
                    Self::parse_together_block(c, source_file, ignored_notes)
                } else {
                    Self::register_ignored_note(ignored_notes, c);
                    proof {
                        assert(stmt_views(out@) =~= Seq::<StmtView>::empty());
                    }
                    Ok(out)
                }
            },
        }
    }

    /// Reads an element in the file `source_file`: its kind and name (from its
    /// head or short form), alias, stereotype, style and nested statements,
    /// located at the line it starts on.
    pub fn parse_element(node: &ParseNode, source_file: &str, ignored_notes: &mut IgnoredNoteRegistry) -> (r: Result<
        Element,
        ComponentError,
    >)
        ensures
            match element_model(*node, source_file@, old(ignored_notes)@) {
                Ok(st) => r matches Ok(e) && stmt_view(Statement::Element(e)) == st.0 && final(ignored_notes)@ == st.1,
                Err(m) => r matches Err(e) && is_invalid(e, m),
            },
        decreases node, 1nat,
    {
        let cs = &node.children;
        let ghost file = source_file@;
        let mut kind = String::new();
        let mut name: Option<String> = None;
        let mut alias: Option<String> = None;
        let mut stereotype: Option<String> = None;
        let mut style: Option<ComponentStyle> = None;
        let mut statements: Vec<Statement> = Vec::new();
        proof {
            assert(stmt_views(statements@) =~= Seq::<StmtView>::empty());
        }
        let mut i: usize = 0;
        while i < cs.len()
            invariant
                i <= cs@.len(),
                cs == node.children,
                file == source_file@,
                element_fold(cs@.take(i as int), file, old(ignored_notes)@) matches Ok(s) && kind@ == s.kind && ov(name)
                    == s.name && ov(alias) == s.alias && ov(stereotype) == s.stereotype && (match style {
                    Some(x) => Some(style_view(x)),
                    None => None,
                }) == s.style && stmt_views(statements@) == s.statements && ignored_notes@ == s.notes,
            decreases cs@.len() - i,
        {
            proof {
                lemma_take_step(cs@, i as int);
            }
            let c = &cs[i];
            let ghost s0 = element_fold(cs@.take(i as int), file, old(ignored_notes)@)->Ok_0;
            if c.rule == Rule::nested_element {
                let gs = &c.children;
                proof {
                    assert(gs@.take(0) =~= Seq::<ParseNode>::empty());
                }
                let mut j: usize = 0;
                while j < gs.len()
                    invariant
                        j <= gs@.len(),
                        gs == c.children,
                        nested_heads(s0, gs@.take(j as int)) == (ElemState { kind: kind@, name: ov(name), ..s0 }),
                    decreases gs@.len() - j,
                {
                    proof {
                        lemma_take_step(gs@, j as int);
                    }
                    let g = &gs[j];
                    if g.rule == Rule::default_element {
                        match Self::parse_default_element(g) {
                            Ok((k, n)) => {
                                kind = k;
                                name = n;
                            },
                            Err(e) => {
                                return Err(e);
                            },
                        }
                    } else if g.rule == Rule::bracket_element {
                        match Self::parse_bracket_element(g) {
                            Ok(n) => {
                                kind = "component".to_owned();
                                name = n;
                            },
                            Err(e) => {
                                return Err(e);
                            },
                        }
                    }
                    j = j + 1;
                }
                proof {
                    assert(gs@.take(gs@.len() as int) =~= gs@);
                }
            } else if c.rule == Rule::short_form_component {
                name = Some(Self::extract_component_name(c));
                kind = "component".to_owned();
            } else if c.rule == Rule::short_form_actor {
                name = Some(Self::extract_actor_name(c));
                kind = "actor".to_owned();
            } else if c.rule == Rule::short_form_interface {
                name = Some(Self::extract_interface_name(c));
                kind = "interface".to_owned();
            } else if c.rule == Rule::short_form_usecase {
                name = Some(Self::extract_usecase_name(c));
                kind = "usecase".to_owned();
            } else if c.rule == Rule::alias_clause {
                alias = Self::extract_alias(c);
            } else if c.rule == Rule::stereotype {
                stereotype = Self::extract_stereotype(c);
            } else if c.rule == Rule::element_modifier {
                let ms = &c.children;
                proof {
                    assert(ms@.take(0) =~= Seq::<ParseNode>::empty());
                }
                let mut j: usize = 0;
                while j < ms.len()
                    invariant
                        j <= ms@.len(),
                        ms == c.children,
                        element_modifiers(s0, ms@.take(j as int)) == (ElemState {
                            alias: ov(alias),
                            stereotype: ov(stereotype),
                            ..s0
                        }),
                    decreases ms@.len() - j,
                {
                    proof {
                        lemma_take_step(ms@, j as int);
                    }
                    let m = &ms[j];
                    if m.rule == Rule::alias_clause {
                        alias = Self::extract_alias(m);
                    } else if m.rule == Rule::stereotype {
                        stereotype = Self::extract_stereotype(m);
                    }
                    j = j + 1;
                }
                proof {
                    assert(ms@.take(ms@.len() as int) =~= ms@);
                }
            } else if c.rule == Rule::element_style {
                match Self::parse_component_style(c) {
                    Ok(st) => {
                        style = Some(st);
                    },
                    Err(e) => {
                        return Err(e);
                    },
                }
            } else if c.rule == Rule::statement_block {
                match Self::parse_statement_block(c, source_file, ignored_notes) {
                    Ok(v) => {
                        statements = v;
                    },
                    Err(e) => {
                        proof {
                            assert(element_fold(cs@.take(i + 1), file, old(ignored_notes)@) matches Err(m)
                                && is_invalid(e, m));
                            lemma_element_fold_prefix(cs@, i + 1, file, old(ignored_notes)@);
                        }
                        return Err(e);
                    },
                }
            }
            i = i + 1;
        }
        assert(cs@.take(cs@.len() as int) =~= cs@);
        let e = Element {
            identity: ElementIdentity {
                name,
                alias,
                stereotype,
                element_kind: kind,
                source_location: SourceLocation::new(source_file, node.line as u32),
            },
            style,
            statements,
        };
        proof {
            lemma_element_view(e);
        }
        Ok(e)
    }
}

/// A refused statement stays the first refused one whatever follows it.
proof fn lemma_document_fold_extend(a: Seq<ParseNode>, b: Seq<ParseNode>, file: Seq<char>)
    ensures
        document_fold(a, file) matches Err(m) ==> document_fold(a + b, file) == Err::<
            (Option<Seq<char>>, Seq<StmtView>, Set<Seq<char>>),
            Seq<char>,
        >(m),
    decreases b.len(),
{
    if b.len() == 0 {
        assert(a + b =~= a);
    } else {
        assert((a + b).drop_last() =~= a + b.drop_last());
        lemma_document_fold_extend(a, b.drop_last(), file);
    }
}

/// The parts of concatenated matches are those of each, concatenated.
proof fn lemma_document_items_concat(a: Seq<ParseNode>, b: Seq<ParseNode>)
    ensures
        document_items(a + b) == document_items(a) + document_items(b),
    decreases b.len(),
{
    if b.len() == 0 {
        assert(a + b =~= a);
        assert(document_items(a) + document_items(b) =~= document_items(a));
    } else {
        assert((a + b).drop_last() =~= a + b.drop_last());
        lemma_document_items_concat(a, b.drop_last());
        assert(document_items(a) + (document_items(b.drop_last()) + b.last().children@) =~= (document_items(a)
            + document_items(b.drop_last())) + b.last().children@);
    }
}

impl PumlComponentParser {
    /// Drops the relations that touch an ignored note, at any depth.
    pub fn filter_note_relations(statements: Vec<Statement>, ignored_notes: &IgnoredNoteRegistry) -> (r: Vec<
        Statement,
    >)
        ensures
            stmt_views(r@) == without_note_relations(stmt_views(statements@), ignored_notes@),
    {
        let ghost orig = statements@;
        Self::filter_statements(statements, ignored_notes, Ghost(orig))
    }

    /// Drops the relations that touch an ignored note from `statements`, whose
    /// contents are `orig`, at any depth.
    fn filter_statements(statements: Vec<Statement>, ignored_notes: &IgnoredNoteRegistry, Ghost(orig): Ghost<
        Seq<Statement>,
    >) -> (r: Vec<Statement>)
        requires
            statements@ == orig,
        ensures
            stmt_views(r@) == without_note_relations(stmt_views(orig), ignored_notes@),
        decreases orig,
    {
        let mut rest = statements;
        let mut out: Vec<Statement> = Vec::new();
        let mut k: usize = 0;
        let n = rest.len();
        proof {
            assert(stmt_views(out@) =~= Seq::<StmtView>::empty());
            assert(stmt_views(orig).take(0) =~= Seq::<StmtView>::empty());
            assert(orig.skip(0) =~= orig);
        }
        while k < n
            invariant
                n == orig.len(),
                k <= n,
                rest@ == orig.skip(k as int),
                stmt_views(out@) == without_note_relations(stmt_views(orig).take(k as int), ignored_notes@),
            decreases n - k,
        {
            let ghost views = stmt_views(orig);
            proof {
                assert(views.take(k + 1).drop_last() =~= views.take(k as int));
                assert(views.take(k + 1).last() == stmt_view(orig[k as int]));
                assert(rest@[0] == orig[k as int]);
            }
            let statement = rest.remove(0);
            let ghost whole = statement;
            proof {
                assert(rest@ =~= orig.skip(k + 1));
                assert(whole == orig[k as int]);
            }
            let ghost before = out@;
            match statement {
                Statement::Relation(relation) => {
                    if !ignored_notes.filters_endpoints(relation.lhs.as_str(), relation.rhs.as_str()) {
                        let ghost st = Statement::Relation(relation);
                        out.push(Statement::Relation(relation));
                        proof {
                            lemma_stmt_views_concat(before, seq![st]);
                            assert(before.push(st) =~= before + seq![st]);
                            assert(stmt_views(seq![st]) =~= seq![stmt_view(st)]);
                        }
                    }
                },
                Statement::Element(element) => {
                    let ghost ge = element;
                    let Element { identity, style, statements: inner } = element;
                    proof {
                        assert(whole == Statement::Element(ge));
                        assert(decreases_to!(orig => orig[k as int]));
                        assert(decreases_to!(whole => ge));
                        assert(decreases_to!(ge => ge.statements));
                        assert(decreases_to!(ge.statements => ge.statements@));
                        assert(inner@ == ge.statements@);
                        assert(decreases_to!(orig => inner@));
                    }
                    let filtered = Self::filter_statements(inner, ignored_notes, Ghost(ge.statements@));
                    let e = Element { identity, style, statements: filtered };
                    proof {
                        lemma_element_view(e);
                        lemma_element_view(ge);
                    }
                    let ghost st = Statement::Element(e);
                    out.push(Statement::Element(e));
                    proof {
                        lemma_stmt_views_concat(before, seq![st]);
                        assert(before.push(st) =~= before + seq![st]);
                        assert(stmt_views(seq![st]) =~= seq![stmt_view(st)]);
                    }
                },
                Statement::Port(p) => {
                    let ghost st = Statement::Port(p);
                    out.push(Statement::Port(p));
                    proof {
                        lemma_stmt_views_concat(before, seq![st]);
                        assert(before.push(st) =~= before + seq![st]);
                        assert(stmt_views(seq![st]) =~= seq![stmt_view(st)]);
                    }
                },
            }
            k = k + 1;
        }
        assert(stmt_views(orig).take(n as int) =~= stmt_views(orig));
        out
    }

    /// Builds the diagram the top-level matches `pairs` of a component
    /// diagram denote in the file `source_file`: the name on its `@startuml`
    /// line and its statements, without the relations that touch a note
    /// declared with an alias; the first refused statement refuses it.
    pub fn parse_file(&mut self, pairs: &Vec<ParseNode>, source_file: &str) -> (r: Result<
        CompPumlDocument,
        ComponentError,
    >)
        ensures
            match document_model(pairs@, source_file@) {
                Ok(st) => r matches Ok(d) && ov(d.name) == st.0 && stmt_views(d.statements@) == st.1,
                Err(m) => r matches Err(e) && is_invalid(e, m),
            },
    {
        let mut name: Option<String> = None;
        let mut statements: Vec<Statement> = Vec::new();
        let mut ignored_notes = IgnoredNoteRegistry::new();
        let ghost file = source_file@;
        proof {
            assert(stmt_views(statements@) =~= Seq::<StmtView>::empty());
            assert(pairs@.take(0) =~= Seq::<ParseNode>::empty());
        }
        let mut i: usize = 0;
        while i < pairs.len()
            invariant
                i <= pairs@.len(),
                file == source_file@,
                document_fold(document_items(pairs@.take(i as int)), file) matches Ok(st) && ov(name) == st.0
                    && stmt_views(statements@) == st.1 && ignored_notes@ == st.2,
            decreases pairs@.len() - i,
        {
            proof {
                lemma_take_step(pairs@, i as int);
            }
            let pair = &pairs[i];
            let cs = &pair.children;
            let ghost prior = document_items(pairs@.take(i as int));
            proof {
                assert(prior + cs@.take(0) =~= prior);
            }
            let mut j: usize = 0;
            while j < cs.len()
                invariant
                    j <= cs@.len(),
                    cs == pair.children,
                    *pair == pairs@[i as int],
                    i < pairs@.len(),
                    file == source_file@,
                    prior == document_items(pairs@.take(i as int)),
                    document_items(pairs@.take(i + 1)) == prior + cs@,
                    document_fold(prior + cs@.take(j as int), file) matches Ok(st) && ov(name) == st.0 && stmt_views(
                        statements@,
                    ) == st.1 && ignored_notes@ == st.2,
                decreases cs@.len() - j,
            {
                proof {
                    lemma_take_step(cs@, j as int);
                    assert((prior + cs@.take(j + 1)).drop_last() =~= prior + cs@.take(j as int));
                    assert((prior + cs@.take(j + 1)).last() == cs@[j as int]);
                }
                let c = &cs[j];
                if c.rule == Rule::startuml {
                    match first_text(&c.children, Rule::puml_name) {
                        Some(t) => {
                            name = Some(t);
                        },
                        None => {},
                    }
                } else if c.rule == Rule::diagram_statement {
                    match Self::parse_statement(c, source_file, &mut ignored_notes) {
                        Ok(mut v) => {
                            let ghost before = statements@;
                            let ghost added = v@;
                            statements.append(&mut v);
                            proof {
                                lemma_stmt_views_concat(before, added);
                            }
                        },
                        Err(e) => {
                            proof {
                                let seen = prior + cs@.take(j + 1);
                                assert(document_fold(seen, file) matches Err(m) && is_invalid(e, m));
                                let rest = cs@.skip(j + 1) + document_items(pairs@.skip(i + 1));
                                assert(pairs@ =~= pairs@.take(i + 1) + pairs@.skip(i + 1));
                                lemma_document_items_concat(pairs@.take(i + 1), pairs@.skip(i + 1));
                                assert(cs@ =~= cs@.take(j + 1) + cs@.skip(j + 1));
                                assert(document_items(pairs@) =~= seen + rest);
                                lemma_document_fold_extend(seen, rest, file);
                            }
                            return Err(e);
                        },
                    }
                } else if is_note_rule(c.rule) {
                    Self::register_ignored_note(&mut ignored_notes, c);
                }
                j = j + 1;
            }
            proof {
                assert(cs@.take(cs@.len() as int) =~= cs@);
            }
            i = i + 1;
        }
        assert(pairs@.take(pairs@.len() as int) =~= pairs@);
        let statements = Self::filter_note_relations(statements, &ignored_notes);
        Ok(CompPumlDocument { name, statements })
    }
}

/// A refused arrow in a prefix is the first refused one of the whole.
proof fn lemma_relation_fold_prefix(cs: Seq<ParseNode>, k: int)
    requires
        0 <= k <= cs.len(),
    ensures
        relation_fold(cs.take(k)) matches Err(m) ==> relation_fold(cs) == Err::<
            (Seq<char>, Seq<char>, ArrowView, Option<Seq<char>>),
            Seq<char>,
        >(m),
    decreases cs.len(),
{
    if k < cs.len() {
        assert(cs.drop_last().take(k) =~= cs.take(k));
        lemma_relation_fold_prefix(cs.drop_last(), k);
    } else {
        assert(cs.take(k) =~= cs);
    }
}

} // verus!

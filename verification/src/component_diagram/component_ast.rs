//! The statements of a component diagram: elements with their nested
//! statements, relations and ports.
use vstd::prelude::*;
use crate::parser_core::common_ast::{Arrow, ArrowView, ElementIdentity, arrow_view};
use crate::source_location::SourceLocation;

verus! {

/// A parsed component diagram.
#[derive(Debug, PartialEq)]
pub struct CompPumlDocument {
    pub name: Option<String>,
    pub statements: Vec<Statement>,
}

/// One statement of a component diagram.
#[derive(Debug, PartialEq)]
pub enum Statement {
    Element(Element),
    Relation(Relation),
    Port(Port),
}

/// A declared element, with the statements nested in its block.
#[derive(Debug, PartialEq)]
pub struct Element {
    pub identity: ElementIdentity,
    pub style: Option<ComponentStyle>,
    pub statements: Vec<Statement>,
}

/// The style of an element or relation.
#[derive(Debug, Clone, PartialEq)]
pub struct ComponentStyle {
    pub color: Option<String>,
    pub attributes: Vec<String>,
}

/// A relation between two elements.
#[derive(Debug, PartialEq)]
pub struct Relation {
    pub lhs: String,
    pub arrow: Arrow,
    pub rhs: String,
    pub style: Option<ComponentStyle>,
    pub description: Option<String>,
    pub source_location: SourceLocation,
}

/// The direction of a port.
#[derive(Debug, Clone, Copy, PartialEq, Eq, Structural)]
pub enum PortType {
    Port,
    PortIn,
    PortOut,
}

/// A port of an element.
#[derive(Debug, PartialEq)]
pub struct Port {
    pub port_type: PortType,
    pub name: String,
    pub alias: Option<String>,
}

/// The content of an optional text.
pub open spec fn opt_seq(o: Option<String>) -> Option<Seq<char>> {
    match o {
        Some(s) => Some(s@),
        None => None,
    }
}

/// The content of an element identity.
pub struct IdentityView {
    pub name: Option<Seq<char>>,
    pub alias: Option<Seq<char>>,
    pub stereotype: Option<Seq<char>>,
    pub element_kind: Seq<char>,
    pub file: Seq<char>,
    pub line: u32,
}

/// The content of an element identity.
pub open spec fn identity_view(i: ElementIdentity) -> IdentityView {
    IdentityView {
        name: opt_seq(i.name),
        alias: opt_seq(i.alias),
        stereotype: opt_seq(i.stereotype),
        element_kind: i.element_kind@,
        file: i.source_location.file@,
        line: i.source_location.line,
    }
}

/// The content of a style.
pub struct StyleView {
    pub color: Option<Seq<char>>,
    pub attributes: Seq<Seq<char>>,
}

/// The content of a style.
pub open spec fn style_view(s: ComponentStyle) -> StyleView {
    StyleView { color: opt_seq(s.color), attributes: s.attributes@.map_values(|a: String| a@) }
}

/// The content of an optional style.
pub open spec fn opt_style(s: Option<ComponentStyle>) -> Option<StyleView> {
    match s {
        Some(x) => Some(style_view(x)),
        None => None,
    }
}

/// The content of a relation.
pub struct RelationView {
    pub lhs: Seq<char>,
    pub arrow: ArrowView,
    pub rhs: Seq<char>,
    pub style: Option<StyleView>,
    pub description: Option<Seq<char>>,
    pub file: Seq<char>,
    pub line: u32,
}

/// The content of a relation.
pub open spec fn relation_view(r: Relation) -> RelationView {
    RelationView {
        lhs: r.lhs@,
        arrow: arrow_view(r.arrow),
        rhs: r.rhs@,
        style: opt_style(r.style),
        description: opt_seq(r.description),
        file: r.source_location.file@,
        line: r.source_location.line,
    }
}

/// The content of a port.
pub struct PortView {
    pub port_type: PortType,
    pub name: Seq<char>,
    pub alias: Option<Seq<char>>,
}

/// The content of a port.
pub open spec fn port_view(p: Port) -> PortView {
    PortView { port_type: p.port_type, name: p.name@, alias: opt_seq(p.alias) }
}

/// The content of a statement.
pub enum StmtView {
    Element(IdentityView, Option<StyleView>, Seq<StmtView>),
    Relation(RelationView),
    Port(PortView),
}

/// The content of a statement.
pub open spec fn stmt_view(s: Statement) -> StmtView
    decreases s,
{
    match s {
        Statement::Element(e) => StmtView::Element(
            identity_view(e.identity),
            opt_style(e.style),
            Seq::new(
                e.statements@.len(),
                |i: int|
                    if 0 <= i < e.statements@.len() {
                        stmt_view(e.statements@[i])
                    } else {
                        StmtView::Port(PortView { port_type: PortType::Port, name: Seq::empty(), alias: None })
                    },
            ),
        ),
        Statement::Relation(r) => StmtView::Relation(relation_view(r)),
        Statement::Port(p) => StmtView::Port(port_view(p)),
    }
}

/// The content of an element statement, with its nested statements' contents.
pub proof fn lemma_element_view(e: Element)
    ensures
        stmt_view(Statement::Element(e)) == StmtView::Element(
            identity_view(e.identity),
            opt_style(e.style),
            stmt_views(e.statements@),
        ),
{
    if let StmtView::Element(_, _, inner) = stmt_view(Statement::Element(e)) {
        assert(inner =~= stmt_views(e.statements@));
    }
}

/// The contents of statements.
pub open spec fn stmt_views(v: Seq<Statement>) -> Seq<StmtView> {
    Seq::new(v.len(), |i: int| stmt_view(v[i]))
}

} // verus!

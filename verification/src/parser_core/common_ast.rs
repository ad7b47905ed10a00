//! Arrow syntax shared by class, component and sequence diagrams.
use vstd::prelude::*;
use crate::source_location::SourceLocation;

verus! {

/// A connection arrow: optional head decorations around a line with an
/// optional middle part.
#[derive(Debug, Clone, PartialEq)]
pub struct Arrow {
    pub left: Option<ArrowDecor>,
    pub line: ArrowLine,
    pub middle: Option<ArrowMiddle>,
    pub right: Option<ArrowDecor>,
}

/// An arrow head or tail decoration, verbatim.
#[derive(Debug, Clone, PartialEq)]
pub struct ArrowDecor {
    pub raw: String,
}

/// The line segments of an arrow, verbatim.
#[derive(Debug, Clone, PartialEq)]
pub struct ArrowLine {
    pub raw: String,
}

/// The bracketed or directional middle part of an arrow.
#[derive(Debug, Clone, PartialEq)]
pub struct ArrowMiddle {
    pub style: Option<ArrowStyle>,
    pub direction: Option<ArrowDirection>,
    pub decorator: Option<String>,
}

/// Line style attributes of an arrow.
#[derive(Debug, Clone, PartialEq)]
pub struct ArrowStyle {
    pub color: Option<String>,
    pub patterns: Vec<String>,
    pub thickness: Option<u32>,
    pub extra_attrs: Vec<String>,
}

impl Default for ArrowLine {
    fn default() -> (r: Self)
        ensures
            r.raw@ == Seq::<char>::empty(),
    {
        ArrowLine { raw: String::new() }
    }
}

impl Default for Arrow {
    fn default() -> (r: Self)
        ensures
            arrow_view(r) == (ArrowView { left: None, line: Seq::empty(), middle: None, right: None }),
    {
        Arrow { left: None, line: ArrowLine::default(), middle: None, right: None }
    }
}

impl Default for ArrowStyle {
    fn default() -> (r: Self)
        ensures
            style_view(r) == (StyleView {
                color: None,
                patterns: Seq::empty(),
                thickness: None,
                extra_attrs: Seq::empty(),
            }),
    {
        let r = ArrowStyle { color: None, patterns: Vec::new(), thickness: None, extra_attrs: Vec::new() };
        assert(texts(r.patterns@) =~= Seq::<Seq<char>>::empty());
        assert(texts(r.extra_attrs@) =~= Seq::<Seq<char>>::empty());
        r
    }
}

/// The content of an arrow's style.
pub struct StyleView {
    pub color: Option<Seq<char>>,
    pub patterns: Seq<Seq<char>>,
    pub thickness: Option<u32>,
    pub extra_attrs: Seq<Seq<char>>,
}

/// The content of an arrow's middle part.
pub struct MiddleView {
    pub style: Option<StyleView>,
    pub direction: Option<ArrowDirection>,
    pub decorator: Option<Seq<char>>,
}

/// The content of an arrow.
pub struct ArrowView {
    pub left: Option<Seq<char>>,
    pub line: Seq<char>,
    pub middle: Option<MiddleView>,
    pub right: Option<Seq<char>>,
}

/// The texts of a list of strings.
pub open spec fn texts(v: Seq<String>) -> Seq<Seq<char>> {
    v.map_values(|s: String| s@)
}

/// The content of an arrow's style.
pub open spec fn style_view(s: ArrowStyle) -> StyleView {
    StyleView {
        color: match s.color {
            Some(c) => Some(c@),
            None => None,
        },
        patterns: texts(s.patterns@),
        thickness: s.thickness,
        extra_attrs: texts(s.extra_attrs@),
    }
}

/// The content of an arrow's middle part.
pub open spec fn middle_view(m: ArrowMiddle) -> MiddleView {
    MiddleView {
        style: match m.style {
            Some(s) => Some(style_view(s)),
            None => None,
        },
        direction: m.direction,
        decorator: match m.decorator {
            Some(d) => Some(d@),
            None => None,
        },
    }
}

/// The content of an arrow.
pub open spec fn arrow_view(a: Arrow) -> ArrowView {
    ArrowView {
        left: match a.left {
            Some(d) => Some(d.raw@),
            None => None,
        },
        line: a.line.raw@,
        middle: match a.middle {
            Some(m) => Some(middle_view(m)),
            None => None,
        },
        right: match a.right {
            Some(d) => Some(d.raw@),
            None => None,
        },
    }
}

/// What every declared element carries: its name (quotes removed), alias,
/// stereotype (delimiters removed), keyword and location.
#[derive(Debug, Clone, PartialEq)]
pub struct ElementIdentity {
    pub name: Option<String>,
    pub alias: Option<String>,
    pub stereotype: Option<String>,
    pub element_kind: String,
    pub source_location: SourceLocation,
}

/// The layout direction hint of an arrow.
#[derive(Debug, Clone, Copy, PartialEq, Eq, Structural)]
pub enum ArrowDirection {
    Up,
    Down,
    Left,
    Right,
}

} // verus!

//! Interpretation of the arrow tokens of the shared grammar.
use vstd::prelude::*;
use crate::parser_core::common_ast::{
    Arrow, ArrowDecor, ArrowDirection, ArrowLine, ArrowMiddle, ArrowStyle, ArrowView, MiddleView, StyleView,
    arrow_view, middle_view, style_view,
};
use crate::parser_core::parse_tree::{
    ParseNode, Rule, last_with, lemma_last_step, lemma_last_with, lemma_take_step, text_with,
};
use crate::text::{chars_of, is_literal, push_all, string_of};

verus! {

/// The direction named by an arrow direction token, if it is one.
pub open spec fn direction_of(t: Seq<char>) -> Option<ArrowDirection> {
    if t == "up"@ || t == "u"@ {
        Some(ArrowDirection::Up)
    } else if t == "down"@ || t == "d"@ || t == "do"@ {
        Some(ArrowDirection::Down)
    } else if t == "left"@ || t == "l"@ || t == "le"@ {
        Some(ArrowDirection::Left)
    } else if t == "right"@ || t == "r"@ || t == "ri"@ {
        Some(ArrowDirection::Right)
    } else {
        None
    }
}

/// The direction tokens read as directions, in full or abbreviated:
/// `up`/`u` is up, `down`/`d`/`do` down, `left`/`l`/`le` left and
/// `right`/`r`/`ri` right; every other token reads as none.
pub proof fn lemma_direction_words(t: Seq<char>)
    ensures
        direction_of(t) == Some(ArrowDirection::Up) <==> (t == "up"@ || t == "u"@),
        direction_of(t) == Some(ArrowDirection::Down) <==> (t == "down"@ || t == "d"@ || t == "do"@),
        direction_of(t) == Some(ArrowDirection::Left) <==> (t == "left"@ || t == "l"@ || t == "le"@),
        direction_of(t) == Some(ArrowDirection::Right) <==> (t == "right"@ || t == "r"@ || t == "ri"@),
        direction_of(t) is None <==> !(t == "up"@ || t == "u"@ || t == "down"@ || t == "d"@ || t == "do"@ || t
            == "left"@ || t == "l"@ || t == "le"@ || t == "right"@ || t == "r"@ || t == "ri"@),
{
    reveal_strlit("up");
    reveal_strlit("u");
    reveal_strlit("down");
    reveal_strlit("d");
    reveal_strlit("do");
    reveal_strlit("left");
    reveal_strlit("l");
    reveal_strlit("le");
    reveal_strlit("right");
    reveal_strlit("r");
    reveal_strlit("ri");
    assert("up"@ != "u"@) by {
        assert("up"@.len() == 2 && "u"@.len() == 1);
    }
    assert("up"@ != "down"@) by {
        assert("up"@.len() == 2 && "down"@.len() == 4);
    }
    assert("up"@ != "d"@) by {
        assert("up"@.len() == 2 && "d"@.len() == 1);
    }
    assert("up"@ != "do"@) by {
        assert("up"@[0] != "do"@[0]);
    }
    assert("up"@ != "left"@) by {
        assert("up"@.len() == 2 && "left"@.len() == 4);
    }
    assert("up"@ != "l"@) by {
        assert("up"@.len() == 2 && "l"@.len() == 1);
    }
    assert("up"@ != "le"@) by {
        assert("up"@[0] != "le"@[0]);
    }
    assert("up"@ != "right"@) by {
        assert("up"@.len() == 2 && "right"@.len() == 5);
    }
    assert("up"@ != "r"@) by {
        assert("up"@.len() == 2 && "r"@.len() == 1);
    }
    assert("up"@ != "ri"@) by {
        assert("up"@[0] != "ri"@[0]);
    }
    assert("u"@ != "down"@) by {
        assert("u"@.len() == 1 && "down"@.len() == 4);
    }
    assert("u"@ != "d"@) by {
        assert("u"@[0] != "d"@[0]);
    }
    assert("u"@ != "do"@) by {
        assert("u"@.len() == 1 && "do"@.len() == 2);
    }
    assert("u"@ != "left"@) by {
        assert("u"@.len() == 1 && "left"@.len() == 4);
    }
    assert("u"@ != "l"@) by {
        assert("u"@[0] != "l"@[0]);
    }
    assert("u"@ != "le"@) by {
        assert("u"@.len() == 1 && "le"@.len() == 2);
    }
    assert("u"@ != "right"@) by {
        assert("u"@.len() == 1 && "right"@.len() == 5);
    }
    assert("u"@ != "r"@) by {
        assert("u"@[0] != "r"@[0]);
    }
    assert("u"@ != "ri"@) by {
        assert("u"@.len() == 1 && "ri"@.len() == 2);
    }
    assert("down"@ != "d"@) by {
        assert("down"@.len() == 4 && "d"@.len() == 1);
    }
    assert("down"@ != "do"@) by {
        assert("down"@.len() == 4 && "do"@.len() == 2);
    }
    assert("down"@ != "left"@) by {
        assert("down"@[0] != "left"@[0]);
    }
    assert("down"@ != "l"@) by {
        assert("down"@.len() == 4 && "l"@.len() == 1);
    }
    assert("down"@ != "le"@) by {
        assert("down"@.len() == 4 && "le"@.len() == 2);
    }
    assert("down"@ != "right"@) by {
        assert("down"@.len() == 4 && "right"@.len() == 5);
    }
    assert("down"@ != "r"@) by {
        assert("down"@.len() == 4 && "r"@.len() == 1);
    }
    assert("down"@ != "ri"@) by {
        assert("down"@.len() == 4 && "ri"@.len() == 2);
    }
    assert("d"@ != "do"@) by {
        assert("d"@.len() == 1 && "do"@.len() == 2);
    }
    assert("d"@ != "left"@) by {
        assert("d"@.len() == 1 && "left"@.len() == 4);
    }
    assert("d"@ != "l"@) by {
        assert("d"@[0] != "l"@[0]);
    }
    assert("d"@ != "le"@) by {
        assert("d"@.len() == 1 && "le"@.len() == 2);
    }
    assert("d"@ != "right"@) by {
        assert("d"@.len() == 1 && "right"@.len() == 5);
    }
    assert("d"@ != "r"@) by {
        assert("d"@[0] != "r"@[0]);
    }
    assert("d"@ != "ri"@) by {
        assert("d"@.len() == 1 && "ri"@.len() == 2);
    }
    assert("do"@ != "left"@) by {
        assert("do"@.len() == 2 && "left"@.len() == 4);
    }
    assert("do"@ != "l"@) by {
        assert("do"@.len() == 2 && "l"@.len() == 1);
    }
    assert("do"@ != "le"@) by {
        assert("do"@[0] != "le"@[0]);
    }
    assert("do"@ != "right"@) by {
        assert("do"@.len() == 2 && "right"@.len() == 5);
    }
    assert("do"@ != "r"@) by {
        assert("do"@.len() == 2 && "r"@.len() == 1);
    }
    assert("do"@ != "ri"@) by {
        assert("do"@[0] != "ri"@[0]);
    }
    assert("left"@ != "l"@) by {
        assert("left"@.len() == 4 && "l"@.len() == 1);
    }
    assert("left"@ != "le"@) by {
        assert("left"@.len() == 4 && "le"@.len() == 2);
    }
    assert("left"@ != "right"@) by {
        assert("left"@.len() == 4 && "right"@.len() == 5);
    }
    assert("left"@ != "r"@) by {
        assert("left"@.len() == 4 && "r"@.len() == 1);
    }
    assert("left"@ != "ri"@) by {
        assert("left"@.len() == 4 && "ri"@.len() == 2);
    }
    assert("l"@ != "le"@) by {
        assert("l"@.len() == 1 && "le"@.len() == 2);
    }
    assert("l"@ != "right"@) by {
        assert("l"@.len() == 1 && "right"@.len() == 5);
    }
    assert("l"@ != "r"@) by {
        assert("l"@[0] != "r"@[0]);
    }
    assert("l"@ != "ri"@) by {
        assert("l"@.len() == 1 && "ri"@.len() == 2);
    }
    assert("le"@ != "right"@) by {
        assert("le"@.len() == 2 && "right"@.len() == 5);
    }
    assert("le"@ != "r"@) by {
        assert("le"@.len() == 2 && "r"@.len() == 1);
    }
    assert("le"@ != "ri"@) by {
        assert("le"@[0] != "ri"@[0]);
    }
    assert("right"@ != "r"@) by {
        assert("right"@.len() == 5 && "r"@.len() == 1);
    }
    assert("right"@ != "ri"@) by {
        assert("right"@.len() == 5 && "ri"@.len() == 2);
    }
    assert("r"@ != "ri"@) by {
        assert("r"@.len() == 1 && "ri"@.len() == 2);
    }
}

/// The message reported for an unknown direction token.
pub open spec fn unknown_direction_message(t: Seq<char>) -> Seq<char> {
    "Unknown arrow direction token: '"@ + t + "'"@
}

/// Reads an arrow direction token (`up`/`u`, `down`/`d`/`do`, `left`/`l`/`le`,
/// `right`/`r`/`ri`); any other token is an error naming it.
pub fn parse_arrow_direction(token: &str) -> (r: Result<ArrowDirection, String>)
    ensures
        match direction_of(token@) {
            Some(d) => r == Ok::<ArrowDirection, String>(d),
            None => r matches Err(m) && m@ == unknown_direction_message(token@),
        },
        (r == Ok::<ArrowDirection, String>(ArrowDirection::Up)) == (token@ == "up"@ || token@ == "u"@),
        (r == Ok::<ArrowDirection, String>(ArrowDirection::Down)) == (token@ == "down"@ || token@ == "d"@
            || token@ == "do"@),
        (r == Ok::<ArrowDirection, String>(ArrowDirection::Left)) == (token@ == "left"@ || token@ == "l"@
            || token@ == "le"@),
        (r == Ok::<ArrowDirection, String>(ArrowDirection::Right)) == (token@ == "right"@ || token@ == "r"@
            || token@ == "ri"@),
{
    proof {
        lemma_direction_words(token@);
    }
    let t = chars_of(token);
    let s = t.as_slice();
    if is_literal(s, "up") || is_literal(s, "u") {
        Ok(ArrowDirection::Up)
    } else if is_literal(s, "down") || is_literal(s, "d") || is_literal(s, "do") {
        Ok(ArrowDirection::Down)
    } else if is_literal(s, "left") || is_literal(s, "l") || is_literal(s, "le") {
        Ok(ArrowDirection::Left)
    } else if is_literal(s, "right") || is_literal(s, "r") || is_literal(s, "ri") {
        Ok(ArrowDirection::Right)
    } else {
        let mut m = chars_of("Unknown arrow direction token: '");
        push_all(&mut m, s);
        let q = chars_of("'");
        push_all(&mut m, q.as_slice());
        Err(string_of(m.as_slice()))
    }
}

/// The first arrow direction token among `cs` that names no direction.
pub open spec fn first_bad_direction(cs: Seq<ParseNode>) -> Option<int>
    decreases cs.len(),
{
    if cs.len() == 0 {
        None
    } else {
        match first_bad_direction(cs.drop_last()) {
            Some(i) => Some(i),
            None => if cs.last().rule == Rule::arrow_direction && direction_of(cs.last().text@) is None {
                Some(cs.len() - 1)
            } else {
                None
            },
        }
    }
}

/// A refused token in a prefix is the first refused token of the whole.
pub proof fn lemma_first_bad_prefix(cs: Seq<ParseNode>, k: int)
    requires
        0 <= k <= cs.len(),
    ensures
        first_bad_direction(cs.take(k)) matches Some(j) ==> first_bad_direction(cs) == Some(j),
    decreases cs.len(),
{
    if k < cs.len() {
        assert(cs.drop_last().take(k) =~= cs.take(k));
        lemma_first_bad_prefix(cs.drop_last(), k);
    } else {
        assert(cs.take(k) =~= cs);
    }
}

/// Why the middle part of an arrow is refused: its first unknown direction token.
pub open spec fn middle_error(n: ParseNode) -> Option<Seq<char>> {
    match first_bad_direction(n.children@) {
        Some(j) => Some(unknown_direction_message(n.children@[j].text@)),
        None => None,
    }
}

/// The style a style block gives: all attributes unset.
pub open spec fn default_style() -> StyleView {
    StyleView { color: None, patterns: Seq::empty(), thickness: None, extra_attrs: Seq::empty() }
}

/// The middle part of an arrow: styled when it has a style block, with the
/// direction of its last direction token and the text of its last decorator.
pub open spec fn middle_model(n: ParseNode) -> MiddleView {
    let cs = n.children@;
    MiddleView {
        style: if last_with(cs, Rule::line_style_block) is Some {
            Some(default_style())
        } else {
            None
        },
        direction: match text_with(cs, Rule::arrow_direction) {
            Some(t) => direction_of(t),
            None => None,
        },
        decorator: text_with(cs, Rule::arrow_mid_decor),
    }
}

/// Reads the middle part of an arrow; an unknown direction token refuses it.
pub fn parse_arrow_middle(node: &ParseNode) -> (r: Result<ArrowMiddle, String>)
    ensures
        match middle_error(*node) {
            Some(m) => r matches Err(e) && e@ == m,
            None => r matches Ok(a) && middle_view(a) == middle_model(*node),
        },
{
    let cs = &node.children;
    let mut style: Option<ArrowStyle> = None;
    let mut direction: Option<ArrowDirection> = None;
    let mut decorator: Option<String> = None;
    let mut i: usize = 0;
    while i < cs.len()
        invariant
            i <= cs@.len(),
            cs == node.children,
            first_bad_direction(cs@.take(i as int)) is None,
            style is Some <==> last_with(cs@.take(i as int), Rule::line_style_block) is Some,
            style matches Some(st) ==> style_view(st) == default_style(),
            direction == (match text_with(cs@.take(i as int), Rule::arrow_direction) {
                Some(t) => direction_of(t),
                None => None,
            }),
            (match decorator {
                Some(d) => Some(d@),
                None => None,
            }) == text_with(cs@.take(i as int), Rule::arrow_mid_decor),
        decreases cs@.len() - i,
    {
        proof {
            lemma_take_step(cs@, i as int);
            lemma_last_step(cs@, i as int, Rule::line_style_block);
            lemma_last_step(cs@, i as int, Rule::arrow_direction);
            lemma_last_step(cs@, i as int, Rule::arrow_mid_decor);
        }
        let c = &cs[i];
        if c.rule == Rule::line_style_block {
            style = Some(ArrowStyle::default());
        } else if c.rule == Rule::arrow_direction {
            match parse_arrow_direction(c.text.as_str()) {
                Ok(d) => {
                    direction = Some(d);
                },
                Err(e) => {
                    proof {
                        assert(first_bad_direction(cs@.take(i + 1)) == Some(i as int));
                        lemma_first_bad_prefix(cs@, i + 1);
                    }
                    return Err(e);
                },
            }
        } else if c.rule == Rule::arrow_mid_decor {
            decorator = Some(c.text.clone());
        }
        i = i + 1;
    }
    assert(cs@.take(cs@.len() as int) =~= cs@);
    Ok(ArrowMiddle { style, direction, decorator })
}

/// The first middle part among `cs` that is refused.
pub open spec fn first_bad_middle(cs: Seq<ParseNode>) -> Option<int>
    decreases cs.len(),
{
    if cs.len() == 0 {
        None
    } else {
        match first_bad_middle(cs.drop_last()) {
            Some(i) => Some(i),
            None => if cs.last().rule == Rule::arrow_middle && middle_error(cs.last()) is Some {
                Some(cs.len() - 1)
            } else {
                None
            },
        }
    }
}

/// A refused middle part in a prefix is the first refused one of the whole.
pub proof fn lemma_first_bad_middle_prefix(cs: Seq<ParseNode>, k: int)
    requires
        0 <= k <= cs.len(),
    ensures
        first_bad_middle(cs.take(k)) matches Some(j) ==> first_bad_middle(cs) == Some(j),
    decreases cs.len(),
{
    if k < cs.len() {
        assert(cs.drop_last().take(k) =~= cs.take(k));
        lemma_first_bad_middle_prefix(cs.drop_last(), k);
    } else {
        assert(cs.take(k) =~= cs);
    }
}

/// Why an arrow is refused: its first refused middle part.
pub open spec fn arrow_error(n: ParseNode) -> Option<Seq<char>> {
    match first_bad_middle(n.children@) {
        Some(j) => middle_error(n.children@[j]),
        None => None,
    }
}

/// Whether a rule is a tail decoration of an arrow.
pub open spec fn is_left_decor(r: Rule) -> bool {
    r == Rule::arrow_prefix || r == Rule::sequence_arrow_prefix
}

/// Whether a rule is a head decoration of an arrow.
pub open spec fn is_right_decor(r: Rule) -> bool {
    r == Rule::arrow_suffix || r == Rule::sequence_arrow_suffix
}

/// The text of the last tail (`left`) or head decoration among `cs`.
pub open spec fn decor_text(cs: Seq<ParseNode>, left: bool) -> Option<Seq<char>>
    decreases cs.len(),
{
    if cs.len() == 0 {
        None
    } else if (if left {
        is_left_decor(cs.last().rule)
    } else {
        is_right_decor(cs.last().rule)
    }) {
        Some(cs.last().text@)
    } else {
        decor_text(cs.drop_last(), left)
    }
}

/// The line segments among `cs`, joined.
pub open spec fn segments_text(cs: Seq<ParseNode>) -> Seq<char>
    decreases cs.len(),
{
    if cs.len() == 0 {
        Seq::empty()
    } else if cs.last().rule == Rule::arrow_segment {
        segments_text(cs.drop_last()) + cs.last().text@
    } else {
        segments_text(cs.drop_last())
    }
}

/// The arrow a node denotes when no middle part is refused: its last tail and
/// head decorations, its joined line segments and its last middle part.
pub open spec fn arrow_model(n: ParseNode) -> ArrowView {
    let cs = n.children@;
    ArrowView {
        left: decor_text(cs, true),
        line: segments_text(cs),
        middle: match last_with(cs, Rule::arrow_middle) {
            Some(i) => Some(middle_model(cs[i])),
            None => None,
        },
        right: decor_text(cs, false),
    }
}

/// Reads an arrow: its decorations, line and middle part; a refused middle
/// part refuses the arrow.
pub fn parse_arrow(node: &ParseNode) -> (r: Result<Arrow, String>)
    ensures
        match arrow_error(*node) {
            Some(m) => r matches Err(e) && e@ == m,
            None => r matches Ok(a) && arrow_view(a) == arrow_model(*node),
        },
{
    let cs = &node.children;
    let mut left: Option<ArrowDecor> = None;
    let mut right: Option<ArrowDecor> = None;
    let mut line: Vec<char> = Vec::new();
    let mut middle: Option<ArrowMiddle> = None;
    let mut i: usize = 0;
    while i < cs.len()
        invariant
            i <= cs@.len(),
            cs == node.children,
            first_bad_middle(cs@.take(i as int)) is None,
            (match left {
                Some(d) => Some(d.raw@),
                None => None,
            }) == decor_text(cs@.take(i as int), true),
            (match right {
                Some(d) => Some(d.raw@),
                None => None,
            }) == decor_text(cs@.take(i as int), false),
            line@ == segments_text(cs@.take(i as int)),
            (match middle {
                Some(m) => Some(middle_view(m)),
                None => None,
            }) == (match last_with(cs@.take(i as int), Rule::arrow_middle) {
                Some(k) => Some(middle_model(cs@[k])),
                None => None,
            }),
        decreases cs@.len() - i,
    {
        proof {
            lemma_take_step(cs@, i as int);
            lemma_last_step(cs@, i as int, Rule::arrow_middle);
            lemma_last_with(cs@.take(i as int), Rule::arrow_middle);
        }
        let c = &cs[i];
        if c.rule == Rule::arrow_prefix || c.rule == Rule::sequence_arrow_prefix {
            left = Some(ArrowDecor { raw: c.text.clone() });
        } else if c.rule == Rule::arrow_suffix || c.rule == Rule::sequence_arrow_suffix {
            right = Some(ArrowDecor { raw: c.text.clone() });
        } else if c.rule == Rule::arrow_segment {
            let t = chars_of(c.text.as_str());
            push_all(&mut line, t.as_slice());
        } else if c.rule == Rule::arrow_middle {
            match parse_arrow_middle(c) {
                Ok(m) => {
                    middle = Some(m);
                },
                Err(e) => {
                    proof {
                        assert(first_bad_middle(cs@.take(i + 1)) == Some(i as int));
                        lemma_first_bad_middle_prefix(cs@, i + 1);
                    }
                    return Err(e);
                },
            }
        }
        i = i + 1;
    }
    assert(cs@.take(cs@.len() as int) =~= cs@);
    Ok(Arrow { left, line: ArrowLine { raw: string_of(line.as_slice()) }, middle, right })
}

} // verus!

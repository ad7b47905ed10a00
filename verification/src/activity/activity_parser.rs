//! Builds the statements of an activity diagram from the parse tree the
//! activity grammar produces.
use vstd::prelude::*;
use crate::activity::activity_ast::{
    ActStmtView, ActionStmt, ArrowStmt, BackwardStmt, ControlKind, ControlStmt, ElseStmt, EndIfStmt,
    EndWhileStmt, ForkAgainStmt, ForkEndKind, ForkEndStmt, ForkModifier, ForkStartStmt,
    IfStartStmt, RawActivityDiagram, RawActivitySourceSpan, RawActivityStmt, RepeatStartStmt, RepeatWhileStmt,
    StartStmt, StopStmt, SwimlaneStmt, TitleStmt, WhileStartStmt, opt_text_view, stmt_view, stmt_views,
};
use crate::parser_core::parse_tree::{
    ParseNode, Rule, find_first, first_text, first_text_with, first_with, last_text, lemma_first_with,
    lemma_take_step, text_with,
};
use crate::activity::creole::{creole_text, normalize_creole_chars};
use crate::text::{
    chars_of, string_of, trim, trimmed_chars, copy_range, concat_text, is_literal,
    contains_literal, contains_seq,
};

verus! {

/// Why a statement could not be built.
#[derive(Debug, Clone, PartialEq)]
pub enum ActivityParserError {
    InvalidStatement(String),
}


/// The plain text of a matched label: trimmed, then creole reduced.
pub open spec fn label_text(t: Seq<char>) -> Seq<char> {
    creole_text(trim(t))
}

/// Views an optional string.
pub open spec fn opt_view(s: Option<String>) -> Option<Seq<char>> {
    match s {
        Some(x) => Some(x@),
        None => None,
    }
}

/// Whether `r` is the invalid-statement error with message `m`.
pub open spec fn is_invalid(r: ActivityParserError, m: Seq<char>) -> bool {
    r matches ActivityParserError::InvalidStatement(s) && s@ == m
}

/// The plain text of a matched label.
fn label_of(t: &str) -> (r: String)
    ensures
        r@ == label_text(t@),
{
    let v = chars_of(t);
    let tr = trimmed_chars(v.as_slice());
    let out = normalize_creole_chars(tr.as_slice());
    string_of(out.as_slice())
}

/// An invalid-statement error with message `m`.
fn invalid_statement(m: &str) -> (r: ActivityParserError)
    ensures
        is_invalid(r, m@),
{
    ActivityParserError::InvalidStatement(m.to_owned())
}

/// The plain text of an optional matched label.
pub open spec fn opt_label_seq(t: Option<Seq<char>>) -> Option<Seq<char>> {
    match t {
        Some(s) => Some(label_text(s)),
        None => None,
    }
}

/// The plain text of an optional matched label.
fn opt_label_text(t: Option<String>) -> (r: Option<String>)
    ensures
        opt_view(r) == opt_label_seq(opt_view(t)),
{
    match t {
        Some(s) => Some(label_of(s.as_str())),
        None => None,
    }
}

/// The span a match covers.
pub open spec fn span_of(n: ParseNode) -> RawActivitySourceSpan {
    RawActivitySourceSpan { start_line: n.line, start_column: n.column, end_line: n.end_line, end_column: n.end_column }
}

/// The index of the first node of `cs` matching rule `a` or rule `b`.
pub open spec fn first_in(cs: Seq<ParseNode>, a: Rule, b: Rule) -> Option<int>
    decreases cs.len(),
{
    if cs.len() == 0 {
        None
    } else {
        match first_in(cs.drop_last(), a, b) {
            Some(i) => Some(i),
            None => if cs.last().rule == a || cs.last().rule == b {
                Some(cs.len() - 1)
            } else {
                None
            },
        }
    }
}

/// The index of the last node of `cs` matching rule `a` or rule `b`.
pub open spec fn last_in(cs: Seq<ParseNode>, a: Rule, b: Rule) -> Option<int>
    decreases cs.len(),
{
    if cs.len() == 0 {
        None
    } else if cs.last().rule == a || cs.last().rule == b {
        Some(cs.len() - 1)
    } else {
        last_in(cs.drop_last(), a, b)
    }
}

proof fn lemma_first_in(cs: Seq<ParseNode>, a: Rule, b: Rule)
    ensures
        first_in(cs, a, b) matches Some(i) ==> 0 <= i < cs.len() && (cs[i].rule == a || cs[i].rule == b) && forall|k: int|
            0 <= k < i ==> cs[k].rule != a && cs[k].rule != b,
        first_in(cs, a, b) is None ==> forall|k: int| 0 <= k < cs.len() ==> cs[k].rule != a && cs[k].rule != b,
    decreases cs.len(),
{
    if cs.len() > 0 {
        let d = cs.drop_last();
        lemma_first_in(d, a, b);
        assert(forall|k: int| 0 <= k < d.len() ==> d[k] == cs[k]);
    }
}

proof fn lemma_last_in(cs: Seq<ParseNode>, a: Rule, b: Rule)
    ensures
        last_in(cs, a, b) matches Some(i) ==> 0 <= i < cs.len() && (cs[i].rule == a || cs[i].rule == b),
    decreases cs.len(),
{
    if cs.len() > 0 && !(cs.last().rule == a || cs.last().rule == b) {
        lemma_last_in(cs.drop_last(), a, b);
    }
}

/// The index of the first child matching rule `a` or rule `b`.
fn find_first_in(cs: &Vec<ParseNode>, a: Rule, b: Rule) -> (o: Option<usize>)
    ensures
        match first_in(cs@, a, b) {
            Some(k) => o matches Some(i) && i as int == k,
            None => o is None,
        },
{
    proof {
        lemma_first_in(cs@, a, b);
    }
    let mut i: usize = 0;
    while i < cs.len()
        invariant
            i <= cs@.len(),
            forall|k: int| 0 <= k < i ==> cs@[k].rule != a && cs@[k].rule != b,
            first_in(cs@, a, b) matches Some(j) ==> 0 <= j < cs@.len() && (cs@[j].rule == a || cs@[j].rule == b)
                && forall|k: int| 0 <= k < j ==> cs@[k].rule != a && cs@[k].rule != b,
            first_in(cs@, a, b) is None ==> forall|k: int| 0 <= k < cs@.len() ==> cs@[k].rule != a && cs@[k].rule != b,
        decreases cs@.len() - i,
    {
        if cs[i].rule == a || cs[i].rule == b {
            return Some(i);
        }
        i = i + 1;
    }
    None
}

/// The index of the last child matching rule `a` or rule `b`.
fn find_last_in(cs: &Vec<ParseNode>, a: Rule, b: Rule) -> (o: Option<usize>)
    ensures
        match last_in(cs@, a, b) {
            Some(k) => o matches Some(i) && i as int == k,
            None => o is None,
        },
{
    let mut found: Option<usize> = None;
    let mut i: usize = 0;
    while i < cs.len()
        invariant
            i <= cs@.len(),
            match last_in(cs@.take(i as int), a, b) {
                Some(k) => found matches Some(j) && j as int == k,
                None => found is None,
            },
        decreases cs@.len() - i,
    {
        proof {
            lemma_take_step(cs@, i as int);
            lemma_last_in(cs@.take(i as int), a, b);
        }
        if cs[i].rule == a || cs[i].rule == b {
            found = Some(i);
        }
        i = i + 1;
    }
    assert(cs@.take(cs@.len() as int) =~= cs@);
    found
}

/// The label held by the last label part among `cs` of rule `a` or `b`: the
/// text of its first condition, creole reduced.
pub open spec fn nested_label(cs: Seq<ParseNode>, a: Rule, b: Rule) -> Option<Seq<char>> {
    match last_in(cs, a, b) {
        Some(i) => opt_label_seq(first_text_with(cs[i].children@, Rule::condition_text)),
        None => None,
    }
}

/// The label held by the last label part among `cs` of rule `a` or `b`.
fn read_nested_label(cs: &Vec<ParseNode>, a: Rule, b: Rule) -> (r: Option<String>)
    ensures
        opt_view(r) == nested_label(cs@, a, b),
{
    proof {
        lemma_last_in(cs@, a, b);
    }
    match find_last_in(cs, a, b) {
        Some(i) => opt_label_text(first_text(&cs[i].children, Rule::condition_text)),
        None => None,
    }
}

/// The title statement a match denotes, or why it is refused: the text
/// after the five-character keyword of its trimmed text.
pub open spec fn title_model(n: ParseNode, src: RawActivitySourceSpan) -> Result<ActStmtView, Seq<char>> {
    let t = trim(n.text@);
    if t.len() < 5 {
        Err("missing title text"@)
    } else {
        Ok(ActStmtView::Title(label_text(t.subrange(5, t.len() as int)), src))
    }
}

/// The arrow statement a match denotes, or why it is refused: its last arrow
/// syntax, trimmed, and its last label.
pub open spec fn arrow_stmt_model(n: ParseNode, src: RawActivitySourceSpan) -> Result<ActStmtView, Seq<char>> {
    match text_with(n.children@, Rule::connection_arrow) {
        None => Err("missing arrow syntax"@),
        Some(x) => Ok(ActStmtView::Arrow(trim(x), opt_label_seq(text_with(n.children@, Rule::arrow_text)), src)),
    }
}

/// The label of an action-like match of kind `kind`: its first action text,
/// or why it is refused.
pub open spec fn action_label_model(n: ParseNode, kind: Seq<char>) -> Result<Seq<char>, Seq<char>> {
    match first_in(n.children@, Rule::action_text, Rule::action_line_text) {
        Some(i) => Ok(label_text(n.children@[i].text@)),
        None => Err("missing "@ + kind + " label"@),
    }
}

/// The control statement a keyword denotes, or why it is refused.
pub open spec fn control_model(n: ParseNode, src: RawActivitySourceSpan) -> Result<ActStmtView, Seq<char>> {
    let t = trim(n.text@);
    if t == "break"@ {
        Ok(ActStmtView::Control(ControlKind::Break, src))
    } else if t == "kill"@ {
        Ok(ActStmtView::Control(ControlKind::Kill, src))
    } else if t == "detach"@ {
        Ok(ActStmtView::Control(ControlKind::Detach, src))
    } else {
        Err("invalid control kind: "@ + t)
    }
}

/// `break`, `kill` and `detach` (around blanks) are the three control
/// statements, each its own kind; any other keyword is refused, naming it.
pub proof fn lemma_control_keywords(n: ParseNode, src: RawActivitySourceSpan)
    ensures
        control_model(n, src) == Ok::<ActStmtView, Seq<char>>(ActStmtView::Control(ControlKind::Break, src)) <==> trim(
            n.text@,
        ) == "break"@,
        control_model(n, src) == Ok::<ActStmtView, Seq<char>>(ActStmtView::Control(ControlKind::Kill, src)) <==> trim(
            n.text@,
        ) == "kill"@,
        control_model(n, src) == Ok::<ActStmtView, Seq<char>>(ActStmtView::Control(ControlKind::Detach, src)) <==> trim(
            n.text@,
        ) == "detach"@,
        control_model(n, src) is Err <==> !(trim(n.text@) == "break"@ || trim(n.text@) == "kill"@ || trim(n.text@)
            == "detach"@),
{
    reveal_strlit("break");
    reveal_strlit("kill");
    reveal_strlit("detach");
    assert("break"@ != "kill"@) by {
        assert("break"@.len() == 5 && "kill"@.len() == 4);
    }
    assert("break"@ != "detach"@) by {
        assert("break"@.len() == 5 && "detach"@.len() == 6);
    }
    assert("kill"@ != "detach"@) by {
        assert("kill"@.len() == 4 && "detach"@.len() == 6);
    }
}

/// The modifier read from the fork modifiers among `cs`, or why the first
/// refused one is refused.
pub open spec fn fork_modifiers(cs: Seq<ParseNode>) -> Result<Option<ForkModifier>, Seq<char>>
    decreases cs.len(),
{
    if cs.len() == 0 {
        Ok(None)
    } else {
        match fork_modifiers(cs.drop_last()) {
            Err(m) => Err(m),
            Ok(md) => if cs.last().rule == Rule::fork_modifier {
                let t = cs.last().text@;
                if contains_seq(t, "and"@) {
                    Ok(Some(ForkModifier::And))
                } else if contains_seq(t, "or"@) {
                    Ok(Some(ForkModifier::Or))
                } else {
                    Err("invalid fork modifier: "@ + t)
                }
            } else {
                Ok(md)
            },
        }
    }
}

proof fn lemma_fork_modifiers_prefix(cs: Seq<ParseNode>, k: int)
    requires
        0 <= k <= cs.len(),
    ensures
        fork_modifiers(cs.take(k)) matches Err(m) ==> fork_modifiers(cs) == Err::<Option<ForkModifier>, Seq<char>>(m),
    decreases cs.len(),
{
    if k < cs.len() {
        assert(cs.drop_last().take(k) =~= cs.take(k));
        lemma_fork_modifiers_prefix(cs.drop_last(), k);
    } else {
        assert(cs.take(k) =~= cs);
    }
}

/// Whether a rule is one of the activity statements.
pub open spec fn is_statement_rule(r: Rule) -> bool {
    r == Rule::title_stmt || r == Rule::arrow_stmt || r == Rule::backward_stmt || r == Rule::action_stmt || r
        == Rule::control_stmt || r == Rule::start_stmt || r == Rule::stop_stmt || r == Rule::if_start_stmt || r
        == Rule::else_stmt || r == Rule::endif_stmt || r == Rule::while_start_stmt || r == Rule::endwhile_stmt || r
        == Rule::repeat_start_stmt || r == Rule::repeat_while_stmt || r == Rule::fork_start_stmt || r
        == Rule::fork_again_stmt || r == Rule::fork_end_stmt || r == Rule::swimlane_stmt
}

/// A statement result as a list of statements.
pub open spec fn one_stmt(r: Result<ActStmtView, Seq<char>>) -> Result<Seq<ActStmtView>, Seq<char>> {
    match r {
        Ok(v) => Ok(seq![v]),
        Err(m) => Err(m),
    }
}

/// The statements a statement match denotes, located at its span, or why it
/// is refused; a match of another rule denotes none.
pub open spec fn statement_model(n: ParseNode) -> Result<Seq<ActStmtView>, Seq<char>> {
    let src = span_of(n);
    let cs = n.children@;
    if n.rule == Rule::title_stmt {
        one_stmt(title_model(n, src))
    } else if n.rule == Rule::action_stmt {
        one_stmt(
            match action_label_model(n, "action"@) {
                Ok(l) => Ok(ActStmtView::Action(l, src)),
                Err(m) => Err(m),
            },
        )
    } else if n.rule == Rule::arrow_stmt {
        one_stmt(arrow_stmt_model(n, src))
    } else if n.rule == Rule::backward_stmt {
        one_stmt(
            match action_label_model(n, "backward"@) {
                Ok(l) => Ok(ActStmtView::Backward(l, src)),
                Err(m) => Err(m),
            },
        )
    } else if n.rule == Rule::control_stmt {
        one_stmt(control_model(n, src))
    } else if n.rule == Rule::start_stmt {
        Ok(seq![ActStmtView::Start(src)])
    } else if n.rule == Rule::stop_stmt {
        Ok(seq![ActStmtView::Stop(src)])
    } else if n.rule == Rule::if_start_stmt {
        match first_text_with(cs, Rule::condition_text) {
            None => Err("missing if condition"@),
            Some(c) => Ok(
                seq![ActStmtView::IfStart(label_text(c), nested_label(cs, Rule::if_pre_label, Rule::then_label), src)],
            ),
        }
    } else if n.rule == Rule::else_stmt {
        Ok(seq![ActStmtView::Else(opt_label_seq(first_text_with(cs, Rule::condition_text)), src)])
    } else if n.rule == Rule::endif_stmt {
        Ok(seq![ActStmtView::EndIf(src)])
    } else if n.rule == Rule::while_start_stmt {
        match first_text_with(cs, Rule::condition_text) {
            None => Err("missing while condition"@),
            Some(c) => Ok(
                seq![ActStmtView::WhileStart(label_text(c), nested_label(cs, Rule::while_label, Rule::while_label), src)],
            ),
        }
    } else if n.rule == Rule::endwhile_stmt {
        Ok(
            seq![
                ActStmtView::EndWhile(
                    match first_with(cs, Rule::endwhile_label) {
                        Some(i) => opt_label_seq(first_text_with(cs[i].children@, Rule::condition_text)),
                        None => None,
                    },
                    src,
                ),
            ],
        )
    } else if n.rule == Rule::repeat_start_stmt {
        Ok(seq![ActStmtView::RepeatStart(src)])
    } else if n.rule == Rule::repeat_while_stmt {
        match first_text_with(cs, Rule::condition_text) {
            None => Err("missing repeat while condition"@),
            Some(c) => Ok(
                seq![ActStmtView::RepeatWhile(label_text(c), nested_label(cs, Rule::repeat_label, Rule::repeat_label), src)],
            ),
        }
    } else if n.rule == Rule::fork_start_stmt {
        Ok(seq![ActStmtView::ForkStart(src)])
    } else if n.rule == Rule::fork_again_stmt {
        Ok(seq![ActStmtView::ForkAgain(src)])
    } else if n.rule == Rule::fork_end_stmt {
        match fork_modifiers(cs) {
            Err(m) => Err(m),
            Ok(md) => Ok(
                seq![
                    ActStmtView::ForkEnd(
                        if contains_seq(n.text@, "merge"@) {
                            ForkEndKind::EndMerge
                        } else {
                            ForkEndKind::EndFork
                        },
                        md,
                        src,
                    ),
                ],
            ),
        }
    } else if n.rule == Rule::swimlane_stmt {
        match first_text_with(cs, Rule::swimlane_text) {
            None => Err("missing swimlane name"@),
            Some(t) => Ok(seq![ActStmtView::Swimlane(label_text(t), src)]),
        }
    } else {
        Ok(Seq::empty())
    }
}

/// The name on a `@startuml` line: its first name part, trimmed.
pub open spec fn startuml_name(n: ParseNode) -> Option<Seq<char>> {
    match first_with(n.children@, Rule::puml_name) {
        Some(i) => Some(trim(n.children@[i].text@)),
        None => None,
    }
}

/// The parts of the top-level matches `pairs`, in order.
pub open spec fn diagram_items(pairs: Seq<ParseNode>) -> Seq<ParseNode>
    decreases pairs.len(),
{
    if pairs.len() == 0 {
        Seq::empty()
    } else {
        diagram_items(pairs.drop_last()) + pairs.last().children@
    }
}

/// The name and statements read from the parts `items` of a diagram, or why
/// the first refused statement is refused.
pub open spec fn diagram_fold(items: Seq<ParseNode>) -> Result<(Option<Seq<char>>, Seq<ActStmtView>), Seq<char>>
    decreases items.len(),
{
    if items.len() == 0 {
        Ok((None, Seq::empty()))
    } else {
        match diagram_fold(items.drop_last()) {
            Err(m) => Err(m),
            Ok(st) => {
                let c = items.last();
                if c.rule == Rule::startuml {
                    Ok((startuml_name(c), st.1))
                } else if is_statement_rule(c.rule) {
                    match statement_model(c) {
                        Err(m) => Err(m),
                        Ok(v) => Ok((st.0, st.1 + v)),
                    }
                } else {
                    Ok(st)
                }
            },
        }
    }
}

proof fn lemma_diagram_fold_extend(a: Seq<ParseNode>, b: Seq<ParseNode>)
    ensures
        diagram_fold(a) matches Err(m) ==> diagram_fold(a + b) == Err::<(Option<Seq<char>>, Seq<ActStmtView>), Seq<char>>(m),
    decreases b.len(),
{
    if b.len() == 0 {
        assert(a + b =~= a);
    } else {
        assert((a + b).drop_last() =~= a + b.drop_last());
        lemma_diagram_fold_extend(a, b.drop_last());
    }
}

proof fn lemma_diagram_items_concat(a: Seq<ParseNode>, b: Seq<ParseNode>)
    ensures
        diagram_items(a + b) == diagram_items(a) + diagram_items(b),
    decreases b.len(),
{
    if b.len() == 0 {
        assert(a + b =~= a);
        assert(diagram_items(a) + diagram_items(b) =~= diagram_items(a));
    } else {
        assert((a + b).drop_last() =~= a + b.drop_last());
        lemma_diagram_items_concat(a, b.drop_last());
        assert(diagram_items(a) + (diagram_items(b.drop_last()) + b.last().children@) =~= (diagram_items(a)
            + diagram_items(b.drop_last())) + b.last().children@);
    }
}

/// The diagram the top-level matches `pairs` denote, or why it is refused.
pub open spec fn diagram_model(pairs: Seq<ParseNode>) -> Result<(Option<Seq<char>>, Seq<ActStmtView>), Seq<char>> {
    diagram_fold(diagram_items(pairs))
}

/// Builds the statements of an activity diagram from its parse tree.
pub struct PumlActivityParser;

impl PumlActivityParser {
    /// The span a match covers.
    pub fn pair_source(node: &ParseNode) -> (r: RawActivitySourceSpan)
        ensures
            r == span_of(*node),
    {
        RawActivitySourceSpan {
            start_line: node.line,
            start_column: node.column,
            end_line: node.end_line,
            end_column: node.end_column,
        }
    }

    /// The name on a `@startuml` line.
    pub fn parse_startuml(node: &ParseNode) -> (r: Option<String>)
        ensures
            opt_view(r) == startuml_name(*node),
    {
        proof {
            lemma_first_with(node.children@, Rule::puml_name);
        }
        match find_first(&node.children, Rule::puml_name) {
            Some(i) => {
                let v = chars_of(node.children[i].text.as_str());
                let t = trimmed_chars(v.as_slice());
                Some(string_of(t.as_slice()))
            },
            None => None,
        }
    }

    /// Reads one statement, located at the span it covers; a match of a rule
    /// that is no statement yields none.
    pub fn parse_statement(node: &ParseNode) -> (r: Result<Vec<RawActivityStmt>, ActivityParserError>)
        ensures
            match statement_model(*node) {
                Ok(v) => r matches Ok(x) && stmt_views(x@) == v,
                Err(m) => r matches Err(e) && is_invalid(e, m),
            },
    {
        let source = Self::pair_source(node);
        let rule = node.rule;
        let statement = if rule == Rule::title_stmt {
            match Self::parse_title_stmt(node, source) {
                Ok(s) => RawActivityStmt::Title(s),
                Err(e) => {
                    return Err(e);
                },
            }
        } else if rule == Rule::action_stmt {
            match Self::parse_action_stmt(node, source) {
                Ok(s) => RawActivityStmt::Action(s),
                Err(e) => {
                    return Err(e);
                },
            }
        } else if rule == Rule::arrow_stmt {
            match Self::parse_arrow_stmt(node, source) {
                Ok(s) => RawActivityStmt::Arrow(s),
                Err(e) => {
                    return Err(e);
                },
            }
        } else if rule == Rule::backward_stmt {
            match Self::parse_backward_stmt(node, source) {
                Ok(s) => RawActivityStmt::Backward(s),
                Err(e) => {
                    return Err(e);
                },
            }
        } else if rule == Rule::control_stmt {
            match Self::parse_control_stmt(node, source) {
                Ok(s) => RawActivityStmt::Control(s),
                Err(e) => {
                    return Err(e);
                },
            }
        } else if rule == Rule::start_stmt {
            match Self::parse_start_stmt(source) {
                Ok(s) => RawActivityStmt::Start(s),
                Err(e) => {
                    return Err(e);
                },
            }
        } else if rule == Rule::stop_stmt {
            match Self::parse_stop_stmt(source) {
                Ok(s) => RawActivityStmt::Stop(s),
                Err(e) => {
                    return Err(e);
                },
            }
        } else if rule == Rule::if_start_stmt {
            match Self::parse_if_start_stmt(node, source) {
                Ok(s) => RawActivityStmt::IfStart(s),
                Err(e) => {
                    return Err(e);
                },
            }
        } else if rule == Rule::else_stmt {
            match Self::parse_else_stmt(node, source) {
                Ok(s) => RawActivityStmt::Else(s),
                Err(e) => {
                    return Err(e);
                },
            }
        } else if rule == Rule::endif_stmt {
            match Self::parse_endif_stmt(source) {
                Ok(s) => RawActivityStmt::EndIf(s),
                Err(e) => {
                    return Err(e);
                },
            }
        } else if rule == Rule::while_start_stmt {
            match Self::parse_while_start_stmt(node, source) {
                Ok(s) => RawActivityStmt::WhileStart(s),
                Err(e) => {
                    return Err(e);
                },
            }
        } else if rule == Rule::endwhile_stmt {
            match Self::parse_endwhile_stmt(node, source) {
                Ok(s) => RawActivityStmt::EndWhile(s),
                Err(e) => {
                    return Err(e);
                },
            }
        } else if rule == Rule::repeat_start_stmt {
            match Self::parse_repeat_start_stmt(source) {
                Ok(s) => RawActivityStmt::RepeatStart(s),
                Err(e) => {
                    return Err(e);
                },
            }
        } else if rule == Rule::repeat_while_stmt {
            match Self::parse_repeat_while_stmt(node, source) {
                Ok(s) => RawActivityStmt::RepeatWhile(s),
                Err(e) => {
                    return Err(e);
                },
            }
        } else if rule == Rule::fork_start_stmt {
            match Self::parse_fork_start_stmt(source) {
                Ok(s) => RawActivityStmt::ForkStart(s),
                Err(e) => {
                    return Err(e);
                },
            }
        } else if rule == Rule::fork_again_stmt {
            match Self::parse_fork_again_stmt(source) {
                Ok(s) => RawActivityStmt::ForkAgain(s),
                Err(e) => {
                    return Err(e);
                },
            }
        } else if rule == Rule::fork_end_stmt {
            match Self::parse_fork_end_stmt(node, source) {
                Ok(s) => RawActivityStmt::ForkEnd(s),
                Err(e) => {
                    return Err(e);
                },
            }
        } else if rule == Rule::swimlane_stmt {
            match Self::parse_swimlane_stmt(node, source) {
                Ok(s) => RawActivityStmt::Swimlane(s),
                Err(e) => {
                    return Err(e);
                },
            }
        } else {
            let empty: Vec<RawActivityStmt> = Vec::new();
            proof {
                assert(stmt_views(empty@) =~= Seq::<ActStmtView>::empty());
            }
            return Ok(empty);
        };
        let mut out: Vec<RawActivityStmt> = Vec::new();
        out.push(statement);
        proof {
            assert(stmt_views(out@) =~= seq![stmt_view(statement)]);
        }
        Ok(out)
    }

    /// `title <text>`: the text after the five-character keyword.
    pub fn parse_title_stmt(node: &ParseNode, source: RawActivitySourceSpan) -> (r: Result<
        TitleStmt,
        ActivityParserError,
    >)
        ensures
            match title_model(*node, source) {
                Ok(v) => r matches Ok(s) && stmt_view(RawActivityStmt::Title(s)) == v,
                Err(m) => r matches Err(e) && is_invalid(e, m),
            },
    {
        let v = chars_of(node.text.as_str());
        let t = trimmed_chars(v.as_slice());
        if t.len() < 5 {
            return Err(invalid_statement("missing title text"));
        }
        let rest = copy_range(t.as_slice(), 5, t.len());
        let tr = trimmed_chars(rest.as_slice());
        let text = normalize_creole_chars(tr.as_slice());
        Ok(TitleStmt { text: string_of(text.as_slice()), source })
    }

    /// An arrow: its syntax (required) and label.
    pub fn parse_arrow_stmt(node: &ParseNode, source: RawActivitySourceSpan) -> (r: Result<
        ArrowStmt,
        ActivityParserError,
    >)
        ensures
            match arrow_stmt_model(*node, source) {
                Ok(v) => r matches Ok(s) && stmt_view(RawActivityStmt::Arrow(s)) == v,
                Err(m) => r matches Err(e) && is_invalid(e, m),
            },
    {
        let syntax = last_text(&node.children, Rule::connection_arrow);
        let label = opt_label_text(last_text(&node.children, Rule::arrow_text));
        match syntax {
            None => Err(invalid_statement("missing arrow syntax")),
            Some(x) => {
                let v = chars_of(x.as_str());
                let t = trimmed_chars(v.as_slice());
                Ok(ArrowStmt { syntax: string_of(t.as_slice()), label, source })
            },
        }
    }

    /// The label of an action-like statement of kind `statement_kind`: its
    /// first action text.
    pub fn parse_action_label(node: &ParseNode, statement_kind: &str) -> (r: Result<String, ActivityParserError>)
        ensures
            match action_label_model(*node, statement_kind@) {
                Ok(l) => r matches Ok(s) && s@ == l,
                Err(m) => r matches Err(e) && is_invalid(e, m),
            },
    {
        proof {
            lemma_first_in(node.children@, Rule::action_text, Rule::action_line_text);
        }
        match find_first_in(&node.children, Rule::action_text, Rule::action_line_text) {
            Some(i) => Ok(label_of(node.children[i].text.as_str())),
            None => {
                let k = chars_of(statement_kind);
                let mut m = chars_of("missing ");
                crate::text::push_all(&mut m, k.as_slice());
                let tail = chars_of(" label");
                crate::text::push_all(&mut m, tail.as_slice());
                Err(ActivityParserError::InvalidStatement(string_of(m.as_slice())))
            },
        }
    }

    /// `:label;`.
    pub fn parse_action_stmt(node: &ParseNode, source: RawActivitySourceSpan) -> (r: Result<
        ActionStmt,
        ActivityParserError,
    >)
        ensures
            match action_label_model(*node, "action"@) {
                Ok(l) => r matches Ok(s) && s.label@ == l && s.source == source,
                Err(m) => r matches Err(e) && is_invalid(e, m),
            },
    {
        match Self::parse_action_label(node, "action") {
            Ok(label) => Ok(ActionStmt { label, source }),
            Err(e) => Err(e),
        }
    }

    /// `backward :label;`.
    pub fn parse_backward_stmt(node: &ParseNode, source: RawActivitySourceSpan) -> (r: Result<
        BackwardStmt,
        ActivityParserError,
    >)
        ensures
            match action_label_model(*node, "backward"@) {
                Ok(l) => r matches Ok(s) && s.label@ == l && s.source == source,
                Err(m) => r matches Err(e) && is_invalid(e, m),
            },
    {
        match Self::parse_action_label(node, "backward") {
            Ok(label) => Ok(BackwardStmt { label, source }),
            Err(e) => Err(e),
        }
    }

    /// `start`.
    pub fn parse_start_stmt(source: RawActivitySourceSpan) -> (r: Result<StartStmt, ActivityParserError>)
        ensures
            r == Ok::<StartStmt, ActivityParserError>(StartStmt { source }),
    {
        Ok(StartStmt { source })
    }

    /// `stop` / `end`.
    pub fn parse_stop_stmt(source: RawActivitySourceSpan) -> (r: Result<StopStmt, ActivityParserError>)
        ensures
            r == Ok::<StopStmt, ActivityParserError>(StopStmt { source }),
    {
        Ok(StopStmt { source })
    }

    /// `break`, `kill` or `detach`.
    pub fn parse_control_stmt(node: &ParseNode, source: RawActivitySourceSpan) -> (r: Result<
        ControlStmt,
        ActivityParserError,
    >)
        ensures
            match control_model(*node, source) {
                Ok(v) => r matches Ok(s) && stmt_view(RawActivityStmt::Control(s)) == v,
                Err(m) => r matches Err(e) && is_invalid(e, m),
            },
    {
        let v = chars_of(node.text.as_str());
        let t = trimmed_chars(v.as_slice());
        let s = t.as_slice();
        let kind = if is_literal(s, "break") {
            ControlKind::Break
        } else if is_literal(s, "kill") {
            ControlKind::Kill
        } else if is_literal(s, "detach") {
            ControlKind::Detach
        } else {
            return Err(ActivityParserError::InvalidStatement(concat_text("invalid control kind: ", s)));
        };
        Ok(ControlStmt { kind, source })
    }

    /// `if (condition) then (label)`: the first condition, and the label of
    /// the last label part.
    pub fn parse_if_start_stmt(node: &ParseNode, source: RawActivitySourceSpan) -> (r: Result<
        IfStartStmt,
        ActivityParserError,
    >)
        ensures
            match first_text_with(node.children@, Rule::condition_text) {
                None => r matches Err(e) && is_invalid(e, "missing if condition"@),
                Some(c) => r matches Ok(s) && s.source == source && s.condition@ == label_text(c) && opt_view(s.label)
                    == nested_label(node.children@, Rule::if_pre_label, Rule::then_label),
            },
    {
        let label = read_nested_label(&node.children, Rule::if_pre_label, Rule::then_label);
        match first_text(&node.children, Rule::condition_text) {
            None => Err(invalid_statement("missing if condition")),
            Some(c) => Ok(IfStartStmt { condition: label_of(c.as_str()), label, source }),
        }
    }

    /// `else (label)`.
    pub fn parse_else_stmt(node: &ParseNode, source: RawActivitySourceSpan) -> (r: Result<
        ElseStmt,
        ActivityParserError,
    >)
        ensures
            r matches Ok(s) && s.source == source && opt_view(s.label) == opt_label_seq(
                first_text_with(node.children@, Rule::condition_text),
            ),
    {
        Ok(ElseStmt { label: opt_label_text(first_text(&node.children, Rule::condition_text)), source })
    }

    /// `endif`.
    pub fn parse_endif_stmt(source: RawActivitySourceSpan) -> (r: Result<EndIfStmt, ActivityParserError>)
        ensures
            r == Ok::<EndIfStmt, ActivityParserError>(EndIfStmt { source }),
    {
        Ok(EndIfStmt { source })
    }

    /// `while (condition) is (label)`.
    pub fn parse_while_start_stmt(node: &ParseNode, source: RawActivitySourceSpan) -> (r: Result<
        WhileStartStmt,
        ActivityParserError,
    >)
        ensures
            match first_text_with(node.children@, Rule::condition_text) {
                None => r matches Err(e) && is_invalid(e, "missing while condition"@),
                Some(c) => r matches Ok(s) && s.source == source && s.condition@ == label_text(c) && opt_view(s.label)
                    == nested_label(node.children@, Rule::while_label, Rule::while_label),
            },
    {
        let label = read_nested_label(&node.children, Rule::while_label, Rule::while_label);
        match first_text(&node.children, Rule::condition_text) {
            None => Err(invalid_statement("missing while condition")),
            Some(c) => Ok(WhileStartStmt { condition: label_of(c.as_str()), label, source }),
        }
    }

    /// `endwhile (label)`: the first condition of its first label part.
    pub fn parse_endwhile_stmt(node: &ParseNode, source: RawActivitySourceSpan) -> (r: Result<
        EndWhileStmt,
        ActivityParserError,
    >)
        ensures
            r matches Ok(s) && s.source == source && opt_view(s.label) == (match first_with(
                node.children@,
                Rule::endwhile_label,
            ) {
                Some(i) => opt_label_seq(first_text_with(node.children@[i].children@, Rule::condition_text)),
                None => None,
            }),
    {
        proof {
            lemma_first_with(node.children@, Rule::endwhile_label);
        }
        let label = match find_first(&node.children, Rule::endwhile_label) {
            Some(i) => opt_label_text(first_text(&node.children[i].children, Rule::condition_text)),
            None => None,
        };
        Ok(EndWhileStmt { label, source })
    }

    /// `repeat`.
    pub fn parse_repeat_start_stmt(source: RawActivitySourceSpan) -> (r: Result<
        RepeatStartStmt,
        ActivityParserError,
    >)
        ensures
            r == Ok::<RepeatStartStmt, ActivityParserError>(RepeatStartStmt { source }),
    {
        Ok(RepeatStartStmt { source })
    }

    /// `repeat while (condition) is (label)`.
    pub fn parse_repeat_while_stmt(node: &ParseNode, source: RawActivitySourceSpan) -> (r: Result<
        RepeatWhileStmt,
        ActivityParserError,
    >)
        ensures
            match first_text_with(node.children@, Rule::condition_text) {
                None => r matches Err(e) && is_invalid(e, "missing repeat while condition"@),
                Some(c) => r matches Ok(s) && s.source == source && s.condition@ == label_text(c) && opt_view(s.label)
                    == nested_label(node.children@, Rule::repeat_label, Rule::repeat_label),
            },
    {
        let label = read_nested_label(&node.children, Rule::repeat_label, Rule::repeat_label);
        match first_text(&node.children, Rule::condition_text) {
            None => Err(invalid_statement("missing repeat while condition")),
            Some(c) => Ok(RepeatWhileStmt { condition: label_of(c.as_str()), label, source }),
        }
    }

    /// `fork`.
    pub fn parse_fork_start_stmt(source: RawActivitySourceSpan) -> (r: Result<
        ForkStartStmt,
        ActivityParserError,
    >)
        ensures
            r == Ok::<ForkStartStmt, ActivityParserError>(ForkStartStmt { source }),
    {
        Ok(ForkStartStmt { source })
    }

    /// `fork again`.
    pub fn parse_fork_again_stmt(source: RawActivitySourceSpan) -> (r: Result<
        ForkAgainStmt,
        ActivityParserError,
    >)
        ensures
            r == Ok::<ForkAgainStmt, ActivityParserError>(ForkAgainStmt { source }),
    {
        Ok(ForkAgainStmt { source })
    }

    /// `end fork` / `end merge` with optional `{and}`/`{or}` modifiers; the
    /// last modifier counts, and the first unknown one refuses the statement.
    pub fn parse_fork_end_stmt(node: &ParseNode, source: RawActivitySourceSpan) -> (r: Result<
        ForkEndStmt,
        ActivityParserError,
    >)
        ensures
            ({
                let kind = if contains_seq(node.text@, "merge"@) {
                    ForkEndKind::EndMerge
                } else {
                    ForkEndKind::EndFork
                };
                match fork_modifiers(node.children@) {
                    Ok(md) => r == Ok::<ForkEndStmt, ActivityParserError>(ForkEndStmt { kind, modifier: md, source }),
                    Err(m) => r matches Err(e) && is_invalid(e, m),
                }
            }),
    {
        let v = chars_of(node.text.as_str());
        let kind = if contains_literal(v.as_slice(), "merge") {
            ForkEndKind::EndMerge
        } else {
            ForkEndKind::EndFork
        };
        let cs = &node.children;
        let mut modifier: Option<ForkModifier> = None;
        let mut i: usize = 0;
        while i < cs.len()
            invariant
                i <= cs@.len(),
                cs == node.children,
                fork_modifiers(cs@.take(i as int)) == Ok::<Option<ForkModifier>, Seq<char>>(modifier),
            decreases cs@.len() - i,
        {
            proof {
                lemma_take_step(cs@, i as int);
            }
            if cs[i].rule == Rule::fork_modifier {
                let mv = chars_of(cs[i].text.as_str());
                if contains_literal(mv.as_slice(), "and") {
                    modifier = Some(ForkModifier::And);
                } else if contains_literal(mv.as_slice(), "or") {
                    modifier = Some(ForkModifier::Or);
                } else {
                    let e = ActivityParserError::InvalidStatement(concat_text("invalid fork modifier: ", mv.as_slice()));
                    proof {
                        assert(fork_modifiers(cs@.take(i + 1)) matches Err(m) && is_invalid(e, m));
                        lemma_fork_modifiers_prefix(cs@, i + 1);
                    }
                    return Err(e);
                }
            }
            i = i + 1;
        }
        assert(cs@.take(cs@.len() as int) =~= cs@);
        Ok(ForkEndStmt { kind, modifier, source })
    }

    /// `|name|`: the text of its first name part.
    pub fn parse_swimlane_stmt(node: &ParseNode, source: RawActivitySourceSpan) -> (r: Result<
        SwimlaneStmt,
        ActivityParserError,
    >)
        ensures
            match first_text_with(node.children@, Rule::swimlane_text) {
                None => r matches Err(e) && is_invalid(e, "missing swimlane name"@),
                Some(n) => r matches Ok(s) && s.source == source && s.name@ == label_text(n),
            },
    {
        match first_text(&node.children, Rule::swimlane_text) {
            None => Err(invalid_statement("missing swimlane name")),
            Some(n) => Ok(SwimlaneStmt { name: label_of(n.as_str()), source }),
        }
    }

    /// Builds the diagram the top-level matches `pairs` of an activity diagram
    /// denote: the name of its `@startuml` line and its statements in order;
    /// the first refused statement refuses it.
    pub fn parse_file(&mut self, pairs: &Vec<ParseNode>) -> (r: Result<RawActivityDiagram, ActivityParserError>)
        ensures
            match diagram_model(pairs@) {
                Ok(st) => r matches Ok(d) && opt_view(d.name) == st.0 && stmt_views(d.statements@) == st.1,
                Err(m) => r matches Err(e) && is_invalid(e, m),
            },
    {
        let mut document = RawActivityDiagram { name: None, statements: Vec::new() };
        proof {
            assert(stmt_views(document.statements@) =~= Seq::<ActStmtView>::empty());
            assert(pairs@.take(0) =~= Seq::<ParseNode>::empty());
        }
        let mut i: usize = 0;
        while i < pairs.len()
            invariant
                i <= pairs@.len(),
                diagram_fold(diagram_items(pairs@.take(i as int))) matches Ok(st) && opt_view(document.name) == st.0
                    && stmt_views(document.statements@) == st.1,
            decreases pairs@.len() - i,
        {
            proof {
                lemma_take_step(pairs@, i as int);
            }
            let pair = &pairs[i];
            let cs = &pair.children;
            let ghost prior = diagram_items(pairs@.take(i as int));
            proof {
                assert(prior + cs@.take(0) =~= prior);
            }
            let mut j: usize = 0;
            while j < cs.len()
                invariant
                    j <= cs@.len(),
                    cs == pair.children,
                    *pair == pairs@[i as int],
                    i < pairs@.len(),
                    prior == diagram_items(pairs@.take(i as int)),
                    diagram_items(pairs@.take(i + 1)) == prior + cs@,
                    diagram_fold(prior + cs@.take(j as int)) matches Ok(st) && opt_view(document.name) == st.0
                        && stmt_views(document.statements@) == st.1,
                decreases cs@.len() - j,
            {
                proof {
                    lemma_take_step(cs@, j as int);
                    assert((prior + cs@.take(j + 1)).drop_last() =~= prior + cs@.take(j as int));
                    assert((prior + cs@.take(j + 1)).last() == cs@[j as int]);
                }
                let c = &cs[j];
                let rule = c.rule;
                if rule == Rule::startuml {
                    document.name = Self::parse_startuml(c);
                } else if rule == Rule::title_stmt || rule == Rule::arrow_stmt || rule == Rule::backward_stmt || rule
                    == Rule::action_stmt || rule == Rule::control_stmt || rule == Rule::start_stmt || rule
                    == Rule::stop_stmt || rule == Rule::if_start_stmt || rule == Rule::else_stmt || rule
                    == Rule::endif_stmt || rule == Rule::while_start_stmt || rule == Rule::endwhile_stmt || rule
                    == Rule::repeat_start_stmt || rule == Rule::repeat_while_stmt || rule == Rule::fork_start_stmt
                    || rule == Rule::fork_again_stmt || rule == Rule::fork_end_stmt || rule == Rule::swimlane_stmt {
                    match Self::parse_statement(c) {
                        Ok(mut v) => {
                            let ghost before = document.statements@;
                            let ghost added = v@;
                            document.statements.append(&mut v);
                            proof {
                                assert(stmt_views(document.statements@) =~= stmt_views(before) + stmt_views(added));
                            }
                        },
                        Err(e) => {
                            proof {
                                let seen = prior + cs@.take(j + 1);
                                assert(diagram_fold(seen) matches Err(m) && is_invalid(e, m));
                                let rest = cs@.skip(j + 1) + diagram_items(pairs@.skip(i + 1));
                                assert(pairs@ =~= pairs@.take(i + 1) + pairs@.skip(i + 1));
                                lemma_diagram_items_concat(pairs@.take(i + 1), pairs@.skip(i + 1));
                                assert(cs@ =~= cs@.take(j + 1) + cs@.skip(j + 1));
                                assert(diagram_items(pairs@) =~= seen + rest);
                                lemma_diagram_fold_extend(seen, rest);
                            }
                            return Err(e);
                        },
                    }
                }
                j = j + 1;
            }
            proof {
                assert(cs@.take(cs@.len() as int) =~= cs@);
            }
            i = i + 1;
        }
        assert(pairs@.take(pairs@.len() as int) =~= pairs@);
        Ok(document)
    }
}

} // verus!

//! Builds the procedure layer of a PlantUML file from the parse tree the
//! procedure grammar produces.
use vstd::prelude::*;
use crate::parser_core::parse_tree::{ParseNode, Rule, lemma_take_step};
use crate::preprocessor::procedure_ast::{
    Arg, ArgView, BodyNode, BodyView, CallView, MacroCallDef, PartView, ProcView, ProcedureDef, ProcedureFile,
    Statement, StmtView, TextPart, arg_view, arg_views, body_view, call_view, part_view, part_views, proc_view,
    stmt_view,
};
use crate::text::{
    alphanumeric, chars_of, copy_range, i64_value, is_alphanumeric, parse_i64, string_of, trim, trimmed_chars,
};

verus! {

/// Whether `c` may continue a `$variable` name: alphanumeric or `_`.
pub open spec fn ident_char(c: char) -> bool {
    alphanumeric(c) || c == '_'
}

/// The longest prefix of `s` made of name characters.
pub open spec fn ident_run(s: Seq<char>) -> Seq<char>
    decreases s.len(),
{
    if s.len() > 0 && ident_char(s[0]) {
        seq![s[0]] + ident_run(s.skip(1))
    } else {
        Seq::empty()
    }
}

/// A name run is a prefix of the text it is read from.
pub proof fn lemma_ident_run_len(s: Seq<char>)
    ensures
        ident_run(s).len() <= s.len(),
        ident_run(s) == s.take(ident_run(s).len() as int),
    decreases s.len(),
{
    if s.len() > 0 && ident_char(s[0]) {
        lemma_ident_run_len(s.skip(1));
        assert(seq![s[0]] + ident_run(s.skip(1)) =~= s.take(ident_run(s).len() as int));
    } else {
        assert(s.take(0) =~= Seq::<char>::empty());
    }
}

/// The literal piece of the pending text, if there is any.
pub open spec fn flush(cur: Seq<char>) -> Seq<PartView> {
    if cur.len() > 0 {
        seq![PartView::Literal(cur)]
    } else {
        Seq::empty()
    }
}

/// The pieces of the text `s`, with `cur` pending: a `$` that does not follow
/// a name character starts a variable made of it and the name characters
/// after it; everything else is literal.
pub open spec fn split_parts(s: Seq<char>, cur: Seq<char>) -> Seq<PartView>
    decreases s.len(),
{
    if s.len() == 0 {
        flush(cur)
    } else if s[0] == '$' {
        if cur.len() > 0 && ident_char(cur.last()) {
            split_parts(s.skip(1), cur.push('$'))
        } else {
            let run = ident_run(s.skip(1));
            proof {
                lemma_ident_run_len(s.skip(1));
            }
            flush(cur) + seq![PartView::Variable(seq!['$'] + run)] + split_parts(
                s.skip(1 + run.len() as int),
                Seq::empty(),
            )
        }
    } else {
        split_parts(s.skip(1), cur.push(s[0]))
    }
}

/// Whether `c` may continue a `$variable` name.
fn is_ident_char(c: char) -> (r: bool)
    ensures
        r == ident_char(c),
{
    is_alphanumeric(c) || c == '_'
}

/// Splits a body text line into literal pieces and `$variable` pieces.
pub fn parse_text_line(node: &ParseNode) -> (r: Vec<TextPart>)
    ensures
        part_views(r@) == split_parts(node.text@, Seq::empty()),
{
    let v = chars_of(node.text.as_str());
    let mut parts: Vec<TextPart> = Vec::new();
    let mut cur: Vec<char> = Vec::new();
    let mut i: usize = 0;
    proof {
        assert(v@.skip(0) =~= v@);
        assert(part_views(parts@) =~= Seq::<PartView>::empty());
        assert(cur@ =~= Seq::<char>::empty());
    }
    while i < v.len()
        invariant
            i <= v@.len(),
            v@ == node.text@,
            part_views(parts@) + split_parts(v@.skip(i as int), cur@) == split_parts(v@, Seq::empty()),
        decreases v@.len() - i,
    {
        let c = v[i];
        let ghost s = v@.skip(i as int);
        proof {
            assert(s[0] == c);
            assert(s.skip(1) =~= v@.skip(i + 1));
        }
        if c == '$' {
            let prev_ident = cur.len() > 0 && is_ident_char(cur[cur.len() - 1]);
            if prev_ident {
                proof {
                    assert(cur@.last() == cur@[cur@.len() - 1]);
                    assert(split_parts(s, cur@) == split_parts(s.skip(1), cur@.push('$')));
                }
                cur.push('$');
                i = i + 1;
            } else {
                let ghost before = parts@;
                let ghost pending = cur@;
                if cur.len() > 0 {
                    parts.push(TextPart::Literal(string_of(cur.as_slice())));
                    cur = Vec::new();
                }
                proof {
                    assert(part_views(parts@) =~= part_views(before) + flush(pending));
                }
                let mut var: Vec<char> = Vec::new();
                var.push('$');
                let mut j: usize = i + 1;
                proof {
                    lemma_ident_run_len(v@.skip(i + 1));
                    assert(v@.subrange(i + 1, j as int) =~= Seq::<char>::empty());
                    assert(var@ =~= seq!['$'] + v@.subrange(i + 1, j as int));
                }
                while j < v.len() && is_ident_char(v[j])
                    invariant
                        i + 1 <= j <= v@.len(),
                        var@ == seq!['$'] + v@.subrange(i + 1, j as int),
                        ident_run(v@.skip(i + 1)) == v@.subrange(i + 1, j as int) + ident_run(v@.skip(j as int)),
                    decreases v@.len() - j,
                {
                    proof {
                        let t = v@.skip(j as int);
                        assert(t[0] == v@[j as int]);
                        assert(t.skip(1) =~= v@.skip(j + 1));
                        assert(v@.subrange(i + 1, j + 1) =~= v@.subrange(i + 1, j as int).push(v@[j as int]));
                    }
                    var.push(v[j]);
                    j = j + 1;
                }
                proof {
                    assert(ident_run(v@.skip(j as int)) =~= Seq::<char>::empty());
                    let run = ident_run(v@.skip(i + 1));
                    assert(run =~= v@.subrange(i + 1, j as int));
                    assert(s.skip(1 + run.len() as int) =~= v@.skip(j as int));
                }
                let ghost mid = parts@;
                parts.push(TextPart::Variable(string_of(var.as_slice())));
                proof {
                    assert(part_views(parts@) =~= part_views(mid).push(PartView::Variable(var@)));
                    let run = ident_run(v@.skip(i + 1));
                    assert(split_parts(s, pending) == flush(pending) + seq![PartView::Variable(seq!['$'] + run)]
                        + split_parts(s.skip(1 + run.len() as int), Seq::empty()));
                    assert(var@ == seq!['$'] + run);
                    assert(cur@ =~= Seq::<char>::empty());
                    assert(part_views(parts@) =~= part_views(before) + flush(pending) + seq![PartView::Variable(var@)]);
                    assert(part_views(parts@) + split_parts(v@.skip(j as int), cur@) =~= part_views(before)
                        + split_parts(s, pending));
                }
                i = j;
            }
        } else {
            proof {
                assert(split_parts(s, cur@) == split_parts(s.skip(1), cur@.push(c)));
            }
            cur.push(c);
            i = i + 1;
        }
    }
    let ghost before = parts@;
    if cur.len() > 0 {
        parts.push(TextPart::Literal(string_of(cur.as_slice())));
    }
    proof {
        assert(v@.skip(v@.len() as int) =~= Seq::<char>::empty());
        assert(part_views(parts@) =~= part_views(before) + flush(cur@));
    }
    parts
}

/// Whether an argument match has the shape the grammar gives it: a variable,
/// a quoted string (ASCII quotes), a number that fits an `i64`, or an identifier.
pub open spec fn arg_ok(n: ParseNode) -> bool {
    &&& n.children@.len() > 0
    &&& {
        let c = n.children@[0];
        let t = c.text@;
        ||| c.rule == Rule::macro_identifier
        ||| c.rule == Rule::identifier
        ||| (c.rule == Rule::string && t.len() >= 2 && (t[0] as u32) < 128 && (t.last() as u32) < 128)
        ||| (c.rule == Rule::number && i64_value(t) is Some)
    }
}

/// The argument a match denotes.
pub open spec fn arg_model(n: ParseNode) -> ArgView {
    let c = n.children@[0];
    let t = c.text@;
    if c.rule == Rule::macro_identifier {
        ArgView::Variable(t)
    } else if c.rule == Rule::string {
        ArgView::Str(t.subrange(1, t.len() - 1))
    } else if c.rule == Rule::number {
        ArgView::Number(i64_value(t)->Some_0)
    } else {
        ArgView::Identifier(t)
    }
}

/// Reads a call argument.
pub fn parse_arg(node: &ParseNode) -> (r: Arg)
    requires
        arg_ok(*node),
    ensures
        arg_view(r) == arg_model(*node),
{
    let inner = &node.children[0];
    if inner.rule == Rule::macro_identifier {
        Arg::Variable(inner.text.clone())
    } else if inner.rule == Rule::string {
        let v = chars_of(inner.text.as_str());
        let s = copy_range(v.as_slice(), 1, v.len() - 1);
        Arg::String(string_of(s.as_slice()))
    } else if inner.rule == Rule::number {
        let v = chars_of(inner.text.as_str());
        match parse_i64(v.as_slice()) {
            Some(n) => Arg::Number(n),
            None => Arg::Number(0),
        }
    } else {
        Arg::Identifier(inner.text.clone())
    }
}

/// Whether every argument among `cs` has its shape.
pub open spec fn args_ok(cs: Seq<ParseNode>) -> bool {
    forall|k: int| 0 <= k < cs.len() ==> arg_ok(#[trigger] cs[k])
}

/// Reads the arguments of an argument list, in order.
pub fn parse_arg_list(node: &ParseNode) -> (r: Vec<Arg>)
    requires
        args_ok(node.children@),
    ensures
        arg_views(r@) == node.children@.map_values(|a: ParseNode| arg_model(a)),
{
    let cs = &node.children;
    let mut out: Vec<Arg> = Vec::new();
    let mut i: usize = 0;
    while i < cs.len()
        invariant
            i <= cs@.len(),
            cs == node.children,
            args_ok(cs@),
            arg_views(out@) == cs@.take(i as int).map_values(|a: ParseNode| arg_model(a)),
        decreases cs@.len() - i,
    {
        proof {
            lemma_take_step(cs@, i as int);
        }
        let ghost before = out@;
        let a = parse_arg(&cs[i]);
        out.push(a);
        proof {
            assert(arg_views(out@) =~= arg_views(before).push(arg_view(a)));
            assert(cs@.take(i + 1).map_values(|a: ParseNode| arg_model(a)) =~= cs@.take(i as int).map_values(
                |a: ParseNode| arg_model(a),
            ).push(arg_model(cs@[i as int])));
        }
        i = i + 1;
    }
    assert(cs@.take(cs@.len() as int) =~= cs@);
    out
}

/// Whether a call match's argument lists have their shapes.
pub open spec fn call_ok(n: ParseNode) -> bool {
    forall|k: int|
        0 <= k < n.children@.len() && (#[trigger] n.children@[k]).rule == Rule::arg_list ==> args_ok(
            n.children@[k].children@,
        )
}

/// The name and arguments read from the parts `cs` of a call: the last
/// identifier and the last argument list.
pub open spec fn call_fold(cs: Seq<ParseNode>) -> (Seq<char>, Seq<ArgView>)
    decreases cs.len(),
{
    if cs.len() == 0 {
        (Seq::empty(), Seq::empty())
    } else {
        let st = call_fold(cs.drop_last());
        let c = cs.last();
        if c.rule == Rule::macro_identifier || c.rule == Rule::identifier {
            (c.text@, st.1)
        } else if c.rule == Rule::arg_list {
            (st.0, c.children@.map_values(|a: ParseNode| arg_model(a)))
        } else {
            st
        }
    }
}

/// The call a match denotes, marked with the line it starts on.
pub open spec fn call_model(n: ParseNode) -> CallView {
    let st = call_fold(n.children@);
    CallView { name: st.0, args: st.1, line: Some(n.line) }
}

/// Reads a call: its name and arguments, marked with the line it starts on.
pub fn parse_macro_call(node: &ParseNode) -> (r: MacroCallDef)
    requires
        call_ok(*node),
    ensures
        call_view(r) == call_model(*node),
{
    let cs = &node.children;
    let mut name = String::new();
    let mut args: Vec<Arg> = Vec::new();
    let mut i: usize = 0;
    proof {
        assert(arg_views(args@) =~= Seq::<ArgView>::empty());
    }
    while i < cs.len()
        invariant
            i <= cs@.len(),
            cs == node.children,
            call_ok(*node),
            (name@, arg_views(args@)) == call_fold(cs@.take(i as int)),
        decreases cs@.len() - i,
    {
        proof {
            lemma_take_step(cs@, i as int);
        }
        let c = &cs[i];
        if c.rule == Rule::macro_identifier || c.rule == Rule::identifier {
            name = c.text.clone();
        } else if c.rule == Rule::arg_list {
            proof {
                assert(args_ok(cs@[i as int].children@));
            }
            args = parse_arg_list(c);
        }
        i = i + 1;
    }
    assert(cs@.take(cs@.len() as int) =~= cs@);
    MacroCallDef { name, args, line: Some(node.line) }
}

/// Whether every call among `cs` has well-shaped arguments.
pub open spec fn calls_ok(cs: Seq<ParseNode>) -> bool {
    forall|k: int| 0 <= k < cs.len() && (#[trigger] cs[k]).rule == Rule::macro_call_line ==> call_ok(cs[k])
}

/// The body lines the parts `cs` of a procedure body denote: calls and text lines.
pub open spec fn body_model(cs: Seq<ParseNode>) -> Seq<BodyView>
    decreases cs.len(),
{
    if cs.len() == 0 {
        Seq::empty()
    } else {
        let rest = body_model(cs.drop_last());
        let c = cs.last();
        if c.rule == Rule::macro_call_line {
            rest.push(BodyView::Call(call_model(c)))
        } else if c.rule == Rule::text_line {
            rest.push(BodyView::Text(split_parts(c.text@, Seq::empty())))
        } else {
            rest
        }
    }
}

/// Reads the lines of a procedure body.
pub fn parse_body(node: &ParseNode) -> (r: Vec<BodyNode>)
    requires
        calls_ok(node.children@),
    ensures
        r@.map_values(|b: BodyNode| body_view(b)) == body_model(node.children@),
{
    let cs = &node.children;
    let mut out: Vec<BodyNode> = Vec::new();
    let mut i: usize = 0;
    proof {
        assert(out@.map_values(|b: BodyNode| body_view(b)) =~= Seq::<BodyView>::empty());
    }
    while i < cs.len()
        invariant
            i <= cs@.len(),
            cs == node.children,
            calls_ok(cs@),
            out@.map_values(|b: BodyNode| body_view(b)) == body_model(cs@.take(i as int)),
        decreases cs@.len() - i,
    {
        proof {
            lemma_take_step(cs@, i as int);
        }
        let c = &cs[i];
        let ghost before = out@;
        if c.rule == Rule::macro_call_line {
            proof {
                assert(call_ok(cs@[i as int]));
            }
            let b = BodyNode::MacroCall(parse_macro_call(c));
            out.push(b);
            proof {
                assert(out@.map_values(|b: BodyNode| body_view(b)) =~= before.map_values(|b: BodyNode| body_view(b)).push(
                    body_view(b),
                ));
            }
        } else if c.rule == Rule::text_line {
            let b = BodyNode::Text(parse_text_line(c));
            out.push(b);
            proof {
                assert(out@.map_values(|b: BodyNode| body_view(b)) =~= before.map_values(|b: BodyNode| body_view(b)).push(
                    body_view(b),
                ));
            }
        }
        i = i + 1;
    }
    assert(cs@.take(cs@.len() as int) =~= cs@);
    out
}

/// Whether a procedure definition's calls have well-shaped arguments.
pub open spec fn procedure_ok(n: ParseNode) -> bool {
    forall|k: int|
        0 <= k < n.children@.len() && (#[trigger] n.children@[k]).rule == Rule::procedure_body ==> calls_ok(
            n.children@[k].children@,
        )
}

/// The name, parameters and body read from the parts `cs` of a procedure
/// definition; each part of these rules replaces what came before.
pub open spec fn procedure_fold(cs: Seq<ParseNode>) -> ProcView
    decreases cs.len(),
{
    if cs.len() == 0 {
        ProcView { name: Seq::empty(), params: Seq::empty(), body: Seq::empty() }
    } else {
        let st = procedure_fold(cs.drop_last());
        let c = cs.last();
        if c.rule == Rule::proc_name {
            ProcView { name: c.text@, ..st }
        } else if c.rule == Rule::param_list {
            ProcView { params: c.children@.map_values(|p: ParseNode| p.text@), ..st }
        } else if c.rule == Rule::procedure_body {
            ProcView { body: body_model(c.children@), ..st }
        } else {
            st
        }
    }
}

/// Reads a procedure definition.
pub fn parse_procedure(node: &ParseNode) -> (r: ProcedureDef)
    requires
        procedure_ok(*node),
    ensures
        proc_view(r) == procedure_fold(node.children@),
{
    let cs = &node.children;
    let mut name = String::new();
    let mut params: Vec<String> = Vec::new();
    let mut body: Vec<BodyNode> = Vec::new();
    let mut i: usize = 0;
    proof {
        assert(params@.map_values(|s: String| s@) =~= Seq::<Seq<char>>::empty());
        assert(body@.map_values(|b: BodyNode| body_view(b)) =~= Seq::<BodyView>::empty());
    }
    while i < cs.len()
        invariant
            i <= cs@.len(),
            cs == node.children,
            procedure_ok(*node),
            (ProcView {
                name: name@,
                params: params@.map_values(|s: String| s@),
                body: body@.map_values(|b: BodyNode| body_view(b)),
            }) == procedure_fold(cs@.take(i as int)),
        decreases cs@.len() - i,
    {
        proof {
            lemma_take_step(cs@, i as int);
        }
        let c = &cs[i];
        if c.rule == Rule::proc_name {
            name = c.text.clone();
        } else if c.rule == Rule::param_list {
            let ps = &c.children;
            let mut out: Vec<String> = Vec::new();
            let mut j: usize = 0;
            while j < ps.len()
                invariant
                    j <= ps@.len(),
                    ps == c.children,
                    out@.map_values(|s: String| s@) == ps@.take(j as int).map_values(|p: ParseNode| p.text@),
                decreases ps@.len() - j,
            {
                proof {
                    lemma_take_step(ps@, j as int);
                }
                let ghost before = out@;
                let t = ps[j].text.clone();
                out.push(t);
                proof {
                    assert(out@.map_values(|s: String| s@) =~= before.map_values(|s: String| s@).push(t@));
                    assert(ps@.take(j + 1).map_values(|p: ParseNode| p.text@) =~= ps@.take(j as int).map_values(
                        |p: ParseNode| p.text@,
                    ).push(ps@[j as int].text@));
                }
                j = j + 1;
            }
            proof {
                assert(ps@.take(ps@.len() as int) =~= ps@);
            }
            params = out;
        } else if c.rule == Rule::procedure_body {
            proof {
                assert(calls_ok(cs@[i as int].children@));
            }
            body = parse_body(c);
        }
        i = i + 1;
    }
    assert(cs@.take(cs@.len() as int) =~= cs@);
    ProcedureDef { name, params, body }
}

/// Whether every procedure and call among the lines `cs` has its shape.
pub open spec fn file_ok(cs: Seq<ParseNode>) -> bool {
    forall|k: int|
        0 <= k < cs.len() ==> ((#[trigger] cs[k]).rule == Rule::procedure_line ==> procedure_ok(cs[k])) && (
        cs[k].rule == Rule::macro_call_line ==> call_ok(cs[k]))
}

/// The statements the lines `cs` of a file denote: procedure definitions,
/// calls, and text lines trimmed when not blank.
pub open spec fn file_model(cs: Seq<ParseNode>) -> Seq<StmtView>
    decreases cs.len(),
{
    if cs.len() == 0 {
        Seq::empty()
    } else {
        let rest = file_model(cs.drop_last());
        let c = cs.last();
        if c.rule == Rule::procedure_line {
            rest.push(StmtView::Procedure(procedure_fold(c.children@)))
        } else if c.rule == Rule::macro_call_line {
            rest.push(StmtView::Call(call_model(c)))
        } else if c.rule == Rule::text_line && trim(c.text@).len() > 0 {
            rest.push(StmtView::Text(trim(c.text@)))
        } else {
            rest
        }
    }
}

/// Reads the procedure layer of PlantUML files.
pub struct ProcedureParserService;

impl ProcedureParserService {
    /// Reads the statements of a file from the match of the whole file.
    pub fn parse_file(&mut self, file: &ParseNode) -> (r: ProcedureFile)
        requires
            file_ok(file.children@),
        ensures
            r.stmts@.map_values(|s: Statement| stmt_view(s)) == file_model(file.children@),
    {
        let cs = &file.children;
        let mut stmts: Vec<Statement> = Vec::new();
        let mut i: usize = 0;
        proof {
            assert(stmts@.map_values(|s: Statement| stmt_view(s)) =~= Seq::<StmtView>::empty());
        }
        while i < cs.len()
            invariant
                i <= cs@.len(),
                cs == file.children,
                file_ok(cs@),
                stmts@.map_values(|s: Statement| stmt_view(s)) == file_model(cs@.take(i as int)),
            decreases cs@.len() - i,
        {
            proof {
                lemma_take_step(cs@, i as int);
            }
            let c = &cs[i];
            let ghost before = stmts@;
            if c.rule == Rule::procedure_line {
                let s = Statement::Procedure(parse_procedure(c));
                stmts.push(s);
                proof {
                    assert(stmts@.map_values(|s: Statement| stmt_view(s)) =~= before.map_values(
                        |s: Statement| stmt_view(s),
                    ).push(stmt_view(s)));
                }
            } else if c.rule == Rule::macro_call_line {
                let s = Statement::MacroCall(parse_macro_call(c));
                stmts.push(s);
                proof {
                    assert(stmts@.map_values(|s: Statement| stmt_view(s)) =~= before.map_values(
                        |s: Statement| stmt_view(s),
                    ).push(stmt_view(s)));
                }
            } else if c.rule == Rule::text_line {
                let v = chars_of(c.text.as_str());
                let t = trimmed_chars(v.as_slice());
                if t.len() > 0 {
                    let s = Statement::Text(string_of(t.as_slice()));
                    stmts.push(s);
                    proof {
                        assert(stmts@.map_values(|s: Statement| stmt_view(s)) =~= before.map_values(
                            |s: Statement| stmt_view(s),
                        ).push(stmt_view(s)));
                    }
                }
            }
            i = i + 1;
        }
        assert(cs@.take(cs@.len() as int) =~= cs@);
        ProcedureFile { stmts }
    }
}

} // verus!

//! Expansion of procedure (macro) calls: each call is replaced by the body of
//! the procedure it names, with the call's arguments bound to the parameters.
use vstd::prelude::*;
use crate::preprocessor::procedure_ast::{
    Arg, BodyNode, MacroCallDef, ProcedureDef, ProcedureFile, Statement, TextPart,
};
use crate::text::{
    chars_of, has_prefix, int_text, join_seq, char_views, push_all, push_int, push_joined_chars,
    starts_with_literal, string_of,
};

verus! {

/// How deeply calls may nest inside procedure bodies.
pub const DEFAULT_MACRO_DEPTH: usize = 10;

/// Why an expansion failed.
#[derive(Debug, Clone, PartialEq)]
pub enum ProcedureExpandError {
    MacroNotDefined(String),
    ArgumentMismatch { name: String, expected: usize, actual: usize },
    UnknownVariable { name: String },
    RecursiveMacro { chain: Vec<String>, name: String },
    MaxDepthExceeded,
}

/// The content of an expansion error.
pub enum ExpandFailure {
    MacroNotDefined(Seq<char>),
    ArgumentMismatch(Seq<char>, nat, nat),
    UnknownVariable(Seq<char>),
    RecursiveMacro(Seq<Seq<char>>, Seq<char>),
    MaxDepthExceeded,
}

/// The character views of a sequence of strings.
pub open spec fn strings_view(v: Seq<String>) -> Seq<Seq<char>> {
    v.map_values(|s: String| s@)
}

impl View for ProcedureExpandError {
    type V = ExpandFailure;

    open spec fn view(&self) -> ExpandFailure {
        match self {
            ProcedureExpandError::MacroNotDefined(n) => ExpandFailure::MacroNotDefined(n@),
            ProcedureExpandError::ArgumentMismatch { name, expected, actual } => ExpandFailure::ArgumentMismatch(
                name@,
                *expected as nat,
                *actual as nat,
            ),
            ProcedureExpandError::UnknownVariable { name } => ExpandFailure::UnknownVariable(name@),
            ProcedureExpandError::RecursiveMacro { chain, name } => ExpandFailure::RecursiveMacro(
                strings_view(chain@),
                name@,
            ),
            ProcedureExpandError::MaxDepthExceeded => ExpandFailure::MaxDepthExceeded,
        }
    }
}

/// Variable bindings in scope, as (name, value) pairs; a later pair shadows an earlier one.
pub type Bindings = Seq<(Seq<char>, Seq<char>)>;

/// The views of exec bindings.
pub open spec fn bindings_view(ps: Seq<(String, String)>) -> Bindings {
    ps.map_values(|p: (String, String)| (p.0@, p.1@))
}

/// The value bound to `k`, if any (the last binding wins).
pub open spec fn lookup_param(ps: Bindings, k: Seq<char>) -> Option<Seq<char>>
    decreases ps.len(),
{
    if ps.len() == 0 {
        None
    } else if ps.last().0 == k {
        Some(ps.last().1)
    } else {
        lookup_param(ps.drop_last(), k)
    }
}

/// The procedure named `name` among those `stmts` define (a later definition wins).
pub open spec fn proc_named(stmts: Seq<Statement>, name: Seq<char>) -> Option<ProcedureDef>
    decreases stmts.len(),
{
    if stmts.len() == 0 {
        None
    } else {
        match stmts.last() {
            Statement::Procedure(p) => if p.name@ == name {
                Some(p)
            } else {
                proc_named(stmts.drop_last(), name)
            },
            _ => proc_named(stmts.drop_last(), name),
        }
    }
}

/// `x` in double quotes.
pub open spec fn quoted(x: Seq<char>) -> Seq<char> {
    seq!['"'] + x + seq!['"']
}

/// How an argument of an unknown call is written back: variables and
/// `$`-strings are substituted when bound.
pub open spec fn arg_text(a: Arg, ps: Bindings) -> Seq<char> {
    match a {
        Arg::Variable(v) => match lookup_param(ps, v@) {
            Some(x) => x,
            None => v@,
        },
        Arg::String(s) => if has_prefix(s@, "$"@) {
            match lookup_param(ps, s@) {
                Some(x) => quoted(x),
                None => quoted(s@),
            }
        } else {
            quoted(s@)
        },
        Arg::Number(n) => int_text(n as int),
        Arg::Identifier(id) => id@,
    }
}

/// A call that names no procedure, written back as `name(args)` and a newline.
pub open spec fn unknown_call_text(call: MacroCallDef, ps: Bindings) -> Seq<char> {
    call.name@ + "("@ + join_seq(call.args@.map_values(|a: Arg| arg_text(a, ps)), ", "@) + ")\n"@
}

/// The value an argument passes to a parameter.
pub open spec fn arg_value(a: Arg, ps: Bindings) -> Result<Seq<char>, ExpandFailure> {
    match a {
        Arg::Variable(v) => match lookup_param(ps, v@) {
            Some(x) => Ok(x),
            None => Err(ExpandFailure::UnknownVariable(v@)),
        },
        Arg::String(s) => Ok(s@),
        Arg::Number(n) => Ok(int_text(n as int)),
        Arg::Identifier(id) => Ok(id@),
    }
}

/// The bindings of the first `k` parameters to the first `k` arguments, in order.
pub open spec fn bind_params(names: Seq<String>, args: Seq<Arg>, ps: Bindings, k: int) -> Result<
    Bindings,
    ExpandFailure,
>
    decreases k,
{
    if k <= 0 {
        Ok(Seq::empty())
    } else {
        match bind_params(names, args, ps, k - 1) {
            Err(e) => Err(e),
            Ok(bs) => match arg_value(args[k - 1], ps) {
                Err(e) => Err(e),
                Ok(v) => Ok(bs.push((names[k - 1]@, v))),
            },
        }
    }
}

/// A body text line: literals verbatim, bound variables substituted, then a newline.
pub open spec fn parts_text(parts: Seq<TextPart>, ps: Bindings) -> Seq<char>
    decreases parts.len(),
{
    if parts.len() == 0 {
        Seq::empty()
    } else {
        parts_text(parts.drop_last(), ps) + match parts.last() {
            TextPart::Literal(s) => s@,
            TextPart::Variable(v) => match lookup_param(ps, v@) {
                Some(x) => x,
                None => v@,
            },
        }
    }
}

/// The expansion of `call` with `ps` in scope, `stack` the procedures being
/// expanded and `depth` the nesting depth.
pub open spec fn expand_call(
    procs: Seq<Statement>,
    max: int,
    call: MacroCallDef,
    ps: Bindings,
    stack: Seq<Seq<char>>,
    depth: int,
) -> Result<Seq<char>, ExpandFailure>
    decreases max + 1 - depth, 1int, 0int,
{
    if depth > max {
        Err(ExpandFailure::MaxDepthExceeded)
    } else if stack.contains(call.name@) {
        Err(ExpandFailure::RecursiveMacro(stack, call.name@))
    } else {
        match proc_named(procs, call.name@) {
            None => if has_prefix(call.name@, "$"@) || stack.len() == 0 {
                Err(ExpandFailure::MacroNotDefined(call.name@))
            } else {
                Ok(unknown_call_text(call, ps))
            },
            Some(p) => {
                if p.params@.len() != call.args@.len() {
                    Err(
                        ExpandFailure::ArgumentMismatch(
                            call.name@,
                            p.params@.len(),
                            call.args@.len(),
                        ),
                    )
                } else {
                    match bind_params(p.params@, call.args@, ps, p.params@.len() as int) {
                        Err(e) => Err(e),
                        Ok(bs) => expand_body(procs, max, p.body@, bs, stack.push(call.name@), depth + 1),
                    }
                }
            },
        }
    }
}

/// The expansion of a procedure body: its lines in order, the first failure stopping it.
pub open spec fn expand_body(
    procs: Seq<Statement>,
    max: int,
    body: Seq<BodyNode>,
    ps: Bindings,
    stack: Seq<Seq<char>>,
    depth: int,
) -> Result<Seq<char>, ExpandFailure>
    decreases max + 1 - depth, 2int, body.len(),
{
    if body.len() == 0 {
        Ok(Seq::empty())
    } else {
        match expand_body(procs, max, body.drop_last(), ps, stack, depth) {
            Err(e) => Err(e),
            Ok(s) => match body.last() {
                BodyNode::MacroCall(c) => match expand_call(procs, max, c, ps, stack, depth) {
                    Err(e) => Err(e),
                    Ok(t) => Ok(s + t),
                },
                BodyNode::Text(parts) => Ok(s + parts_text(parts@, ps).push('\n')),
            },
        }
    }
}

/// The expansion of the top-level statements: text lines are kept (each
/// followed by a newline), calls are expanded, definitions vanish.
pub open spec fn expand_stmts(procs: Seq<Statement>, max: int, stmts: Seq<Statement>) -> Result<
    Seq<char>,
    ExpandFailure,
>
    decreases stmts.len(),
{
    if stmts.len() == 0 {
        Ok(Seq::empty())
    } else {
        match expand_stmts(procs, max, stmts.drop_last()) {
            Err(e) => Err(e),
            Ok(s) => match stmts.last() {
                Statement::Text(t) => Ok(s + t@.push('\n')),
                Statement::MacroCall(c) => match expand_call(procs, max, c, Seq::empty(), Seq::empty(), 0) {
                    Err(e) => Err(e),
                    Ok(x) => Ok(s + x),
                },
                Statement::Procedure(_) => Ok(s),
            },
        }
    }
}

/// A procedure whose body is a call of itself, called at the top level, is
/// refused as recursive: the chain holds the procedure once, and the repeated
/// call names it again (given room for one nested call).
pub proof fn lemma_self_call_is_recursive(
    procs: Seq<Statement>,
    max: int,
    call: MacroCallDef,
    inner: MacroCallDef,
    p: ProcedureDef,
    ps: Bindings,
)
    requires
        max >= 1,
        proc_named(procs, call.name@) == Some(p),
        p.params@.len() == 0,
        call.args@.len() == 0,
        p.body@ == seq![BodyNode::MacroCall(inner)],
        inner.name@ == call.name@,
    ensures
        expand_call(procs, max, call, ps, Seq::empty(), 0) == Err::<Seq<char>, ExpandFailure>(
            ExpandFailure::RecursiveMacro(seq![call.name@], call.name@),
        ),
{
    let stack = Seq::<Seq<char>>::empty().push(call.name@);
    assert(stack == seq![call.name@]);
    assert(stack.contains(inner.name@)) by {
        assert(stack[0] == inner.name@);
    }
    assert(bind_params(p.params@, call.args@, ps, 0) == Ok::<Bindings, ExpandFailure>(Seq::empty()));
    let body = p.body@;
    assert(body.drop_last() == Seq::<BodyNode>::empty());
    assert(expand_body(procs, max, body.drop_last(), Seq::empty(), stack, 1) == Ok::<Seq<char>, ExpandFailure>(
        Seq::empty(),
    ));
    assert(expand_call(procs, max, inner, Seq::empty(), stack, 1) == Err::<Seq<char>, ExpandFailure>(
        ExpandFailure::RecursiveMacro(stack, inner.name@),
    ));
}

/// Expands the procedure calls of a parsed file.
pub struct ProcedureExpander {
    max_depth: usize,
}

impl ProcedureExpander {
    /// The nesting limit.
    pub closed spec fn depth_limit(&self) -> usize {
        self.max_depth
    }

    /// The nesting limit leaves room for one more level.
    #[verifier::type_invariant]
    spec fn limit_fits(&self) -> bool {
        self.max_depth < usize::MAX
    }

    /// An expander with the default nesting limit.
    pub fn new() -> (r: Self)
        ensures
            r.depth_limit() == DEFAULT_MACRO_DEPTH,
    {
        ProcedureExpander { max_depth: DEFAULT_MACRO_DEPTH }
    }
}

/// The value bound to `k` in `ps`, if any (the last binding wins).
fn get_param(ps: &Vec<(String, String)>, k: &String) -> (r: Option<String>)
    ensures
        match r {
            Some(x) => lookup_param(bindings_view(ps@), k@) == Some(x@),
            None => lookup_param(bindings_view(ps@), k@) is None,
        },
{
    let mut j = ps.len();
    assert(ps@.subrange(0, j as int) == ps@);
    while j > 0
        invariant
            j <= ps@.len(),
            lookup_param(bindings_view(ps@), k@) == lookup_param(
                bindings_view(ps@.subrange(0, j as int)),
                k@,
            ),
        decreases j,
    {
        proof {
            let b = bindings_view(ps@.subrange(0, j as int));
            assert(b.drop_last() == bindings_view(ps@.subrange(0, j - 1)));
            assert(b.last() == (ps@[j - 1].0@, ps@[j - 1].1@));
        }
        if ps[j - 1].0 == *k {
            return Some(ps[j - 1].1.clone());
        }
        j = j - 1;
    }
    None
}

/// Whether `name` is on the stack.
fn stack_contains(stack: &Vec<String>, name: &String) -> (r: bool)
    ensures
        r == strings_view(stack@).contains(name@),
{
    let mut i: usize = 0;
    while i < stack.len()
        invariant
            i <= stack@.len(),
            forall|m: int| 0 <= m < i ==> stack@[m]@ != name@,
        decreases stack@.len() - i,
    {
        if stack[i] == *name {
            assert(strings_view(stack@)[i as int] == name@);
            return true;
        }
        i = i + 1;
    }
    assert forall|m: int| 0 <= m < strings_view(stack@).len() implies strings_view(stack@)[m] != name@ by {
        assert(strings_view(stack@)[m] == stack@[m]@);
    }
    false
}

/// A copy of the stack.
fn copy_strings(v: &Vec<String>) -> (r: Vec<String>)
    ensures
        strings_view(r@) == strings_view(v@),
{
    let mut out: Vec<String> = Vec::new();
    let mut i: usize = 0;
    while i < v.len()
        invariant
            i <= v@.len(),
            strings_view(out@) == strings_view(v@.subrange(0, i as int)),
        decreases v@.len() - i,
    {
        let ghost before = out@;
        out.push(v[i].clone());
        assert(strings_view(out@) == strings_view(before).push(v@[i as int]@));
        assert(strings_view(v@.subrange(0, i + 1)) == strings_view(v@.subrange(0, i as int)).push(
            v@[i as int]@,
        ));
        i = i + 1;
    }
    assert(v@.subrange(0, v@.len() as int) == v@);
    out
}

/// The procedure named `name` among those `stmts` define.
fn find_proc<'a>(stmts: &'a Vec<Statement>, name: &String) -> (r: Option<&'a ProcedureDef>)
    ensures
        match proc_named(stmts@, name@) {
            Some(p) => r matches Some(q) && *q == p,
            None => r is None,
        },
{
    let mut k = stmts.len();
    assert(stmts@.subrange(0, k as int) == stmts@);
    while k > 0
        invariant
            k <= stmts@.len(),
            proc_named(stmts@, name@) == proc_named(stmts@.subrange(0, k as int), name@),
        decreases k,
    {
        proof {
            let pre = stmts@.subrange(0, k as int);
            assert(pre.drop_last() == stmts@.subrange(0, k - 1));
        }
        match &stmts[k - 1] {
            Statement::Procedure(p) => {
                if p.name == *name {
                    return Some(p);
                }
            },
            _ => {},
        }
        k = k - 1;
    }
    None
}

/// The procedure a call names: an error when none is defined and the name
/// starts with `$` or the call stands at the top level; no procedure (the call
/// is kept as text) otherwise.
fn resolve_proc<'a>(procs: &'a Vec<Statement>, call: &MacroCallDef, stack: &Vec<String>) -> (r: Result<
    Option<&'a ProcedureDef>,
    ProcedureExpandError,
>)
    ensures
        match proc_named(procs@, call.name@) {
            Some(p) => r matches Ok(Some(q)) && *q == p,
            None => if has_prefix(call.name@, "$"@) || stack@.len() == 0 {
                r matches Err(e) && e@ == ExpandFailure::MacroNotDefined(call.name@)
            } else {
                r matches Ok(None)
            },
        },
{
    match find_proc(procs, &call.name) {
        Some(p) => Ok(Some(p)),
        None => {
            let nv = chars_of(call.name.as_str());
            if starts_with_literal(nv.as_slice(), "$") || stack.len() == 0 {
                Err(ProcedureExpandError::MacroNotDefined(call.name.clone()))
            } else {
                Ok(None)
            }
        },
    }
}

/// `x` in double quotes.
fn quote(x: &[char]) -> (r: Vec<char>)
    ensures
        r@ == quoted(x@),
{
    let mut out: Vec<char> = Vec::new();
    out.push('"');
    push_all(&mut out, x);
    out.push('"');
    out
}

/// How an argument of an unknown call is written back (see `arg_text`).
fn render_arg(a: &Arg, ps: &Vec<(String, String)>) -> (r: Vec<char>)
    ensures
        r@ == arg_text(*a, bindings_view(ps@)),
{
    match a {
        Arg::Variable(v) => match get_param(ps, v) {
            Some(x) => chars_of(x.as_str()),
            None => chars_of(v.as_str()),
        },
        Arg::String(s) => {
            let sv = chars_of(s.as_str());
            if starts_with_literal(sv.as_slice(), "$") {
                match get_param(ps, s) {
                    Some(x) => {
                        let xv = chars_of(x.as_str());
                        quote(xv.as_slice())
                    },
                    None => quote(sv.as_slice()),
                }
            } else {
                quote(sv.as_slice())
            }
        },
        Arg::Number(n) => {
            let mut out: Vec<char> = Vec::new();
            push_int(*n, &mut out);
            out
        },
        Arg::Identifier(id) => chars_of(id.as_str()),
    }
}

/// A call that names no procedure, written back (see `unknown_call_text`).
fn render_unknown_call(call: &MacroCallDef, ps: &Vec<(String, String)>) -> (r: Vec<char>)
    ensures
        r@ == unknown_call_text(*call, bindings_view(ps@)),
{
    let ghost f = |a: Arg| arg_text(a, bindings_view(ps@));
    let mut parts: Vec<Vec<char>> = Vec::new();
    let mut i: usize = 0;
    while i < call.args.len()
        invariant
            i <= call.args@.len(),
            char_views(parts@) == call.args@.subrange(0, i as int).map_values(
                |a: Arg| arg_text(a, bindings_view(ps@)),
            ),
        decreases call.args@.len() - i,
    {
        let t = render_arg(&call.args[i], ps);
        let ghost before = parts@;
        parts.push(t);
        proof {
            assert(char_views(parts@) == char_views(before).push(t@));
            assert(call.args@.subrange(0, i + 1).map_values(|a: Arg| arg_text(a, bindings_view(ps@)))
                == call.args@.subrange(0, i as int).map_values(
                |a: Arg| arg_text(a, bindings_view(ps@)),
            ).push(arg_text(call.args@[i as int], bindings_view(ps@))));
        }
        i = i + 1;
    }
    assert(call.args@.subrange(0, call.args@.len() as int) == call.args@);
    let mut out = chars_of(call.name.as_str());
    out.push('(');
    let sep = chars_of(", ");
    push_joined_chars(&mut out, &parts, sep.as_slice());
    out.push(')');
    out.push('\n');
    proof {
        reveal_strlit("(");
        reveal_strlit(")\n");
    }
    out
}

/// The value an argument passes to a parameter (see `arg_value`).
fn argument_value(a: &Arg, ps: &Vec<(String, String)>) -> (r: Result<String, ProcedureExpandError>)
    ensures
        match arg_value(*a, bindings_view(ps@)) {
            Ok(v) => r matches Ok(x) && x@ == v,
            Err(e) => r matches Err(x) && x@ == e,
        },
{
    match a {
        Arg::Variable(v) => match get_param(ps, v) {
            Some(x) => Ok(x),
            None => Err(ProcedureExpandError::UnknownVariable { name: v.clone() }),
        },
        Arg::String(s) => Ok(s.clone()),
        Arg::Number(n) => {
            let mut out: Vec<char> = Vec::new();
            push_int(*n, &mut out);
            Ok(string_of(out.as_slice()))
        },
        Arg::Identifier(id) => Ok(id.clone()),
    }
}

/// Binds the parameters of `proc` to the arguments of `call`, in order.
fn build_params(proc: &ProcedureDef, call: &MacroCallDef, ps: &Vec<(String, String)>) -> (r: Result<
    Vec<(String, String)>,
    ProcedureExpandError,
>)
    requires
        proc.params@.len() == call.args@.len(),
    ensures
        match bind_params(proc.params@, call.args@, bindings_view(ps@), proc.params@.len() as int) {
            Ok(bs) => r matches Ok(v) && bindings_view(v@) == bs,
            Err(e) => r matches Err(x) && x@ == e,
        },
{
    let mut out: Vec<(String, String)> = Vec::new();
    let mut k: usize = 0;
    assert(bindings_view(out@) =~= Seq::<(Seq<char>, Seq<char>)>::empty());
    while k < proc.params.len()
        invariant
            k <= proc.params@.len() == call.args@.len(),
            bind_params(proc.params@, call.args@, bindings_view(ps@), k as int) == Ok::<
                Bindings,
                ExpandFailure,
            >(bindings_view(out@)),
        decreases proc.params@.len() - k,
    {
        match argument_value(&call.args[k], ps) {
            Ok(v) => {
                let ghost before = out@;
                out.push((proc.params[k].clone(), v));
                assert(bindings_view(out@) == bindings_view(before).push(
                    (proc.params@[k as int]@, out@.last().1@),
                ));
            },
            Err(e) => {
                proof {
                    lemma_bind_error_sticks(
                        proc.params@,
                        call.args@,
                        bindings_view(ps@),
                        k as int + 1,
                        proc.params@.len() as int,
                    );
                }
                return Err(e);
            },
        }
        k = k + 1;
    }
    Ok(out)
}

/// Once binding fails on the first `k` parameters it fails the same way on more.
proof fn lemma_bind_error_sticks(names: Seq<String>, args: Seq<Arg>, ps: Bindings, k: int, n: int)
    requires
        0 <= k <= n,
        bind_params(names, args, ps, k) is Err,
    ensures
        bind_params(names, args, ps, n) == bind_params(names, args, ps, k),
    decreases n - k,
{
    if n > k {
        lemma_bind_error_sticks(names, args, ps, k, n - 1);
    }
}

/// A body text line with its variables substituted, then a newline.
fn render_parts(parts: &Vec<TextPart>, ps: &Vec<(String, String)>) -> (r: Vec<char>)
    ensures
        r@ == parts_text(parts@, bindings_view(ps@)).push('\n'),
{
    let mut out: Vec<char> = Vec::new();
    let mut i: usize = 0;
    while i < parts.len()
        invariant
            i <= parts@.len(),
            out@ == parts_text(parts@.subrange(0, i as int), bindings_view(ps@)),
        decreases parts@.len() - i,
    {
        proof {
            assert(parts@.subrange(0, i + 1).drop_last() == parts@.subrange(0, i as int));
        }
        match &parts[i] {
            TextPart::Literal(s) => {
                let v = chars_of(s.as_str());
                push_all(&mut out, v.as_slice());
            },
            TextPart::Variable(v) => match get_param(ps, v) {
                Some(x) => {
                    let xv = chars_of(x.as_str());
                    push_all(&mut out, xv.as_slice());
                },
                None => {
                    let vv = chars_of(v.as_str());
                    push_all(&mut out, vv.as_slice());
                },
            },
        }
        i = i + 1;
    }
    assert(parts@.subrange(0, parts@.len() as int) == parts@);
    out.push('\n');
    out
}

impl ProcedureExpander {
    /// Expands one call (see `expand_call`); on success the stack is as before.
    fn expand_macro(
        &self,
        procs: &Vec<Statement>,
        call: &MacroCallDef,
        ps: &Vec<(String, String)>,
        stack: &mut Vec<String>,
        depth: usize,
    ) -> (r: Result<Vec<char>, ProcedureExpandError>)
        requires
            depth <= self.max_depth + 1,
            self.max_depth < usize::MAX,
        ensures
            match expand_call(
                procs@,
                self.max_depth as int,
                *call,
                bindings_view(ps@),
                strings_view(old(stack)@),
                depth as int,
            ) {
                Ok(s) => r matches Ok(v) && v@ == s && strings_view(final(stack)@) == strings_view(
                    old(stack)@,
                ),
                Err(e) => r matches Err(x) && x@ == e,
            },
        decreases self.max_depth + 1 - depth, 1int,
    {
        if depth > self.max_depth {
            return Err(ProcedureExpandError::MaxDepthExceeded);
        }
        if stack_contains(stack, &call.name) {
            return Err(
                ProcedureExpandError::RecursiveMacro { chain: copy_strings(stack), name: call.name.clone() },
            );
        }
        match resolve_proc(procs, call, stack) {
            Err(e) => Err(e),
            Ok(None) => Ok(render_unknown_call(call, ps)),
            Ok(Some(proc)) => {
                if proc.params.len() != call.args.len() {
                    return Err(
                        ProcedureExpandError::ArgumentMismatch {
                            name: call.name.clone(),
                            expected: proc.params.len(),
                            actual: call.args.len(),
                        },
                    );
                }
                let ghost before = stack@;
                stack.push(call.name.clone());
                assert(strings_view(stack@) == strings_view(before).push(call.name@));
                let new_params = match build_params(proc, call, ps) {
                    Ok(p) => p,
                    Err(e) => {
                        return Err(e);
                    },
                };
                let result = match self.expand_body(procs, &proc.body, &new_params, stack, depth + 1) {
                    Ok(v) => v,
                    Err(e) => {
                        return Err(e);
                    },
                };
                let ghost mid = stack@;
                stack.pop();
                assert(strings_view(mid.drop_last()) == strings_view(mid).drop_last());
                assert(strings_view(stack@) == strings_view(before));
                Ok(result)
            },
        }
    }

    /// Expands a procedure body (see `expand_body`); on success the stack is as before.
    fn expand_body(
        &self,
        procs: &Vec<Statement>,
        body: &Vec<BodyNode>,
        ps: &Vec<(String, String)>,
        stack: &mut Vec<String>,
        depth: usize,
    ) -> (r: Result<Vec<char>, ProcedureExpandError>)
        requires
            depth <= self.max_depth + 1,
            self.max_depth < usize::MAX,
        ensures
            match expand_body(
                procs@,
                self.max_depth as int,
                body@,
                bindings_view(ps@),
                strings_view(old(stack)@),
                depth as int,
            ) {
                Ok(s) => r matches Ok(v) && v@ == s && strings_view(final(stack)@) == strings_view(
                    old(stack)@,
                ),
                Err(e) => r matches Err(x) && x@ == e,
            },
        decreases self.max_depth + 1 - depth, 2int,
    {
        let ghost st = strings_view(stack@);
        let mut out: Vec<char> = Vec::new();
        let mut i: usize = 0;
        while i < body.len()
            invariant
                i <= body@.len(),
                depth <= self.max_depth + 1,
                self.max_depth < usize::MAX,
                strings_view(stack@) == st,
                st == strings_view(old(stack)@),
                expand_body(
                    procs@,
                    self.max_depth as int,
                    body@.subrange(0, i as int),
                    bindings_view(ps@),
                    st,
                    depth as int,
                ) == Ok::<Seq<char>, ExpandFailure>(out@),
            decreases body@.len() - i,
        {
            proof {
                assert(body@.subrange(0, i + 1).drop_last() == body@.subrange(0, i as int));
            }
            match &body[i] {
                BodyNode::MacroCall(c) => {
                    match self.expand_macro(procs, c, ps, stack, depth) {
                        Ok(t) => {
                            push_all(&mut out, t.as_slice());
                        },
                        Err(e) => {
                            proof {
                                lemma_body_error_sticks(
                                    procs@,
                                    self.max_depth as int,
                                    body@,
                                    bindings_view(ps@),
                                    st,
                                    depth as int,
                                    i as int + 1,
                                );
                            }
                            return Err(e);
                        },
                    }
                },
                BodyNode::Text(parts) => {
                    let t = render_parts(parts, ps);
                    push_all(&mut out, t.as_slice());
                },
            }
            i = i + 1;
        }
        assert(body@.subrange(0, body@.len() as int) == body@);
        Ok(out)
    }
}

/// Once a body prefix fails, the whole body fails the same way.
proof fn lemma_body_error_sticks(
    procs: Seq<Statement>,
    max: int,
    body: Seq<BodyNode>,
    ps: Bindings,
    stack: Seq<Seq<char>>,
    depth: int,
    k: int,
)
    requires
        0 <= k <= body.len(),
        expand_body(procs, max, body.subrange(0, k), ps, stack, depth) is Err,
    ensures
        expand_body(procs, max, body, ps, stack, depth) == expand_body(
            procs,
            max,
            body.subrange(0, k),
            ps,
            stack,
            depth,
        ),
    decreases body.len(),
{
    if body.len() > k {
        assert(body.drop_last().subrange(0, k) == body.subrange(0, k));
        lemma_body_error_sticks(procs, max, body.drop_last(), ps, stack, depth, k);
    } else {
        assert(body.subrange(0, k) == body);
    }
}

impl ProcedureExpander {
    /// Expands the calls of a parsed file (see `expand_stmts`): procedure
    /// definitions are collected from the whole file first, text lines are
    /// kept, each followed by a newline, and every call is replaced by its
    /// expansion.  The first failure is returned.
    pub fn expand(&self, file: &ProcedureFile) -> (r: Result<String, ProcedureExpandError>)
        ensures
            match expand_stmts(file.stmts@, self.depth_limit() as int, file.stmts@) {
                Ok(s) => r matches Ok(x) && x@ == s,
                Err(e) => r matches Err(x) && x@ == e,
            },
    {
        proof {
            use_type_invariant(self);
        }
        let stmts = &file.stmts;
        let mut out: Vec<char> = Vec::new();
        let mut i: usize = 0;
        while i < stmts.len()
            invariant
                i <= stmts@.len(),
                stmts@ == file.stmts@,
                self.max_depth < usize::MAX,
                expand_stmts(stmts@, self.max_depth as int, stmts@.subrange(0, i as int)) == Ok::<
                    Seq<char>,
                    ExpandFailure,
                >(out@),
            decreases stmts@.len() - i,
        {
            proof {
                assert(stmts@.subrange(0, i + 1).drop_last() == stmts@.subrange(0, i as int));
            }
            match &stmts[i] {
                Statement::Text(t) => {
                    let v = chars_of(t.as_str());
                    push_all(&mut out, v.as_slice());
                    out.push('\n');
                },
                Statement::MacroCall(call) => {
                    let params: Vec<(String, String)> = Vec::new();
                    let mut stack: Vec<String> = Vec::new();
                    assert(bindings_view(params@) =~= Seq::<(Seq<char>, Seq<char>)>::empty());
                    assert(strings_view(stack@) =~= Seq::<Seq<char>>::empty());
                    match self.expand_macro(stmts, call, &params, &mut stack, 0) {
                        Ok(x) => {
                            push_all(&mut out, x.as_slice());
                        },
                        Err(e) => {
                            proof {
                                assert(stmts@.subrange(0, i + 1).last() == stmts@[i as int]);
                                assert(expand_stmts(stmts@, self.max_depth as int, stmts@.subrange(0, i + 1))
                                    == Err::<Seq<char>, ExpandFailure>(e@));
                                lemma_stmts_error_sticks(
                                    stmts@,
                                    self.max_depth as int,
                                    stmts@,
                                    i as int + 1,
                                );
                                assert(self.depth_limit() == self.max_depth);
                                assert(expand_stmts(file.stmts@, self.depth_limit() as int, file.stmts@)
                                    == Err::<Seq<char>, ExpandFailure>(e@));
                            }
                            return Err(e);
                        },
                    }
                },
                Statement::Procedure(_) => {},
            }
            i = i + 1;
        }
        assert(stmts@.subrange(0, stmts@.len() as int) == stmts@);
        Ok(string_of(out.as_slice()))
    }
}

/// Once a prefix of the statements fails, all of them fail the same way.
proof fn lemma_stmts_error_sticks(procs: Seq<Statement>, max: int, stmts: Seq<Statement>, k: int)
    requires
        0 <= k <= stmts.len(),
        expand_stmts(procs, max, stmts.subrange(0, k)) is Err,
    ensures
        expand_stmts(procs, max, stmts) == expand_stmts(procs, max, stmts.subrange(0, k)),
    decreases stmts.len(),
{
    if stmts.len() > k {
        assert(stmts.drop_last().subrange(0, k) == stmts.subrange(0, k));
        lemma_stmts_error_sticks(procs, max, stmts.drop_last(), k);
    } else {
        assert(stmts.subrange(0, k) == stmts);
    }
}

} // verus!

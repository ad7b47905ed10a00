//! Decisions of the function visitor that do not depend on the AST: which
//! calls cross owners, and how guards combine under `&&` and `||`.
use vstd::prelude::*;
use crate::cpp::callable::{same_scope, scope_name, scope_view, FunctionId, FunctionKind};
use crate::cpp::control_flow::GuardExpression;
use crate::cpp::resolved_type::ResolvedType;
use crate::diagram_model::{Method, MethodModifier};
use crate::source_location::SourceLocation;
use crate::text::{chars_of, is_literal};
use crate::visitor::context::{CallableArgumentKey, CallableSignatureKey, ExtractedMethodDeclaration, ParsedMethodType};

verus! {

/// Visits function definitions and declarations.
pub struct FunctionVisitor;

/// What the visitor reads of a method declaration from the AST, as plain values.
pub struct MethodDeclarationFacts {
    /// The declared result type, resolved, when the AST gives one.
    pub result_type: Option<ResolvedType>,
    /// The return type as the class diagram shows it.
    pub display_return_type: Option<String>,
    /// The resolved parameter types, in order.
    pub parameter_types: Vec<ResolvedType>,
    /// The parameters as they identify the signature, in order.
    pub parameter_keys: Vec<CallableArgumentKey>,
    pub source_location: SourceLocation,
    pub is_static: bool,
    pub is_virtual: bool,
    pub is_pure_virtual: bool,
    /// How many methods it overrides.
    pub overridden_count: usize,
    /// Whether a `final` attribute is among its children.
    pub has_final_attr: bool,
    /// The spellings of the tokens of its extent, in order.
    pub tokens: Vec<String>,
    /// Whether its exception specification is a bare `noexcept`.
    pub basic_noexcept: bool,
}

/// Whether callables of kind `k` are methods of a class.
pub open spec fn is_method_kind(k: FunctionKind) -> bool {
    k is Method || k is StaticMethod || k is Constructor || k is Destructor
}

/// Whether a `noexcept` token comes before the first `{` or `;` of `tokens`,
/// that is, in the declarator rather than in a body.
pub open spec fn noexcept_in_declarator(tokens: Seq<Seq<char>>) -> bool
    decreases tokens.len(),
{
    if tokens.len() == 0 {
        false
    } else if tokens[0] == "{"@ || tokens[0] == ";"@ {
        false
    } else {
        tokens[0] == "noexcept"@ || noexcept_in_declarator(tokens.skip(1))
    }
}

/// `m` when `c` holds, else nothing.
pub open spec fn modifier_if(c: bool, m: MethodModifier) -> Seq<MethodModifier> {
    if c {
        seq![m]
    } else {
        Seq::empty()
    }
}

/// Whether the declaration is a bare `noexcept` one, written so.
pub open spec fn is_noexcept(f: MethodDeclarationFacts) -> bool {
    noexcept_in_declarator(f.tokens@.map_values(|t: String| t@)) && f.basic_noexcept
}

/// The qualifiers of a method of kind `kind`, in the order the class diagram lists them.
pub open spec fn method_modifiers(f: MethodDeclarationFacts, kind: FunctionKind) -> Seq<MethodModifier> {
    modifier_if(f.is_static, MethodModifier::Static) + modifier_if(f.is_virtual, MethodModifier::Virtual)
        + modifier_if(f.is_pure_virtual, MethodModifier::Abstract) + modifier_if(
        f.overridden_count > 0,
        MethodModifier::Override,
    ) + modifier_if(is_noexcept(f), MethodModifier::Noexcept) + modifier_if(
        kind is Constructor,
        MethodModifier::Constructor,
    ) + modifier_if(kind is Destructor, MethodModifier::Destructor) + modifier_if(
        f.has_final_attr,
        MethodModifier::Final,
    )
}

/// Pushes `m` when `c` holds.
fn push_modifier_if(out: &mut Vec<MethodModifier>, c: bool, m: MethodModifier)
    ensures
        final(out)@ == old(out)@ + modifier_if(c, m),
{
    if c {
        out.push(m);
    }
    assert(final(out)@ =~= old(out)@ + modifier_if(c, m));
}

/// Whether a `noexcept` token comes before the first `{` or `;`.
fn has_noexcept_token(tokens: &Vec<String>) -> (r: bool)
    ensures
        r == noexcept_in_declarator(tokens@.map_values(|t: String| t@)),
{
    let ghost all = tokens@.map_values(|t: String| t@);
    let mut i: usize = 0;
    assert(all.skip(0) =~= all);
    while i < tokens.len()
        invariant
            i <= tokens@.len(),
            all == tokens@.map_values(|t: String| t@),
            noexcept_in_declarator(all) == noexcept_in_declarator(all.skip(i as int)),
        decreases tokens@.len() - i,
    {
        let ghost rest = all.skip(i as int);
        assert(rest[0] == tokens@[i as int]@);
        assert(rest.skip(1) =~= all.skip(i + 1));
        let t = chars_of(tokens[i].as_str());
        if is_literal(t.as_slice(), "{") || is_literal(t.as_slice(), ";") {
            return false;
        }
        if is_literal(t.as_slice(), "noexcept") {
            return true;
        }
        i = i + 1;
    }
    assert(all.skip(i as int) =~= Seq::<Seq<char>>::empty());
    false
}

/// Whether `e` is a conjunction (`conj`) or a disjunction (`!conj`).
pub open spec fn is_logical(e: GuardExpression, conj: bool) -> bool {
    if conj {
        e is And
    } else {
        e is Or
    }
}

/// The operands `e` contributes to a conjunction (`conj`) or disjunction
/// (`!conj`): its own operands when it is one of the same kind, else itself.
pub open spec fn operands(e: GuardExpression, conj: bool) -> Seq<GuardExpression> {
    if is_logical(e, conj) {
        match e {
            GuardExpression::And { expressions } => expressions@,
            GuardExpression::Or { expressions } => expressions@,
            _ => Seq::empty(),
        }
    } else {
        seq![e]
    }
}

/// Appends the elements of `v` to `out`, in order.
fn append_all(out: &mut Vec<GuardExpression>, v: Vec<GuardExpression>)
    ensures
        final(out)@ == old(out)@ + v@,
{
    let mut rest = v;
    let ghost all = rest@;
    let ghost start = out@;
    let ghost mut k: int = 0;
    while rest.len() > 0
        invariant
            0 <= k <= all.len(),
            rest@ == all.subrange(k as int, all.len() as int),
            out@ == start + all.subrange(0, k as int),
        decreases rest@.len(),
    {
        let ghost before = rest@;
        let x = rest.remove(0);
        assert(before[0] == x);
        assert(all.subrange(0, k + 1) == all.subrange(0, k as int).push(x));
        out.push(x);
        proof {
            k = k + 1;
        }
    }
    assert(all.subrange(0, all.len() as int) == all);
}

impl FunctionVisitor {
    /// The declaration of a method (of kind method, static method, constructor
    /// or destructor) for its owning class, from what the AST gives of it; no
    /// declaration for other callables. The return type is the declared result
    /// type (`void` when the AST gives none); the class diagram shows no return
    /// type for constructors and destructors.
    pub fn extract_method_declaration(facts: MethodDeclarationFacts, id: &FunctionId, kind: FunctionKind) -> (r:
        Option<ExtractedMethodDeclaration>)
        ensures
            !is_method_kind(kind) ==> r is None,
            is_method_kind(kind) ==> (r matches Some(d) && {
                &&& d.class_id@ == scope_name(id.scope)
                &&& d.method.name@ == id.name@
                &&& d.method.return_type == (if kind is Constructor || kind is Destructor {
                    None
                } else {
                    facts.display_return_type
                })
                &&& d.method.modifiers@ == method_modifiers(facts, kind)
                &&& d.method_type.name@ == id.name@
                &&& match facts.result_type {
                    Some(t) => d.method_type.return_type == t,
                    None => d.method_type.return_type matches ResolvedType::Builtin(b) && b@ == "void"@,
                }
                &&& d.method_type.parameter_types == facts.parameter_types
                &&& d.method_type.source_location == facts.source_location
                &&& d.signature_key.name@ == id.name@
                &&& d.signature_key.parameters == facts.parameter_keys
            }),
    {
        let is_method = match kind {
            FunctionKind::Method | FunctionKind::StaticMethod | FunctionKind::Constructor
            | FunctionKind::Destructor => true,
            _ => false,
        };
        if !is_method {
            return None;
        }
        let is_ctor = match kind {
            FunctionKind::Constructor => true,
            _ => false,
        };
        let is_dtor = match kind {
            FunctionKind::Destructor => true,
            _ => false,
        };
        let ghost f = facts;
        let class_id = id.scope.qualified_name();
        let noexcept = has_noexcept_token(&facts.tokens) && facts.basic_noexcept;
        let mut modifiers: Vec<MethodModifier> = Vec::new();
        push_modifier_if(&mut modifiers, facts.is_static, MethodModifier::Static);
        push_modifier_if(&mut modifiers, facts.is_virtual, MethodModifier::Virtual);
        push_modifier_if(&mut modifiers, facts.is_pure_virtual, MethodModifier::Abstract);
        push_modifier_if(&mut modifiers, facts.overridden_count > 0, MethodModifier::Override);
        push_modifier_if(&mut modifiers, noexcept, MethodModifier::Noexcept);
        push_modifier_if(&mut modifiers, is_ctor, MethodModifier::Constructor);
        push_modifier_if(&mut modifiers, is_dtor, MethodModifier::Destructor);
        push_modifier_if(&mut modifiers, facts.has_final_attr, MethodModifier::Final);
        assert(modifiers@ =~= method_modifiers(f, kind));
        let MethodDeclarationFacts {
            result_type,
            display_return_type,
            parameter_types,
            parameter_keys,
            source_location,
            ..
        } = facts;
        let return_type = match result_type {
            Some(t) => t,
            None => ResolvedType::Builtin(String::from_str("void")),
        };
        let method_type = ParsedMethodType {
            name: id.name.clone(),
            return_type,
            parameter_types,
            source_location,
        };
        let shown_return_type = if is_ctor || is_dtor {
            None
        } else {
            display_return_type
        };
        let method = Method { name: id.name.clone(), return_type: shown_return_type, modifiers };
        Some(
            ExtractedMethodDeclaration {
                class_id,
                method,
                method_type,
                signature_key: CallableSignatureKey { name: id.name.clone(), parameters: parameter_keys },
            },
        )
    }

    /// Whether a call leaves the scope of the calling function.
    pub fn is_cross_owner_call(caller: &FunctionId, callee: &FunctionId) -> (r: bool)
        ensures
            r == (scope_view(callee.scope) != scope_view(caller.scope)),
    {
        !same_scope(&callee.scope, &caller.scope)
    }

    /// The operands of a conjunction (`conj`) or disjunction of `left` and
    /// `right`: nested operations of the same kind are flattened into it.
    pub fn flatten_guard_expressions(left: GuardExpression, right: GuardExpression, conj: bool) -> (r: Vec<
        GuardExpression,
    >)
        ensures
            r@ == operands(left, conj) + operands(right, conj),
    {
        let mut expressions: Vec<GuardExpression> = Vec::new();
        let ghost l = left;
        let ghost rt = right;
        let same_left = if conj {
            matches!(left, GuardExpression::And { .. })
        } else {
            matches!(left, GuardExpression::Or { .. })
        };
        if same_left {
            match left {
                GuardExpression::And { expressions: nested } => append_all(&mut expressions, nested),
                GuardExpression::Or { expressions: nested } => append_all(&mut expressions, nested),
                _ => {},
            }
        } else {
            expressions.push(left);
        }
        assert(expressions@ == Seq::<GuardExpression>::empty() + operands(l, conj));
        let same_right = if conj {
            matches!(right, GuardExpression::And { .. })
        } else {
            matches!(right, GuardExpression::Or { .. })
        };
        if same_right {
            match right {
                GuardExpression::And { expressions: nested } => append_all(&mut expressions, nested),
                GuardExpression::Or { expressions: nested } => append_all(&mut expressions, nested),
                _ => {},
            }
        } else {
            expressions.push(right);
        }
        expressions
    }

    /// The guard `left op right` for a logical operator `op` (`&&` or `||`),
    /// with nested operations of the same operator flattened into it.
    pub fn combine_guard_expressions(operator: &str, left: GuardExpression, right: GuardExpression) -> (r:
        GuardExpression)
        requires
            operator@ == "&&"@ || operator@ == "||"@,
        ensures
            operator@ == "&&"@ ==> r == (GuardExpression::And {
                expressions: r->And_expressions,
            }) && r->And_expressions@ == operands(left, true) + operands(right, true),
            operator@ == "||"@ ==> r == (GuardExpression::Or {
                expressions: r->Or_expressions,
            }) && r->Or_expressions@ == operands(left, false) + operands(right, false),
    {
        let is_and = crate::text::is_literal(crate::text::chars_of(operator).as_slice(), "&&");
        proof {
            reveal_strlit("&&");
            reveal_strlit("||");
            assert("&&"@ != "||"@) by {
                assert("&&"@[0] != "||"@[0]);
            }
        }
        if is_and {
            GuardExpression::And { expressions: Self::flatten_guard_expressions(left, right, true) }
        } else {
            GuardExpression::Or { expressions: Self::flatten_guard_expressions(left, right, false) }
        }
    }
}

} // verus!

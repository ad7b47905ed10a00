use puml_tooling::cpp::callable::{FunctionId, FunctionKind, Scope};
use puml_tooling::cpp::resolved_type::ResolvedType;
use puml_tooling::diagram_model::MethodModifier;
use puml_tooling::visitor::context::CallableArgumentKey;
use puml_tooling::cpp::control_flow::GuardExpression;
use puml_tooling::source_location::SourceLocation;
use puml_tooling::visitor::function_visitor::{FunctionVisitor, MethodDeclarationFacts};

fn opaque(text: &str) -> GuardExpression {
    GuardExpression::Opaque { text: text.to_string(), source_location: SourceLocation::new("f.cpp", 1) }
}

fn texts(expressions: &[GuardExpression]) -> Vec<String> {
    expressions
        .iter()
        .map(|e| match e {
            GuardExpression::Opaque { text, .. } => text.clone(),
            GuardExpression::Call { text, .. } => text.clone(),
            GuardExpression::Not { .. } => "!".to_string(),
            GuardExpression::And { expressions } => format!("and{}", expressions.len()),
            GuardExpression::Or { expressions } => format!("or{}", expressions.len()),
        })
        .collect()
}

#[test]
fn conjunctions_flatten_into_one() {
    let left = FunctionVisitor::combine_guard_expressions("&&", opaque("a"), opaque("b"));
    let all = FunctionVisitor::combine_guard_expressions("&&", left, opaque("c"));
    match all {
        GuardExpression::And { expressions } => assert_eq!(texts(&expressions), ["a", "b", "c"]),
        _ => panic!("expected a conjunction"),
    }
}

#[test]
fn mixed_operators_nest() {
    let inner = FunctionVisitor::combine_guard_expressions("||", opaque("a"), opaque("b"));
    let all = FunctionVisitor::combine_guard_expressions("&&", inner, opaque("c"));
    match all {
        GuardExpression::And { expressions } => assert_eq!(texts(&expressions), ["or2", "c"]),
        _ => panic!("expected a conjunction"),
    }
    let right = FunctionVisitor::combine_guard_expressions("||", opaque("y"), opaque("z"));
    let negated = GuardExpression::Not { expression: Box::new(opaque("x")) };
    match FunctionVisitor::combine_guard_expressions("||", negated, right) {
        GuardExpression::Or { expressions } => assert_eq!(texts(&expressions), ["!", "y", "z"]),
        _ => panic!("expected a disjunction"),
    }
}

#[test]
fn flatten_keeps_other_kinds_whole() {
    let and = GuardExpression::And { expressions: vec![opaque("p"), opaque("q")] };
    let out = FunctionVisitor::flatten_guard_expressions(and, opaque("r"), false);
    assert_eq!(texts(&out), ["and2", "r"]);
}

#[test]
fn cross_owner_calls_change_scope() {
    let ns = |parts: &[&str]| Scope::Namespace(parts.iter().map(|p| p.to_string()).collect());
    let f = FunctionId { scope: ns(&["a", "b"]), name: "f".to_string() };
    let g = FunctionId { scope: ns(&["a", "b"]), name: "g".to_string() };
    let h = FunctionId { scope: ns(&["a"]), name: "h".to_string() };
    let m = FunctionId {
        scope: Scope::Type { namespace: vec!["a".to_string()], type_path: vec!["b".to_string()] },
        name: "m".to_string(),
    };
    assert!(!FunctionVisitor::is_cross_owner_call(&f, &g));
    assert!(FunctionVisitor::is_cross_owner_call(&f, &h));
    assert!(FunctionVisitor::is_cross_owner_call(&f, &m));
    let global = FunctionId { scope: Scope::Global, name: "main".to_string() };
    assert!(!FunctionVisitor::is_cross_owner_call(&global, &global.clone()));
}

fn facts(tokens: &[&str], basic_noexcept: bool) -> MethodDeclarationFacts {
    MethodDeclarationFacts {
        result_type: Some(ResolvedType::Builtin("int".to_string())),
        display_return_type: Some("int".to_string()),
        parameter_types: vec![ResolvedType::Builtin("bool".to_string())],
        parameter_keys: vec![CallableArgumentKey {
            param_type: Some("bool".to_string()),
            is_variadic: false,
            is_pack_expansion: false,
        }],
        source_location: SourceLocation::new("engine.h", 12),
        is_static: false,
        is_virtual: true,
        is_pure_virtual: false,
        overridden_count: 1,
        has_final_attr: true,
        tokens: tokens.iter().map(|t| t.to_string()).collect(),
        basic_noexcept,
    }
}

fn engine_id(name: &str) -> FunctionId {
    FunctionId {
        scope: Scope::Type { namespace: vec!["car".to_string()], type_path: vec!["Engine".to_string()] },
        name: name.to_string(),
    }
}

#[test]
fn method_declaration_collects_modifiers_in_order() {
    let d = FunctionVisitor::extract_method_declaration(
        facts(&["int", "start", "(", "bool", ")", "noexcept", "override", "final", ";"], true),
        &engine_id("start"),
        FunctionKind::Method,
    )
    .unwrap();
    assert_eq!(d.class_id, "car::Engine");
    assert_eq!(d.method.name, "start");
    assert_eq!(d.method.return_type, Some("int".to_string()));
    assert_eq!(
        d.method.modifiers,
        vec![MethodModifier::Virtual, MethodModifier::Override, MethodModifier::Noexcept, MethodModifier::Final]
    );
    assert_eq!(d.method_type.name, "start");
    assert_eq!(d.method_type.source_location, SourceLocation::new("engine.h", 12));
    assert_eq!(d.signature_key.name, "start");
    assert_eq!(d.signature_key.parameters.len(), 1);
}

#[test]
fn noexcept_counts_only_when_written_before_the_body() {
    let in_body = FunctionVisitor::extract_method_declaration(
        facts(&["void", "f", "(", ")", "{", "noexcept", "}"], true),
        &engine_id("f"),
        FunctionKind::Method,
    )
    .unwrap();
    assert!(!in_body.method.modifiers.contains(&MethodModifier::Noexcept));
    let conditional = FunctionVisitor::extract_method_declaration(
        facts(&["void", "f", "(", ")", "noexcept", ";"], false),
        &engine_id("f"),
        FunctionKind::Method,
    )
    .unwrap();
    assert!(!conditional.method.modifiers.contains(&MethodModifier::Noexcept));
}

#[test]
fn constructors_show_no_return_type_and_free_functions_are_not_methods() {
    let mut f = facts(&[], false);
    f.result_type = None;
    let ctor = FunctionVisitor::extract_method_declaration(f, &engine_id("Engine"), FunctionKind::Constructor).unwrap();
    assert_eq!(ctor.method.return_type, None);
    assert!(ctor.method.modifiers.contains(&MethodModifier::Constructor));
    assert!(matches!(ctor.method_type.return_type, ResolvedType::Builtin(ref b) if b == "void"));
    assert!(FunctionVisitor::extract_method_declaration(facts(&[], false), &engine_id("g"), FunctionKind::Free).is_none());
}

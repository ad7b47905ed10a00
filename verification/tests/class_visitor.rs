use puml_tooling::cpp::resolved_type::ResolvedType;
use puml_tooling::diagram_model::{EntityType, MemberVariable, Method, MethodModifier, SimpleEntity};
use puml_tooling::source_location::SourceLocation;
use puml_tooling::visitor::class_visitor::ClassVisitor;
use puml_tooling::visitor::context::{
    CallableArgumentKey, CallableDeclarationKey, CallableOwnerKey, CallableSignatureKey, ExtractedMethodDeclaration,
    ParsedClassInfo, ParsedMethodType, VisitContext,
};

fn empty_context() -> VisitContext {
    VisitContext { types: Vec::new(), parsed_class_info: Vec::new() }
}

fn class_info(id: &str) -> ParsedClassInfo {
    ParsedClassInfo {
        id: id.to_string(),
        base_classes: vec![],
        variable_types: vec![],
        method_types: vec![],
        has_abstract_methods: false,
        has_concrete_methods: false,
    }
}

fn widget_context(entity_type: EntityType) -> VisitContext {
    let mut ctx = empty_context();
    ctx.types.push((
        "Widget".to_string(),
        SimpleEntity {
            id: "Widget".to_string(),
            name: "Widget".to_string(),
            entity_type,
            ..Default::default()
        },
    ));
    ctx.parsed_class_info.push(class_info("Widget"));
    ctx
}

fn declaration_with(name: &str, modifiers: Vec<MethodModifier>, parameters: Vec<CallableArgumentKey>) -> ExtractedMethodDeclaration {
    ExtractedMethodDeclaration {
        class_id: "Widget".to_string(),
        method: Method { name: name.to_string(), modifiers, ..Default::default() },
        method_type: ParsedMethodType {
            name: name.to_string(),
            return_type: ResolvedType::Builtin("void".to_string()),
            parameter_types: vec![],
            source_location: SourceLocation::default(),
        },
        signature_key: CallableSignatureKey { name: name.to_string(), parameters },
    }
}

fn method_declaration() -> ExtractedMethodDeclaration {
    declaration_with("compute", vec![], vec![])
}

#[test]
fn missing_owning_class_does_not_burn_method_identity() {
    let mut ctx = empty_context();
    let mut seen: Vec<CallableDeclarationKey> = Vec::new();
    let declaration = method_declaration();

    assert!(!ClassVisitor::register_method_declaration(&mut ctx, &mut seen, declaration));
    assert!(seen.is_empty());
}

#[test]
fn successful_method_insert_is_still_deduplicated() {
    let mut ctx = widget_context(EntityType::Class);
    let mut seen: Vec<CallableDeclarationKey> = Vec::new();

    assert!(ClassVisitor::register_method_declaration(&mut ctx, &mut seen, method_declaration()));
    assert!(!ClassVisitor::register_method_declaration(&mut ctx, &mut seen, method_declaration()));

    assert_eq!(ctx.types[0].1.methods.len(), 1);
    assert_eq!(ctx.parsed_class_info[0].method_types.len(), 1);
    assert_eq!(
        seen,
        vec![CallableDeclarationKey {
            owner: CallableOwnerKey::Method { class_id: "Widget".to_string() },
            signature: CallableSignatureKey { name: "compute".to_string(), parameters: vec![] },
        }]
    );
}

#[test]
fn class_without_gathered_information_is_not_registered() {
    let mut ctx = widget_context(EntityType::Class);
    ctx.parsed_class_info.clear();
    let mut seen: Vec<CallableDeclarationKey> = Vec::new();
    assert!(!ClassVisitor::register_method_declaration(&mut ctx, &mut seen, method_declaration()));
    assert!(seen.is_empty());
    assert!(ctx.types[0].1.methods.is_empty());
}

#[test]
fn only_abstract_methods_and_no_variables_make_an_interface() {
    let mut ctx = widget_context(EntityType::Class);
    let mut seen: Vec<CallableDeclarationKey> = Vec::new();
    let d = declaration_with("draw", vec![MethodModifier::Virtual, MethodModifier::Abstract], vec![]);
    assert!(ClassVisitor::register_method_declaration(&mut ctx, &mut seen, d));
    assert_eq!(ctx.types[0].1.entity_type, EntityType::Interface);
    assert!(ctx.parsed_class_info[0].has_abstract_methods);
    assert!(!ctx.parsed_class_info[0].has_concrete_methods);

    let ctor = declaration_with("Widget", vec![MethodModifier::Constructor], vec![]);
    assert!(ClassVisitor::register_method_declaration(&mut ctx, &mut seen, ctor));
    assert_eq!(ctx.types[0].1.entity_type, EntityType::Interface);

    let concrete = declaration_with("size", vec![], vec![]);
    assert!(ClassVisitor::register_method_declaration(&mut ctx, &mut seen, concrete));
    assert_eq!(ctx.types[0].1.entity_type, EntityType::AbstractClass);
    assert_eq!(ctx.types[0].1.methods.len(), 3);
    assert_eq!(seen.len(), 3);
}

#[test]
fn abstract_method_with_variables_makes_an_abstract_class() {
    let mut ctx = widget_context(EntityType::Class);
    ctx.types[0].1.variables.push(MemberVariable::default());
    let mut seen: Vec<CallableDeclarationKey> = Vec::new();
    let d = declaration_with("draw", vec![MethodModifier::Abstract], vec![]);
    assert!(ClassVisitor::register_method_declaration(&mut ctx, &mut seen, d));
    assert_eq!(ctx.types[0].1.entity_type, EntityType::AbstractClass);
}

#[test]
fn struct_keeps_its_kind_and_flags() {
    let mut ctx = widget_context(EntityType::Struct);
    let mut seen: Vec<CallableDeclarationKey> = Vec::new();
    let d = declaration_with("draw", vec![MethodModifier::Abstract], vec![]);
    assert!(ClassVisitor::register_method_declaration(&mut ctx, &mut seen, d));
    assert_eq!(ctx.types[0].1.entity_type, EntityType::Struct);
    assert!(!ctx.parsed_class_info[0].has_abstract_methods);
    assert_eq!(ctx.types[0].1.methods.len(), 1);
}

#[test]
fn overloads_are_registered_separately() {
    let mut ctx = widget_context(EntityType::Class);
    let mut seen: Vec<CallableDeclarationKey> = Vec::new();
    let int_param =
        CallableArgumentKey { param_type: Some("int".to_string()), is_variadic: false, is_pack_expansion: false };
    let long_param =
        CallableArgumentKey { param_type: Some("long".to_string()), is_variadic: false, is_pack_expansion: false };
    assert!(ClassVisitor::register_method_declaration(
        &mut ctx,
        &mut seen,
        declaration_with("set", vec![], vec![int_param.clone()])
    ));
    assert!(ClassVisitor::register_method_declaration(
        &mut ctx,
        &mut seen,
        declaration_with("set", vec![], vec![long_param])
    ));
    assert!(!ClassVisitor::register_method_declaration(
        &mut ctx,
        &mut seen,
        declaration_with("set", vec![], vec![int_param])
    ));
    assert_eq!(ctx.types[0].1.methods.len(), 2);
    assert_eq!(ctx.types[0].1.entity_type, EntityType::Class);
    assert!(ctx.parsed_class_info[0].has_concrete_methods);
}

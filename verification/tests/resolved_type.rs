use puml_tooling::cpp::resolved_type::{normalize_pointer_reference_spacing, ResolvedType};

#[test]
fn resolves_referenced_entities_through_wrappers() {
    let wrapped = ResolvedType::Const(Box::new(ResolvedType::Pointer(Box::new(
        ResolvedType::UserDefined("Vehicle::Engine".to_string()),
    ))));
    assert_eq!(wrapped.referenced_entity_id(), Some("Vehicle::Engine"));

    let function_pointer = ResolvedType::FunctionPointer(Box::new(ResolvedType::Const(Box::new(
        ResolvedType::Pointer(Box::new(ResolvedType::UserDefined("Engine".to_string()))),
    ))));
    assert_eq!(function_pointer.referenced_entity_id(), Some("Engine"));

    let template = ResolvedType::Reference(Box::new(ResolvedType::Template {
        base: "std::vector".to_string(),
        args: vec![ResolvedType::UserDefined("Vehicle::Engine".to_string())],
    }));
    assert_eq!(template.referenced_entity_id(), Some("std::vector"));
}

#[test]
fn relationship_target_prefers_template_argument() {
    let ty = ResolvedType::Template {
        base: "std::vector".to_string(),
        args: vec![ResolvedType::UserDefined("Vehicle::Engine".to_string())],
    };
    assert_eq!(ty.relationship_target_entity_id(), Some("Vehicle::Engine"));
}

#[test]
fn renders_composite_types() {
    let pointer = ResolvedType::Pointer(Box::new(ResolvedType::UserDefined(
        "MyNamespace::Engine".to_string(),
    )));
    assert_eq!(pointer.render_for_display(), "MyNamespace::Engine *");

    let array = ResolvedType::Array {
        element: Box::new(ResolvedType::Builtin("int".to_string())),
        size: Some(8),
    };
    assert_eq!(array.render_for_display(), "int[8]");
}

#[test]
fn renders_qualified_and_callable_types() {
    let const_pointer = ResolvedType::Const(Box::new(ResolvedType::Pointer(Box::new(
        ResolvedType::Builtin("int".to_string()),
    ))));
    assert_eq!(const_pointer.render_for_display(), "int *const");

    let function = ResolvedType::Function {
        return_type: Box::new(ResolvedType::Builtin("void".to_string())),
        parameter_types: vec![ResolvedType::UserDefined("Engine".to_string())],
        is_variadic: false,
    };
    assert_eq!(
        ResolvedType::FunctionPointer(Box::new(function)).render_for_display(),
        "void (*)(Engine)"
    );
}

#[test]
fn identifies_non_owning_and_dependent_types() {
    let shared_ptr = ResolvedType::Template {
        base: "std::shared_ptr".to_string(),
        args: vec![ResolvedType::UserDefined("Engine".to_string())],
    };
    assert!(shared_ptr.is_non_owning());

    let dependent = ResolvedType::Dependent("decltype(foo(std::declval<T>()))".to_string());
    assert_eq!(dependent.referenced_entity_id(), None);
    assert_eq!(dependent.relationship_target_entity_id(), None);
    assert!(!dependent.is_non_owning());
    assert_eq!(
        dependent.render_for_display(),
        "decltype(foo(std::declval<T>()))"
    );
}

#[test]
fn global_scope_template_base_is_still_a_non_owning_wrapper() {
    let weak = ResolvedType::Template {
        base: "::std::weak_ptr".to_string(),
        args: vec![ResolvedType::Builtin("int".to_string())],
    };
    assert!(weak.is_non_owning());
}

#[test]
fn function_target_falls_back_to_parameters() {
    let function = ResolvedType::Function {
        return_type: Box::new(ResolvedType::Builtin("void".to_string())),
        parameter_types: vec![
            ResolvedType::Builtin("int".to_string()),
            ResolvedType::Reference(Box::new(ResolvedType::UserDefined("Wheel".to_string()))),
        ],
        is_variadic: true,
    };
    assert_eq!(function.relationship_target_entity_id(), Some("Wheel"));
    assert!(function.is_non_owning());
    assert_eq!(function.render_for_display(), "void(int, Wheel &, ...)");
}

#[test]
fn spacing_keeps_marker_runs_together() {
    let rvalue = ResolvedType::RValueReference(Box::new(ResolvedType::Pointer(Box::new(
        ResolvedType::Builtin("char".to_string()),
    ))));
    assert_eq!(rvalue.render_for_display(), "char *&&");
    assert_eq!(rvalue.render(), "char*&&");
}

#[test]
fn clone_keeps_the_rendering() {
    let ty = ResolvedType::Array {
        element: Box::new(ResolvedType::Volatile(Box::new(ResolvedType::Builtin(
            "long".to_string(),
        )))),
        size: Some(1024),
    };
    assert_eq!(ty.clone().render_for_display(), "volatile long[1024]");
}

#[test]
fn spacing_follows_the_documented_examples() {
    let cases = [
        ("Type*", "Type *"),
        ("Type**", "Type **"),
        ("Type&&", "Type &&"),
        ("void(*)(T)", "void (*)(T)"),
        ("void(&)(T)", "void (&)(T)"),
        ("void (*)(T)", "void (*)(T)"),
        ("(*)(T)", "(*)(T)"),
        ("f((*)(T))", "f((*)(T))"),
        ("int *p", "int *p"),
    ];
    for (input, expected) in cases {
        assert_eq!(normalize_pointer_reference_spacing(input.to_string()), expected);
    }
}

#[test]
fn spacing_twice_changes_nothing_more() {
    for input in ["void(*)(T)", "A*B&&C", "x(&)", "((*)&)*", "p*(*)(q*)"] {
        let once = normalize_pointer_reference_spacing(input.to_string());
        let twice = normalize_pointer_reference_spacing(once.clone());
        assert_eq!(once, twice);
        assert_eq!(once.replace(' ', ""), input.replace(' ', ""));
    }
}

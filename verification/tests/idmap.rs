use puml_tooling::fta::{FtaModel, FtaNode, GateKind, NodeKind};
use puml_tooling::diagram_model::{
    ClassDiagram, ComponentType, LogicComponent, MemberVariable, Method, RelationType, Relationship,
    SimpleEntity,
};
use puml_tooling::idmap::{
    class_model_to_idmap, comp_model_to_idmap, empty_idmap, fta_model_to_idmap, is_trlc_fqn,
    sequence_model_to_idmap, sort_by_id, IdMapEntry,
};

fn fta_node(kind: NodeKind, gate_kind: Option<GateKind>, alias: &str) -> FtaNode {
    FtaNode {
        kind,
        name: None,
        alias: alias.to_string(),
        connection: None,
        gate_kind,
        line: None,
    }
}

#[test]
fn fta_top_event_is_define_and_transfer_gate_is_reference() {
    let model = FtaModel {
        nodes: vec![
            fta_node(NodeKind::TopEvent, None, "pkg.TopFailure"),
            // $TransferInGate: alias is a foreign top-event FQN → reference.
            fta_node(
                NodeKind::Gate,
                Some(GateKind::TransferIn),
                "other.ForeignTop",
            ),
            // $AndGate/$OrGate are internal regardless of alias shape —
            // classification is driven by `gate_kind`, not the alias, so a
            // dotted alias on a non-transfer gate must NOT be misread as a
            // cross-diagram reference (regression test).
            fta_node(NodeKind::Gate, Some(GateKind::And), "And.Gate1"),
            fta_node(NodeKind::Gate, Some(GateKind::Or), "OG"),
            // Basic events are internal even when the alias looks like an FQN.
            fta_node(NodeKind::BasicEvent, None, "pkg.Cause"),
            fta_node(NodeKind::IntermediateEvent, None, "IE"),
        ],
    };

    let idmap = fta_model_to_idmap(&model, "pkg/fta.puml");

    let define_ids: Vec<&str> = idmap.defines.iter().map(|e| e.id.as_str()).collect();
    let reference_ids: Vec<&str> = idmap.references.iter().map(|e| e.id.as_str()).collect();
    assert_eq!(define_ids, ["pkg.TopFailure"]);
    assert_eq!(reference_ids, ["other.ForeignTop"]);
}

#[test]
fn is_trlc_fqn_accepts_two_part_identifiers_and_rejects_others() {
    // Valid: exactly two identifier parts.
    assert!(is_trlc_fqn("Package.Record"));
    assert!(is_trlc_fqn("_priv.R1"));
    assert!(is_trlc_fqn("a1.b2"));

    // Invalid: wrong number of parts.
    assert!(!is_trlc_fqn("NoDot"));
    assert!(!is_trlc_fqn("a.b.c"));
    assert!(!is_trlc_fqn(""));

    // Invalid: empty parts.
    assert!(!is_trlc_fqn(".Record"));
    assert!(!is_trlc_fqn("Package."));

    // Invalid: bad leading character or illegal characters.
    assert!(!is_trlc_fqn("1bad.Name"));
    assert!(!is_trlc_fqn("good.2bad"));
    assert!(!is_trlc_fqn("has space.Name"));
    assert!(!is_trlc_fqn("dash-ed.Name"));
}

#[test]
fn empty_model_yields_empty_idmap() {
    let idmap = empty_idmap("pkg/activity.puml");

    assert_eq!(idmap.source, "pkg/activity.puml");
    assert!(idmap.defines.is_empty());
    assert!(idmap.references.is_empty());
}

fn entry(alias: &str, id: &str) -> IdMapEntry {
    IdMapEntry { alias: alias.to_string(), id: id.to_string(), synthesized: false }
}

#[test]
fn sorting_by_id_is_ascending_and_stable() {
    let sorted = sort_by_id(vec![
        entry("z", "zeta"),
        entry("first", "mu"),
        entry("a", "alpha"),
        entry("second", "mu"),
        entry("A", "Alpha"),
        entry("e", ""),
    ]);
    let ids: Vec<&str> = sorted.iter().map(|e| e.id.as_str()).collect();
    assert_eq!(ids, ["", "Alpha", "alpha", "mu", "mu", "zeta"]);
    let mus: Vec<&str> = sorted.iter().filter(|e| e.id == "mu").map(|e| e.alias.as_str()).collect();
    assert_eq!(mus, ["first", "second"]);
}

#[test]
fn fta_idmap_lists_are_sorted() {
    let model = FtaModel {
        nodes: vec![
            fta_node(NodeKind::TopEvent, None, "pkg.Zeta"),
            fta_node(NodeKind::Gate, Some(GateKind::TransferIn), "other.Z"),
            fta_node(NodeKind::TopEvent, None, "pkg.Alpha"),
            fta_node(NodeKind::Gate, Some(GateKind::TransferIn), "other.A"),
        ],
    };
    let idmap = fta_model_to_idmap(&model, "f.puml");
    let define_ids: Vec<&str> = idmap.defines.iter().map(|e| e.id.as_str()).collect();
    let reference_ids: Vec<&str> = idmap.references.iter().map(|e| e.id.as_str()).collect();
    assert_eq!(define_ids, ["pkg.Alpha", "pkg.Zeta"]);
    assert_eq!(reference_ids, ["other.A", "other.Z"]);
    assert_eq!(idmap.defines[0].alias, "pkg.Alpha");
    assert!(!idmap.defines[0].synthesized);
}

fn component(id: &str, alias: Option<&str>, name: Option<&str>, parent: Option<&str>) -> LogicComponent {
    LogicComponent {
        id: id.to_string(),
        name: name.map(str::to_string),
        alias: alias.map(str::to_string),
        parent_id: parent.map(str::to_string),
        element_type: ComponentType::Component,
    }
}

/// The components of a diagram, as the resolver hands them over.
fn component_map(components: Vec<LogicComponent>) -> Vec<LogicComponent> {
    components
}

#[test]
fn component_children_make_define_leaves_make_reference() {
    // `Proxy` has a child `Handler` → Proxy is a define, Handler a reference.
    let model = component_map(vec![
        component("Proxy", Some("Proxy"), None, None),
        component("Handler", Some("Handler"), None, Some("Proxy")),
    ]);

    let idmap = comp_model_to_idmap(&model, "pkg/proxy.puml", None);

    assert_eq!(idmap.source, "pkg/proxy.puml");
    assert_eq!(idmap.defines.iter().map(|e| e.id.as_str()).collect::<Vec<_>>(), ["Proxy"]);
    assert_eq!(idmap.references.iter().map(|e| e.id.as_str()).collect::<Vec<_>>(), ["Handler"]);
}

#[test]
fn component_with_no_children_is_all_references() {
    let model = component_map(vec![
        component("A", Some("A"), None, None),
        component("B", Some("B"), None, None),
    ]);

    let idmap = comp_model_to_idmap(&model, "pkg/overview.puml", None);

    assert!(idmap.defines.is_empty());
    assert_eq!(idmap.references.len(), 2);
}

#[test]
fn component_alias_falls_back_to_name_then_id() {
    let model = component_map(vec![
        component("id.only", None, None, None),
        component("id.named", None, Some("DisplayName"), None),
        component("id.aliased", Some("AliasName"), Some("DisplayName"), None),
    ]);

    let idmap = comp_model_to_idmap(&model, "pkg/aliases.puml", None);

    let alias_of = |id: &str| -> String {
        idmap.references.iter().find(|e| e.id == id).map(|e| e.alias.clone()).unwrap()
    };
    assert_eq!(alias_of("id.only"), "id.only");
    assert_eq!(alias_of("id.named"), "DisplayName");
    assert_eq!(alias_of("id.aliased"), "AliasName");
}

#[test]
fn component_output_is_sorted_by_id() {
    let model = component_map(vec![
        component("zeta", Some("zeta"), None, None),
        component("alpha", Some("alpha"), None, None),
        component("mu", Some("mu"), None, None),
    ]);

    let idmap = comp_model_to_idmap(&model, "pkg/sorted.puml", None);

    let ids: Vec<&str> = idmap.references.iter().map(|e| e.id.as_str()).collect();
    assert_eq!(ids, ["alpha", "mu", "zeta"]);
}

#[test]
fn overview_top_level_leaves_are_references_not_defines() {
    // [Gateway] --> [Proxy] — no children on either
    let model = component_map(vec![
        component("Gateway", Some("Gateway"), None, None),
        component("Proxy", Some("Proxy"), None, None),
    ]);
    let idmap = comp_model_to_idmap(&model, "overview.puml", None);
    assert!(idmap.defines.is_empty());
    assert_eq!(idmap.references.len(), 2);
}

#[test]
fn detail_diagram_name_promotes_to_define() {
    // @startuml Proxy — diagram_name matches element alias
    let model = component_map(vec![
        component("Proxy", Some("Proxy"), None, None),
        component("Proxy.RequestHandler", Some("RequestHandler"), None, None),
    ]);
    let idmap = comp_model_to_idmap(&model, "proxy_detail.puml", Some("Proxy"));
    assert!(idmap.defines.iter().any(|e| e.alias == "Proxy"));
}

#[test]
fn package_with_children_is_a_define() {
    let mut pkg = component("Pkg", Some("Pkg"), None, None);
    pkg.element_type = ComponentType::Package;
    let model = component_map(vec![
        pkg,
        component("A", Some("A"), None, Some("Pkg")),
        component("AA", Some("AA"), None, Some("A")),
    ]);

    let idmap = comp_model_to_idmap(&model, "pkg.puml", None);
    assert!(idmap.defines.iter().any(|e| e.id == "Pkg"));
    assert!(!idmap.references.iter().any(|e| e.id == "Pkg"));
}

#[test]
fn empty_package_is_a_reference() {
    let mut pkg = component("Pkg", Some("Pkg"), None, None);
    pkg.element_type = ComponentType::Package;
    let model = component_map(vec![pkg]);

    let idmap = comp_model_to_idmap(&model, "pkg.puml", None);
    assert!(!idmap.defines.iter().any(|e| e.id == "Pkg"));
    assert!(idmap.references.iter().any(|e| e.id == "Pkg"));
}

#[test]
fn class_entities_with_members_are_defines() {
    let with_members = SimpleEntity {
        id: "pkg.WithMembers".to_string(),
        name: "WithMembers".to_string(),
        variables: vec![MemberVariable::default()],
        ..Default::default()
    };
    let without_members = SimpleEntity {
        id: "pkg.Empty".to_string(),
        name: "Empty".to_string(),
        ..Default::default()
    };
    let model = ClassDiagram {
        name: "d".to_string(),
        entities: vec![with_members, without_members],
    };

    let idmap = class_model_to_idmap(&model, "pkg/classes.puml");

    assert_eq!(idmap.defines.iter().map(|e| e.id.as_str()).collect::<Vec<_>>(), ["pkg.WithMembers"]);
    assert_eq!(idmap.references.iter().map(|e| e.id.as_str()).collect::<Vec<_>>(), ["pkg.Empty"]);
}

#[test]
fn class_output_is_sorted_by_id_for_defines_and_references() {
    let with_members_z = SimpleEntity {
        id: "pkg.Z".to_string(),
        name: "Z".to_string(),
        variables: vec![MemberVariable::default()],
        ..Default::default()
    };
    let with_members_a = SimpleEntity {
        id: "pkg.A".to_string(),
        name: "A".to_string(),
        variables: vec![MemberVariable::default()],
        ..Default::default()
    };
    let ref_m = SimpleEntity { id: "pkg.M".to_string(), name: "M".to_string(), ..Default::default() };
    let ref_b = SimpleEntity { id: "pkg.B".to_string(), name: "B".to_string(), ..Default::default() };

    let model = ClassDiagram {
        name: "sorted".to_string(),
        entities: vec![with_members_z, ref_m, with_members_a, ref_b],
    };

    let idmap = class_model_to_idmap(&model, "pkg/class_sorted.puml");

    let define_ids: Vec<&str> = idmap.defines.iter().map(|e| e.id.as_str()).collect();
    let ref_ids: Vec<&str> = idmap.references.iter().map(|e| e.id.as_str()).collect();

    assert_eq!(define_ids, ["pkg.A", "pkg.Z"]);
    assert_eq!(ref_ids, ["pkg.B", "pkg.M"]);
}

fn association(source: &str, target: &str) -> Relationship {
    Relationship {
        source: source.to_string(),
        target: target.to_string(),
        relation_type: RelationType::Association,
        source_multiplicity: None,
        target_multiplicity: None,
        ..Default::default()
    }
}

#[test]
fn class_relationship_endpoints_are_emitted_as_references() {
    let define = SimpleEntity {
        id: "pkg.Define".to_string(),
        name: "Define".to_string(),
        variables: vec![MemberVariable::default()],
        relationships: vec![Relationship {
            source: "pkg.Define".to_string(),
            target: "pkg.ExternalRef".to_string(),
            relation_type: RelationType::Association,
            source_multiplicity: None,
            target_multiplicity: None,
            ..Default::default()
        }],
        ..Default::default()
    };
    let model = ClassDiagram { name: "d".to_string(), entities: vec![define] };

    let idmap = class_model_to_idmap(&model, "pkg/classes.puml");
    assert!(idmap.references.iter().any(|e| e.id == "pkg.ExternalRef"));
}

#[test]
fn class_relationship_endpoint_that_is_a_define_is_not_duplicated_as_reference() {
    let a = SimpleEntity {
        id: "pkg.A".to_string(),
        name: "A".to_string(),
        variables: vec![MemberVariable::default()],
        relationships: vec![association("pkg.A", "pkg.B")],
        ..Default::default()
    };
    let b = SimpleEntity {
        id: "pkg.B".to_string(),
        name: "B".to_string(),
        variables: vec![MemberVariable::default()],
        ..Default::default()
    };
    let model = ClassDiagram { name: "d".to_string(), entities: vec![a, b] };

    let idmap = class_model_to_idmap(&model, "pkg/classes.puml");

    let define_ids: Vec<&str> = idmap.defines.iter().map(|e| e.id.as_str()).collect();
    assert_eq!(define_ids, ["pkg.A", "pkg.B"]);
    assert!(idmap.references.is_empty(), "got: {:?}", idmap.references);
}

#[test]
fn class_namespace_container_endpoint_is_not_emitted_as_reference() {
    let child = SimpleEntity {
        id: "pkg.Container.Child".to_string(),
        name: "Child".to_string(),
        enclosing_namespace_id: Some("pkg.Container".to_string()),
        variables: vec![MemberVariable::default()],
        relationships: vec![association("pkg.Container.Child", "pkg.Container")],
        ..Default::default()
    };
    let model = ClassDiagram { name: "d".to_string(), entities: vec![child] };

    let idmap = class_model_to_idmap(&model, "pkg/ns.puml");
    assert!(!idmap.references.iter().any(|e| e.id == "pkg.Container"), "got: {:?}", idmap.references);
    assert!(idmap.defines.iter().any(|e| e.id == "pkg.Container"), "got: {:?}", idmap.defines);
}

#[test]
fn class_namespace_container_as_relationship_source_is_not_emitted_as_reference() {
    let child = SimpleEntity {
        id: "pkg.Container.Child".to_string(),
        name: "Child".to_string(),
        enclosing_namespace_id: Some("pkg.Container".to_string()),
        variables: vec![MemberVariable::default()],
        relationships: vec![association("pkg.Container", "pkg.Container.Child")],
        ..Default::default()
    };
    let model = ClassDiagram { name: "d".to_string(), entities: vec![child] };

    let idmap = class_model_to_idmap(&model, "pkg/ns.puml");
    assert!(!idmap.references.iter().any(|e| e.id == "pkg.Container"), "got: {:?}", idmap.references);
    assert!(idmap.defines.iter().any(|e| e.id == "pkg.Container"));
}

#[test]
fn class_namespace_define_alias_is_last_path_segment_and_id_is_full_fqn() {
    let foo = SimpleEntity {
        id: "safety_software_seooc_example.component_example.unit_1.Foo".to_string(),
        name: "Foo".to_string(),
        enclosing_namespace_id: Some("safety_software_seooc_example.component_example.unit_1".to_string()),
        methods: vec![Method::default()],
        ..Default::default()
    };
    let model = ClassDiagram { name: "unit_1_class_diagram".to_string(), entities: vec![foo] };

    let idmap = class_model_to_idmap(&model, "unit_1/docs/unit_1_class_diagram.puml");

    let namespace_define = idmap
        .defines
        .iter()
        .find(|e| e.id == "safety_software_seooc_example.component_example.unit_1")
        .expect("namespace must be synthesized as a define");
    assert_eq!(namespace_define.alias, "unit_1");
    assert!(namespace_define.synthesized);
}

#[test]
fn class_namespace_define_does_not_shadow_a_real_entity_with_the_same_id() {
    let child = SimpleEntity {
        id: "pkg.Container.Child".to_string(),
        name: "Child".to_string(),
        enclosing_namespace_id: Some("pkg.Container".to_string()),
        variables: vec![MemberVariable::default()],
        ..Default::default()
    };
    let container_as_real_entity = SimpleEntity {
        id: "pkg.Container".to_string(),
        name: "Container".to_string(),
        methods: vec![Method::default()],
        ..Default::default()
    };
    let model = ClassDiagram { name: "d".to_string(), entities: vec![child, container_as_real_entity] };

    let idmap = class_model_to_idmap(&model, "pkg/ns.puml");

    assert_eq!(idmap.defines.iter().filter(|e| e.id == "pkg.Container").count(), 1, "got: {:?}", idmap.defines);
}

#[test]
fn class_matches_diagram_name_promotes_memberless_entity_to_define() {
    let proxy = SimpleEntity { id: "pkg.Proxy".to_string(), name: "Proxy".to_string(), ..Default::default() };
    let leaf = SimpleEntity { id: "pkg.Leaf".to_string(), name: "Leaf".to_string(), ..Default::default() };
    let model = ClassDiagram { name: "Proxy".to_string(), entities: vec![proxy, leaf] };

    let idmap = class_model_to_idmap(&model, "pkg/proxy.puml");
    assert!(idmap.defines.iter().any(|e| e.id == "pkg.Proxy"));
    assert!(idmap.references.iter().any(|e| e.id == "pkg.Leaf"));
    assert!(!idmap.defines.iter().any(|e| e.id == "pkg.Leaf"));
}

#[test]
fn dangling_class_endpoint_is_referenced_by_its_raw_id() {
    let a = SimpleEntity {
        id: "pkg.A".to_string(),
        name: "A".to_string(),
        relationships: vec![association("pkg.A", "ghost.Id"), association("pkg.A", "ghost.Id")],
        ..Default::default()
    };
    let model = ClassDiagram { name: String::new(), entities: vec![a] };
    let idmap = class_model_to_idmap(&model, "x.puml");
    assert!(idmap.defines.is_empty());
    let refs: Vec<(&str, &str)> = idmap.references.iter().map(|e| (e.alias.as_str(), e.id.as_str())).collect();
    assert_eq!(refs, [("ghost.Id", "ghost.Id"), ("A", "pkg.A")]);
}

fn names(ns: &[&str]) -> Vec<String> {
    ns.iter().map(|n| n.to_string()).collect()
}

#[test]
fn sequence_participants_become_sorted_references() {
    // Participants Zebra, Alpha, Mango; interactions Zebra -> Alpha, Alpha -> Mango.
    let participants = names(&["Zebra", "Alpha", "Mango", "Zebra", "Alpha", "Alpha", "Mango"]);
    let idmap = sequence_model_to_idmap(&participants, "pkg/seq.puml");
    assert!(idmap.defines.is_empty());
    let ids: Vec<&str> = idmap.references.iter().map(|e| e.id.as_str()).collect();
    assert_eq!(ids, ["Alpha", "Mango", "Zebra"]);
}

#[test]
fn sequence_collect_participants_from_sequence_tree() {
    let participants = names(&["B", "A", "Deep", "Nested"]);
    let idmap = sequence_model_to_idmap(&participants, "pkg/seq.puml");
    assert!(idmap.defines.is_empty());
    let ids: Vec<&str> = idmap.references.iter().map(|e| e.id.as_str()).collect();
    assert_eq!(ids, ["A", "B", "Deep", "Nested"]);
}

#[test]
fn sequence_declared_but_unused_participant_is_still_a_reference() {
    // Declared Alice, Bob, Idle; only Alice -> Bob interacts.
    let participants = names(&["Alice", "Bob", "Idle", "Alice", "Bob"]);
    let idmap = sequence_model_to_idmap(&participants, "pkg/seq.puml");
    let ids: Vec<&str> = idmap.references.iter().map(|e| e.id.as_str()).collect();
    assert_eq!(ids, ["Alice", "Bob", "Idle"]);
    assert!(idmap.references.iter().all(|e| e.alias == e.id && !e.synthesized));
    assert_eq!(idmap.source, "pkg/seq.puml");
}

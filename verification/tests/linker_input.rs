use puml_tooling::linker::{generate_links, DiagramComponent, LinkEntry};
use puml_tooling::linker_input::{
    class_diagram_info, component_diagram_info, diagram_kind, sequence_diagram_info, DiagramKind, FbClassDiagram,
    FbComponent, FbComponentGraph, FbEntity, FbEvent, FbRelationship, FbSequenceDiagram, FbSequenceNode,
};

fn s(x: &str) -> String {
    x.to_string()
}

fn so(x: &str) -> Option<String> {
    Some(x.to_string())
}

fn comp(alias: &str, id: Option<&str>, parent: Option<&str>) -> DiagramComponent {
    DiagramComponent { alias: s(alias), id: id.map(s), parent_id: parent.map(s) }
}

#[test]
fn component_graph_contributes_aliases_names_and_targets() {
    let graph = FbComponentGraph {
        source_file: so("comp.puml"),
        components: vec![
            None,
            Some(FbComponent {
                alias: so("A"),
                name: so("Alpha Service"),
                id: so("pkg.A"),
                parent_id: None,
                relation_targets: vec![so("B"), so(""), None, so("B")],
            }),
            Some(FbComponent {
                alias: None,
                name: so("B"),
                id: so("B"),
                parent_id: so("A"),
                relation_targets: vec![so("C")],
            }),
            Some(FbComponent { alias: None, name: None, id: so("x"), parent_id: None, relation_targets: vec![] }),
            Some(FbComponent { alias: so("C"), name: so("C"), id: None, parent_id: None, relation_targets: vec![so("C")] }),
        ],
    };
    let info = component_diagram_info("comp.fbs.bin", &graph).unwrap();
    assert_eq!(info.source_file, "comp.puml");
    assert_eq!(info.diagram_name, None);
    assert_eq!(
        info.components,
        vec![
            comp("Alpha Service", None, None),
            comp("A", Some("pkg.A"), None),
            comp("B", None, None),
            comp("B", None, Some("A")),
            comp("C", None, None),
            comp("C", None, None),
        ]
    );
}

#[test]
fn component_graph_without_source_is_an_error() {
    let graph = FbComponentGraph { source_file: so(""), components: vec![] };
    assert_eq!(
        component_diagram_info("comp.fbs.bin", &graph).unwrap_err(),
        "Missing source_file in FlatBuffer: comp.fbs.bin"
    );
}

#[test]
fn class_diagram_contributes_entities_and_relationship_ends() {
    let diagram = FbClassDiagram {
        source_files: Some(vec![s(""), s("cls.puml")]),
        name: s("Overview"),
        entities: Some(vec![
            FbEntity {
                name: s("Foo"),
                id: s("pkg.Foo"),
                enclosing_namespace_id: so("pkg"),
                relationship_targets: vec![s("Bar"), s("")],
            },
            FbEntity { name: s(""), id: s("ghost"), enclosing_namespace_id: None, relationship_targets: vec![s("X")] },
            FbEntity { name: s("Bar"), id: s("Bar"), enclosing_namespace_id: None, relationship_targets: vec![] },
        ]),
        relationships: Some(vec![
            FbRelationship { source: s("Foo"), target: s("Baz") },
            FbRelationship { source: s(""), target: s("") },
        ]),
    };
    let info = class_diagram_info("cls.fbs.bin", &diagram).unwrap();
    assert_eq!(info.source_file, "cls.puml");
    assert_eq!(info.diagram_name.as_deref(), Some("Overview"));
    assert_eq!(
        info.components,
        vec![
            comp("Foo", Some("pkg.Foo"), Some("pkg")),
            comp("Bar", None, None),
            comp("Bar", None, None),
            comp("Baz", None, None),
            comp("Foo", None, None),
        ]
    );
}

#[test]
fn class_diagram_named_after_its_file_has_no_name() {
    let diagram = FbClassDiagram {
        source_files: Some(vec![s("cls.puml")]),
        name: s("cls.puml"),
        entities: None,
        relationships: None,
    };
    let info = class_diagram_info("cls.fbs.bin", &diagram).unwrap();
    assert_eq!(info.diagram_name, None);
    assert!(info.components.is_empty());
    let missing = FbClassDiagram { source_files: Some(vec![s("")]), name: s("n"), entities: None, relationships: None };
    assert_eq!(
        class_diagram_info("cls.fbs.bin", &missing).unwrap_err(),
        "Missing source_files in class FlatBuffer: cls.fbs.bin"
    );
}

fn interaction(caller: &str, callee: &str) -> FbSequenceNode {
    FbSequenceNode { event: FbEvent::Interaction { caller: s(caller), callee: s(callee) }, branches: None }
}

#[test]
fn sequence_diagram_contributes_each_participant_once() {
    let diagram = FbSequenceDiagram {
        source_files: Some(vec![s("seq.puml")]),
        name: so("Flow"),
        root_interactions: Some(vec![
            interaction("A", "B"),
            FbSequenceNode { event: FbEvent::Return { caller: s("B"), callee: s("A") }, branches: None },
            FbSequenceNode { event: FbEvent::Other, branches: Some(vec![interaction("C", "")]) },
            interaction("", "D"),
        ]),
    };
    let info = sequence_diagram_info("seq.fbs.bin", &diagram).unwrap();
    assert_eq!(info.source_file, "seq.puml");
    assert_eq!(info.diagram_name.as_deref(), Some("Flow"));
    let aliases: Vec<&str> = info.components.iter().map(|c| c.alias.as_str()).collect();
    assert_eq!(aliases, ["A", "B", "C", "D"]);
    assert!(info.components.iter().all(|c| c.id.is_none() && c.parent_id.is_none()));
    let missing = FbSequenceDiagram { source_files: None, name: None, root_interactions: None };
    assert_eq!(
        sequence_diagram_info("seq.fbs.bin", &missing).unwrap_err(),
        "Missing source_files in sequence FlatBuffer: seq.fbs.bin"
    );
}

#[test]
fn sequence_participants_link_to_component_diagram() {
    let seq = FbSequenceDiagram {
        source_files: Some(vec![s("seq.puml")]),
        name: None,
        root_interactions: Some(vec![interaction("Gateway", "Proxy")]),
    };
    let graph = FbComponentGraph {
        source_file: so("proxy.puml"),
        components: vec![Some(FbComponent {
            alias: so("Proxy"),
            name: None,
            id: None,
            parent_id: None,
            relation_targets: vec![],
        })],
    };
    let diagrams = vec![
        sequence_diagram_info("seq.fbs.bin", &seq).unwrap(),
        component_diagram_info("proxy.fbs.bin", &graph).unwrap(),
    ];
    // Participants are top-level in the sequence diagram too, so the link goes both ways.
    assert_eq!(
        generate_links(&diagrams),
        vec![
            LinkEntry { source_file: s("proxy.puml"), source_id: s("Proxy"), target_file: s("seq.puml") },
            LinkEntry { source_file: s("seq.puml"), source_id: s("Proxy"), target_file: s("proxy.puml") },
        ]
    );
}

fn buffer(id: &[u8]) -> Vec<u8> {
    let mut v = vec![0u8, 0, 0, 0];
    v.extend_from_slice(id);
    v.extend_from_slice(&[1, 2, 3]);
    v
}

#[test]
fn buffer_kind_by_identifier() {
    assert_eq!(diagram_kind("a", &buffer(b"COMP")), Ok(DiagramKind::Component));
    assert_eq!(diagram_kind("a", &buffer(b"CLSD")), Ok(DiagramKind::Class));
    assert_eq!(diagram_kind("a", &buffer(b"SEQD")), Ok(DiagramKind::Sequence));
    assert_eq!(diagram_kind("a.bin", &[]), Err(s("Empty file (placeholder): a.bin")));
    assert_eq!(diagram_kind("a.bin", &buffer(b"ABCD")), Err(s("Unsupported FlatBuffer type 'ABCD': a.bin")));
    assert_eq!(diagram_kind("a.bin", &[1, 2, 3]), Err(s("Unsupported FlatBuffer type '': a.bin")));
}

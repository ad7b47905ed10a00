use puml_tooling::linker::{generate_links, DiagramComponent, DiagramInfo, LinkEntry};

fn comp(alias: &str, id: Option<&str>, parent: Option<&str>) -> DiagramComponent {
    DiagramComponent {
        alias: alias.to_string(),
        id: id.map(|s| s.to_string()),
        parent_id: parent.map(|s| s.to_string()),
    }
}

fn diagram(file: &str, name: Option<&str>, components: Vec<DiagramComponent>) -> DiagramInfo {
    DiagramInfo { source_file: file.to_string(), diagram_name: name.map(|s| s.to_string()), components }
}

fn link(s: &str, id: &str, t: &str) -> LinkEntry {
    LinkEntry { source_file: s.to_string(), source_id: id.to_string(), target_file: t.to_string() }
}

#[test]
fn links_component_to_diagram_drawing_it_at_top_level() {
    let ds = vec![
        diagram("a.puml", None, vec![comp("Sys", None, None), comp("Db", None, Some("Sys"))]),
        diagram("b.puml", None, vec![comp("Db", None, None)]),
    ];
    let links = generate_links(&ds);
    assert_eq!(links, vec![link("a.puml", "Db", "b.puml")]);
}

#[test]
fn nested_component_is_no_target() {
    let ds = vec![
        diagram("a.puml", None, vec![comp("Db", None, None)]),
        diagram("b.puml", None, vec![comp("Sys", None, None), comp("Db", None, Some("Sys"))]),
    ];
    let links = generate_links(&ds);
    assert_eq!(links, vec![link("b.puml", "Db", "a.puml")]);
}

#[test]
fn no_link_to_own_diagram() {
    let ds = vec![diagram("a.puml", Some("A"), vec![comp("A", None, None), comp("B", None, None)])];
    assert!(generate_links(&ds).is_empty());
}

#[test]
fn diagram_name_and_fqn_register_targets() {
    let ds = vec![
        diagram("a.puml", None, vec![comp("Overview", None, None), comp("pkg.Comp", None, None)]),
        diagram("b.puml", Some("Overview"), vec![]),
        diagram("c.puml", None, vec![comp("Comp", Some("pkg.Comp"), None)]),
    ];
    let links = generate_links(&ds);
    assert_eq!(
        links,
        vec![link("a.puml", "Overview", "b.puml"), link("a.puml", "pkg.Comp", "c.puml")]
    );
}

#[test]
fn one_target_per_component_first_alphabetically() {
    let ds = vec![
        diagram("z.puml", None, vec![comp("X", None, None)]),
        diagram("m.puml", None, vec![comp("X", None, None)]),
        diagram("a.puml", None, vec![comp("X", None, None)]),
    ];
    let links = generate_links(&ds);
    assert_eq!(
        links,
        vec![
            link("a.puml", "X", "m.puml"),
            link("m.puml", "X", "a.puml"),
            link("z.puml", "X", "a.puml"),
        ]
    );
}

#[test]
fn repeated_registration_gives_one_link() {
    let ds = vec![
        diagram("a.puml", None, vec![comp("X", None, Some("P")), comp("X", None, Some("Q"))]),
        diagram("b.puml", Some("X"), vec![comp("X", Some("X"), None)]),
    ];
    let links = generate_links(&ds);
    assert_eq!(links, vec![link("a.puml", "X", "b.puml")]);
}

#[test]
fn no_diagrams_no_links() {
    assert!(generate_links(&Vec::new()).is_empty());
}

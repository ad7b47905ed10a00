use puml_tooling::preprocessor::include_ast::{
    IncludeFile, IncludeKind, IncludeStmt, IncludeSuffix, SubBlock,
};
use puml_tooling::preprocessor::include_expander::{
    render_stmts, IncludeExpandError, IncludeExpander,
};

fn text(s: &str) -> IncludeFile {
    IncludeFile::Text(s.to_string())
}

fn inc(kind: IncludeKind, path: &str) -> IncludeFile {
    IncludeFile::Include(IncludeStmt::Include { kind, path: path.to_string() })
}

fn inc_sub(path: &str, label: &str) -> IncludeFile {
    IncludeFile::Include(IncludeStmt::IncludeSub {
        path: path.to_string(),
        suffix: IncludeSuffix::Label(label.to_string()),
    })
}

fn sub(label: &str, content: Vec<IncludeFile>) -> IncludeFile {
    IncludeFile::SubBlock(SubBlock { name: IncludeSuffix::Label(label.to_string()), content })
}

fn expander(files: Vec<(&str, Vec<IncludeFile>)>) -> (IncludeExpander, Vec<String>) {
    let mut e = IncludeExpander::new();
    let mut list = Vec::new();
    for (path, ast) in files {
        e.add_ast(path.to_string(), ast);
        list.push(path.to_string());
    }
    (e, list)
}

#[test]
fn simple_include_inlines_the_file_without_its_frame() {
    let (e, list) = expander(vec![
        ("d/main.puml", vec![text("@startuml\n"), inc(IncludeKind::Include, "lib/common.puml"), text("A -> B\n@enduml\n")]),
        ("d/lib/common.puml", vec![text("@startuml\nskinparam x\n@enduml\n")]),
    ]);
    let out = e.expand(&"d/main.puml".to_string(), &list).unwrap();
    assert_eq!(out, "@startuml\nskinparam x\nA -> B\n@enduml\n");
}

#[test]
fn repeated_include_is_inlined_once_but_include_many_every_time() {
    let (e, list) = expander(vec![
        (
            "m.puml",
            vec![
                inc(IncludeKind::Include, "x.puml"),
                inc(IncludeKind::Include, "./x.puml"),
                inc(IncludeKind::IncludeMany, "x.puml"),
            ],
        ),
        ("x.puml", vec![text("X\n")]),
    ]);
    assert_eq!(e.expand(&"m.puml".to_string(), &list).unwrap(), "X\nX\n");
}

#[test]
fn include_once_twice_is_an_error() {
    let (e, list) = expander(vec![
        ("m.puml", vec![inc(IncludeKind::IncludeOnce, "x.puml"), inc(IncludeKind::IncludeOnce, "x.puml")]),
        ("x.puml", vec![text("X\n")]),
    ]);
    assert_eq!(
        e.expand(&"m.puml".to_string(), &list),
        Err(IncludeExpandError::IncludeOnceViolated {
            file: "m.puml".to_string(),
            conflict: "x.puml".to_string()
        })
    );
}

#[test]
fn include_cycle_is_detected_with_its_chain() {
    let (e, list) = expander(vec![
        ("a/a.puml", vec![inc(IncludeKind::IncludeMany, "../b/b.puml")]),
        ("b/b.puml", vec![inc(IncludeKind::IncludeMany, "/a/a.puml")]),
    ]);
    // the absolute target `/a/a.puml` is not among the relative file names
    assert_eq!(
        e.expand(&"a/a.puml".to_string(), &list),
        Err(IncludeExpandError::FileNotFound { file: "/a/a.puml".to_string() })
    );
    let (e, list) = expander(vec![
        ("a/a.puml", vec![inc(IncludeKind::IncludeMany, "../b/b.puml")]),
        ("b/b.puml", vec![inc(IncludeKind::IncludeMany, "../a/a.puml")]),
    ]);
    assert_eq!(
        e.expand(&"a/a.puml".to_string(), &list),
        Err(IncludeExpandError::CycleInclude {
            chain: vec!["a/a.puml".to_string(), "b/b.puml".to_string(), "a/a.puml".to_string()]
        })
    );
}

#[test]
fn missing_file_and_missing_tree_are_reported() {
    let (e, list) = expander(vec![("m.puml", vec![inc(IncludeKind::Include, "nope.puml")])]);
    assert_eq!(
        e.expand(&"m.puml".to_string(), &list),
        Err(IncludeExpandError::FileNotFound { file: "nope.puml".to_string() })
    );
    let e = IncludeExpander::new();
    assert_eq!(
        e.expand(&"m.puml".to_string(), &vec!["m.puml".to_string()]),
        Err(IncludeExpandError::NotLoaded { file: "m.puml".to_string() })
    );
}

#[test]
fn includesub_inlines_every_block_with_that_name() {
    let (e, list) = expander(vec![
        ("m.puml", vec![text("start\n"), inc_sub("lib.puml", "S"), text("end\n")]),
        (
            "lib.puml",
            vec![
                sub("S", vec![text("s1\n")]),
                sub("T", vec![text("t\n")]),
                sub("S", vec![text("s2\n")]),
            ],
        ),
    ]);
    assert_eq!(e.expand(&"m.puml".to_string(), &list).unwrap(), "start\ns1\ns2\nend\n");
}

#[test]
fn includesub_of_unknown_block_is_an_error() {
    let (e, list) = expander(vec![
        ("m.puml", vec![inc_sub("lib.puml", "Nope")]),
        ("lib.puml", vec![sub("S", vec![text("s\n")])]),
    ]);
    assert_eq!(
        e.expand(&"m.puml".to_string(), &list),
        Err(IncludeExpandError::UnknownSub { file: "lib.puml".to_string(), suffix: "Nope".to_string() })
    );
}

#[test]
fn includesub_of_itself_is_a_cycle() {
    let (e, list) = expander(vec![("m.puml", vec![sub("S", vec![inc_sub("m.puml", "S")]), inc_sub("m.puml", "S")])]);
    assert_eq!(
        e.expand(&"m.puml".to_string(), &list),
        Err(IncludeExpandError::CycleInclude { chain: vec!["m.puml".to_string(), "m.puml".to_string()] })
    );
}

#[test]
fn rendering_expanded_nodes_concatenates_text() {
    let out = render_stmts(vec![text("a\n"), sub("S", vec![text("b\n")]), inc(IncludeKind::Include, "x")]);
    assert_eq!(out, "a\nb\n");
}

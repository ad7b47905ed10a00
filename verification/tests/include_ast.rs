use puml_tooling::preprocessor::include_ast::{
    IncludeFile, IncludeKind, IncludeStmt, IncludeSuffix, SubBlock,
};

#[test]
fn render_text_node_outputs_text() {
    let stmt = IncludeFile::Text("hello".into());
    let mut out = String::new();
    stmt.render(&mut out);
    assert_eq!(out, "hello");
}

#[test]
fn render_subblock_with_text_nodes() {
    let sub = SubBlock {
        name: IncludeSuffix::Label("sub".into()),
        content: vec![
            IncludeFile::Text("a\n".into()),
            IncludeFile::Text("b\n".into()),
        ],
    };
    let stmt = IncludeFile::SubBlock(sub);
    let mut out = String::new();
    stmt.render(&mut out);
    assert_eq!(out, "a\nb\n");
}

#[test]
fn render_empty_subblock_outputs_nothing() {
    let sub = SubBlock {
        name: IncludeSuffix::Label("empty".into()),
        content: vec![],
    };
    let stmt = IncludeFile::SubBlock(sub);
    let mut out = String::new();
    stmt.render(&mut out);
    assert_eq!(out, "");
}

#[test]
fn render_nested_subblocks() {
    let inner_sub = SubBlock {
        name: IncludeSuffix::Label("inner".into()),
        content: vec![IncludeFile::Text("inner\n".into())],
    };
    let outer_sub = SubBlock {
        name: IncludeSuffix::Label("outer".into()),
        content: vec![
            IncludeFile::Text("start\n".into()),
            IncludeFile::SubBlock(inner_sub),
            IncludeFile::Text("end\n".into()),
        ],
    };
    let stmt = IncludeFile::SubBlock(outer_sub);
    let mut out = String::new();
    stmt.render(&mut out);
    assert_eq!(out, "start\ninner\nend\n");
}

#[test]
fn render_include_stmt_does_not_panic() {
    let directive = IncludeFile::Include(IncludeStmt::Include {
        kind: IncludeKind::Include,
        path: "file.puml".into(),
    });
    let mut out = String::new();
    directive.render(&mut out);
    assert_eq!(out, "");
}

#[test]
fn render_include_sub_stmt_does_not_panic() {
    let directive_sub = IncludeFile::Include(IncludeStmt::IncludeSub {
        path: "file.puml".into(),
        suffix: IncludeSuffix::Label("sub".into()),
    });
    let mut out = String::new();
    directive_sub.render(&mut out);
    assert_eq!(out, "");
}

#[test]
fn render_appends_to_existing_output() {
    let stmt = IncludeFile::Text("tail".into());
    let mut out = String::from("head-");
    stmt.render(&mut out);
    assert_eq!(out, "head-tail");
}

use puml_tooling::fta::{is_valid_trlc_fqn, lobster_document, FtaError, FtaModel, NodeKind};
use puml_tooling::preprocessor::procedure_ast::{
    Arg, BodyNode, MacroCallDef, ProcedureDef, ProcedureFile, Statement, TextPart,
};

const TOP_EVENT: &str = "$TopEvent";
const INTERMEDIATE_EVENT: &str = "$IntermediateEvent";
const BASIC_EVENT: &str = "$BasicEvent";
const AND_GATE: &str = "$AndGate";
const OR_GATE: &str = "$OrGate";

fn mk_call(name: &str, args: &[&str], line: usize) -> Statement {
    Statement::MacroCall(MacroCallDef {
        name: name.to_string(),
        args: args.iter().map(|a| Arg::String(a.to_string())).collect(),
        line: Some(line),
    })
}

fn model_from_stmts(stmts: Vec<Statement>) -> FtaModel {
    FtaModel::from_procedure_file(&ProcedureFile { stmts }).expect("fta model")
}

#[test]
fn is_valid_trlc_fqn_matches_package_record() {
    assert!(is_valid_trlc_fqn("Pkg.Record"));
    assert!(is_valid_trlc_fqn("_Lib.Foo_1"));
    assert!(!is_valid_trlc_fqn("NoDot"));
    assert!(!is_valid_trlc_fqn("A.B.C"));
    assert!(!is_valid_trlc_fqn(""));
    assert!(!is_valid_trlc_fqn("."));
    assert!(!is_valid_trlc_fqn("1Bad.Record"));
}

#[test]
fn multiple_top_events_get_separate_chains() {
    let chains = model_from_stmts(vec![
        mk_call(TOP_EVENT, &["FM one", "Lib.FmA"], 1),
        mk_call(OR_GATE, &["OGA", "Lib.FmA"], 2),
        mk_call(BASIC_EVENT, &["cm a", "Lib.CmA", "OGA"], 3),
        mk_call(TOP_EVENT, &["FM two", "Lib.FmB"], 4),
        mk_call(OR_GATE, &["OGB", "Lib.FmB"], 5),
        mk_call(BASIC_EVENT, &["cm b", "Lib.CmB", "OGB"], 6),
    ])
    .chains("d.puml");

    assert_eq!(chains.len(), 2);
    let a = chains.iter().find(|c| c.fm_fqn == "Lib.FmA").unwrap();
    assert_eq!(a.control_measures, vec!["Lib.CmA"]);
    let b = chains.iter().find(|c| c.fm_fqn == "Lib.FmB").unwrap();
    assert_eq!(b.control_measures, vec!["Lib.CmB"]);
}

#[test]
fn dangling_basic_event_is_dropped_from_chains() {
    // Basic event connects to a gate alias that does not exist.
    let chains = model_from_stmts(vec![
        mk_call(TOP_EVENT, &["FM", "Lib.Fm"], 1),
        mk_call(BASIC_EVENT, &["cm", "Lib.Cm", "MissingGate"], 2),
    ])
    .chains("d.puml");

    assert_eq!(chains.len(), 1);
    assert!(chains[0].control_measures.is_empty());
}

#[test]
fn cyclic_connections_terminate_without_hanging() {
    // G1 -> G2 -> G1 cycle, no reachable top event.  The bounded walk must
    // return without looping forever.
    let chains = model_from_stmts(vec![
        mk_call(OR_GATE, &["G1", "G2"], 1),
        mk_call(OR_GATE, &["G2", "G1"], 2),
        mk_call(BASIC_EVENT, &["cm", "Lib.Cm", "G1"], 3),
    ])
    .chains("d.puml");

    assert!(chains.is_empty());
}

#[test]
fn missing_argument_is_an_error() {
    let file = ProcedureFile {
        stmts: vec![mk_call(TOP_EVENT, &["only name"], 1)],
    };
    let err = FtaModel::from_procedure_file(&file).unwrap_err();
    assert!(matches!(err, FtaError::MissingArgs { .. }));
}

#[test]
fn non_string_argument_is_an_error() {
    let file = ProcedureFile {
        stmts: vec![Statement::MacroCall(MacroCallDef {
            name: TOP_EVENT.to_string(),
            args: vec![Arg::Number(1), Arg::String("Lib.Fm".to_string())],
            line: Some(1),
        })],
    };
    let err = FtaModel::from_procedure_file(&file).unwrap_err();
    assert!(matches!(err, FtaError::NonStringArg { index: 0, .. }));
}

#[test]
fn duplicate_alias_last_write_wins_and_basic_event_is_attributed_correctly() {
    // Two top events share the same alias; only the second should be
    // reachable via `alias_index`, and the basic event must end up in the
    // chain for the winning (second) entry.
    let chains = model_from_stmts(vec![
        mk_call(TOP_EVENT, &["FM first", "Lib.Fm"], 1),
        mk_call(TOP_EVENT, &["FM second", "Lib.Fm"], 2),
        mk_call(OR_GATE, &["OG", "Lib.Fm"], 3),
        mk_call(BASIC_EVENT, &["cm", "Lib.Cm", "OG"], 4),
    ])
    .chains("d.puml");
    // Two chain entries (one per TopEvent node), but the basic event
    // connects through OG → Lib.Fm which resolves to the last-write node.
    assert_eq!(chains.len(), 2);
    let with_cm: Vec<_> = chains
        .iter()
        .filter(|c| !c.control_measures.is_empty())
        .collect();
    assert_eq!(with_cm.len(), 1);
    assert_eq!(with_cm[0].control_measures, vec!["Lib.Cm"]);
}

#[test]
fn sample_tree_groups_basic_events_under_failure_mode_in_order() {
    let model = model_from_stmts(vec![
        mk_call(TOP_EVENT, &["SampleFailureMode takes over the world", "SampleLibrary.SampleFailureMode"], 1),
        mk_call(OR_GATE, &["OG1", "SampleLibrary.SampleFailureMode"], 2),
        mk_call(INTERMEDIATE_EVENT, &["SampleFailureMode is Angry", "IEF", "OG1"], 3),
        mk_call(BASIC_EVENT, &["Just bad luck", "SampleLibrary.JustBadLuck", "OG1"], 4),
        mk_call(AND_GATE, &["AG2", "IEF"], 5),
        mk_call(BASIC_EVENT, &["No More Cookies", "SampleLibrary.NoMoreCookies", "AG2"], 6),
        mk_call(BASIC_EVENT, &["No More Coffee", "SampleLibrary.NoMoreCoffee", "AG2"], 7),
    ]);
    assert_eq!(model.nodes.len(), 7);
    let chains = model.chains("sample_fta.puml");
    assert_eq!(chains.len(), 1);
    let chain = &chains[0];
    assert_eq!(chain.fm_fqn, "SampleLibrary.SampleFailureMode");
    assert_eq!(chain.fm_name, "SampleFailureMode takes over the world");
    assert_eq!(chain.puml, "sample_fta.puml");
    assert_eq!(
        chain.control_measures,
        vec![
            "SampleLibrary.JustBadLuck",
            "SampleLibrary.NoMoreCookies",
            "SampleLibrary.NoMoreCoffee",
        ]
    );
}

#[test]
fn unknown_macros_and_text_are_not_topology() {
    let model = model_from_stmts(vec![
        mk_call("$Cosmetic", &[], 1),
        Statement::Text("title x".to_string()),
        mk_call(TOP_EVENT, &["FM", "Lib.Fm"], 2),
    ]);
    assert_eq!(model.nodes.len(), 1);
    assert_eq!(model.nodes[0].line, Some(2));
    assert_eq!(model.nodes[0].connection, None);
    let err = FtaModel::from_procedure_file(&ProcedureFile {
        stmts: vec![mk_call(BASIC_EVENT, &["cm", "Lib.Cm"], 1)],
    })
    .unwrap_err();
    assert_eq!(
        err,
        FtaError::MissingArgs { macro_name: BASIC_EVENT.to_string(), expected: 3 }
    );
}

fn proc_def(name: &str, params: &[&str], shape: &str, label: &str) -> Statement {
    let mut parts = vec![TextPart::Literal(format!("{shape} \""))];
    if label.is_empty() {
        parts.push(TextPart::Literal(" ".to_string()));
    } else {
        parts.push(TextPart::Variable(label.to_string()));
    }
    parts.push(TextPart::Literal("\" as ".to_string()));
    parts.push(TextPart::Variable("$alias".to_string()));
    Statement::Procedure(ProcedureDef {
        name: name.to_string(),
        params: params.iter().map(|p| p.to_string()).collect(),
        body: vec![BodyNode::Text(parts)],
    })
}

/// The parsed form of the sample fault tree: its procedure definitions,
/// then its macro calls.
fn sample_model() -> FtaModel {
    model_from_stmts(vec![
        proc_def(TOP_EVENT, &["$name", "$alias"], "rectangle", "$name"),
        proc_def(INTERMEDIATE_EVENT, &["$name", "$alias", "$connection"], "rectangle", "$name"),
        proc_def(BASIC_EVENT, &["$name", "$alias", "$connection"], "usecase", "$name"),
        proc_def(OR_GATE, &["$alias", "$connection"], "rectangle", ""),
        proc_def(AND_GATE, &["$alias", "$connection"], "rectangle", ""),
        mk_call(TOP_EVENT, &["SampleFailureMode takes over the world", "SampleLibrary.SampleFailureMode"], 17),
        mk_call(OR_GATE, &["OG1", "SampleLibrary.SampleFailureMode"], 18),
        mk_call(INTERMEDIATE_EVENT, &["SampleFailureMode is Angry", "IEF", "OG1"], 19),
        mk_call(BASIC_EVENT, &["Just bad luck", "SampleLibrary.JustBadLuck", "OG1"], 20),
        mk_call(AND_GATE, &["AG2", "IEF"], 21),
        mk_call(BASIC_EVENT, &["No More Cookies", "SampleLibrary.NoMoreCookies", "AG2"], 22),
        mk_call(BASIC_EVENT, &["No More Coffee", "SampleLibrary.NoMoreCoffee", "AG2"], 23),
    ])
}

#[test]
fn builds_all_topology_nodes() {
    let model = sample_model();
    assert_eq!(model.iter_kind(NodeKind::TopEvent).len(), 1);
    assert_eq!(model.iter_kind(NodeKind::BasicEvent).len(), 3);
    assert_eq!(model.iter_kind(NodeKind::Gate).len(), 2);
    assert_eq!(model.iter_kind(NodeKind::IntermediateEvent).len(), 1);
}

#[test]
fn chain_groups_basic_events_under_failure_mode() {
    let model = sample_model();
    let chains = model.chains("sample_fta.puml");
    assert_eq!(chains.len(), 1);
    let chain = &chains[0];
    assert_eq!(chain.fm_fqn, "SampleLibrary.SampleFailureMode");
    assert_eq!(chain.puml, "sample_fta.puml");
    assert_eq!(
        chain.control_measures,
        vec![
            "SampleLibrary.JustBadLuck",
            "SampleLibrary.NoMoreCookies",
            "SampleLibrary.NoMoreCoffee",
        ]
    );
}

#[test]
fn lobster_items_match_legacy_schema() {
    let model = sample_model();
    let doc = lobster_document(model.lobster_items("sample_fta.puml"));
    assert_eq!(doc.schema, "lobster-act-trace");
    assert_eq!(doc.version, 3);
    let data = &doc.data;
    // 1 top event + 3 basic events.
    assert_eq!(data.len(), 4);
    let top = data.iter().find(|i| i.name == "SampleLibrary.SampleFailureMode").unwrap();
    assert_eq!(top.tag, "fta SampleLibrary.SampleFailureMode");
    assert_eq!(top.refs[0], "req SampleLibrary.SampleFailureMode");
    assert_eq!(top.kind, "TopEvent");
    assert_eq!(top.framework.as_deref(), Some("PlantUML"));
}

#[test]
fn lobster_document_sorted_by_tag() {
    let doc = lobster_document(
        model_from_stmts(vec![
            mk_call(TOP_EVENT, &["FM", "Lib.Zeta"], 1),
            mk_call(OR_GATE, &["OG", "Lib.Zeta"], 2),
            mk_call(BASIC_EVENT, &["cm", "Lib.Alpha", "OG"], 3),
        ])
        .lobster_items("d.puml"),
    );
    let data = &doc.data;
    let tags: Vec<&str> = data.iter().map(|i| i.tag.as_str()).collect();
    let mut expected = tags.clone();
    expected.sort_unstable();
    assert_eq!(tags, expected);
    assert_eq!(data[0].name, "Lib.Alpha");
}

#[test]
fn lobster_items_carry_source_line() {
    let items = model_from_stmts(vec![mk_call(TOP_EVENT, &["FM", "Lib.Fm"], 7)]).lobster_items("d.puml");
    assert_eq!(items[0].line, Some(7));
}

#[test]
fn lobster_items_skip_gates_and_intermediate_events() {
    let items = sample_model().lobster_items("sample_fta.puml");
    let names: Vec<&str> = items.iter().map(|i| i.name.as_str()).collect();
    assert_eq!(
        names,
        vec![
            "SampleLibrary.SampleFailureMode",
            "SampleLibrary.JustBadLuck",
            "SampleLibrary.NoMoreCookies",
            "SampleLibrary.NoMoreCoffee",
        ]
    );
    assert!(items.iter().all(|i| i.file == "sample_fta.puml" && i.language.is_none()));
    assert_eq!(items[1].kind, "BasicEvent");
    assert_eq!(items[1].refs, vec!["req SampleLibrary.JustBadLuck".to_string()]);
    assert_eq!(items[1].line, Some(20));
}

#[test]
fn basic_event_goes_to_the_chain_of_the_later_duplicate_top_event() {
    let chains = model_from_stmts(vec![
        mk_call(TOP_EVENT, &["FM first", "Lib.Fm"], 1),
        mk_call(TOP_EVENT, &["FM second", "Lib.Fm"], 2),
        mk_call(OR_GATE, &["OG", "Lib.Fm"], 3),
        mk_call(BASIC_EVENT, &["cm", "Lib.Cm", "OG"], 4),
    ])
    .chains("d.puml");
    assert_eq!(chains.len(), 2);
    assert_eq!(chains[0].fm_name, "FM first");
    assert!(chains[0].control_measures.is_empty());
    assert_eq!(chains[1].fm_name, "FM second");
    assert_eq!(chains[1].control_measures, vec!["Lib.Cm"]);
}

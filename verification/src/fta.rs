//! Fault tree analysis (FTA) diagrams: the node model built from the macro
//! calls of a procedure file, and the failure-mode chains derived from it.
use vstd::prelude::*;
use crate::preprocessor::procedure_ast::{Arg, MacroCallDef, ProcedureFile, Statement};
use crate::text::{chars_of, is_literal, split_on, split_chars, char_views, concat_text, views};
use crate::lobster::{LobsterItem, LobsterDocument, ItemView, DocView, item_views, sorted_by_tag, sort_items_by_tag};

verus! {

/// The role of a node in the fault tree.
#[derive(Debug, Clone, Copy, PartialEq, Eq, Structural)]
pub enum NodeKind {
    /// `$TopEvent` — the failure mode at the root of the tree.
    TopEvent,
    /// `$IntermediateEvent` — a named intermediate node.
    IntermediateEvent,
    /// `$BasicEvent` — a leaf root cause / control measure.
    BasicEvent,
    /// `$AndGate`, `$OrGate`, `$TransferInGate` — a logic gate.
    Gate,
}

/// The three kinds of gate.
#[derive(Debug, Clone, Copy, PartialEq, Eq, Structural)]
pub enum GateKind {
    And,
    Or,
    TransferIn,
}

/// One node of the fault tree.
#[derive(Debug, Clone, PartialEq)]
pub struct FtaNode {
    pub kind: NodeKind,
    /// Human readable display name (events only; gates carry `None`).
    pub name: Option<String>,
    /// Alias / identifier.  For top and basic events this is the TRLC
    /// fully-qualified name of the corresponding record.
    pub alias: String,
    /// Alias of the parent node this node connects upward to.  `None` for the
    /// top event (the root).
    pub connection: Option<String>,
    /// Which kind of gate a gate node is; `None` for events.
    pub gate_kind: Option<GateKind>,
    /// 1-based line of the macro call in its source diagram, when known.
    pub line: Option<usize>,
}

/// The nodes of a fault tree, in diagram order.
#[derive(Debug, Clone, PartialEq)]
pub struct FtaModel {
    pub nodes: Vec<FtaNode>,
}

/// A failure mode with the control measures that lead up to it.
#[derive(Debug, Clone, PartialEq)]
pub struct FtaChain {
    /// Fully-qualified name of the failure mode (top event alias).
    pub fm_fqn: String,
    /// Human readable failure mode name.
    pub fm_name: String,
    /// Basename of the preprocessed `.puml` diagram to render inline.
    pub puml: String,
    /// Fully-qualified names of the control measures for this chain, in the
    /// order they appear in the diagram.
    pub control_measures: Vec<String>,
}

/// The content of a chain.
pub struct ChainView {
    pub fm_fqn: Seq<char>,
    pub fm_name: Seq<char>,
    pub puml: Seq<char>,
    pub control_measures: Seq<Seq<char>>,
}

/// The character views of a sequence of strings.
pub open spec fn string_views(v: Seq<String>) -> Seq<Seq<char>> {
    v.map_values(|s: String| s@)
}

impl View for FtaChain {
    type V = ChainView;

    open spec fn view(&self) -> ChainView {
        ChainView {
            fm_fqn: self.fm_fqn@,
            fm_name: self.fm_name@,
            puml: self.puml@,
            control_measures: string_views(self.control_measures@),
        }
    }
}

/// Why a macro call could not be turned into a node.
#[derive(Debug, Clone, PartialEq)]
pub enum FtaError {
    MissingArgs { macro_name: String, expected: usize },
    NonStringArg { macro_name: String, index: usize },
}

/// An identifier: a letter or `_`, then letters, digits or `_` (ASCII).
pub open spec fn is_identifier(p: Seq<char>) -> bool {
    &&& p.len() > 0
    &&& (('a' <= p[0] && p[0] <= 'z') || ('A' <= p[0] && p[0] <= 'Z') || p[0] == '_')
    &&& forall|i: int|
        1 <= i < p.len() ==> (('a' <= #[trigger] p[i] && p[i] <= 'z') || ('A' <= p[i] && p[i]
            <= 'Z') || ('0' <= p[i] && p[i] <= '9') || p[i] == '_')
}

/// A TRLC fully-qualified name: exactly two identifiers joined by one `.`.
pub open spec fn is_trlc_name(s: Seq<char>) -> bool {
    let parts = split_on(s, '.');
    parts.len() == 2 && is_identifier(parts[0]) && is_identifier(parts[1])
}

/// Whether `p` is an identifier.
fn check_identifier(p: &[char]) -> (r: bool)
    ensures
        r == is_identifier(p@),
{
    if p.len() == 0 {
        return false;
    }
    let c = p[0];
    if !(('a' <= c && c <= 'z') || ('A' <= c && c <= 'Z') || c == '_') {
        return false;
    }
    let mut i: usize = 1;
    while i < p.len()
        invariant
            1 <= i <= p@.len(),
            forall|k: int|
                1 <= k < i ==> (('a' <= #[trigger] p@[k] && p@[k] <= 'z') || ('A' <= p@[k] && p@[k]
                    <= 'Z') || ('0' <= p@[k] && p@[k] <= '9') || p@[k] == '_'),
        decreases p@.len() - i,
    {
        let d = p[i];
        if !(('a' <= d && d <= 'z') || ('A' <= d && d <= 'Z') || ('0' <= d && d <= '9') || d
            == '_') {
            return false;
        }
        i = i + 1;
    }
    true
}

/// Whether `alias` has the shape `Package.Record` of a TRLC fully-qualified name.
pub fn is_valid_trlc_fqn(alias: &str) -> (r: bool)
    ensures
        r == is_trlc_name(alias@),
{
    let v = chars_of(alias);
    let parts = split_chars(v.as_slice(), '.');
    proof {
        assert(char_views(parts@).len() == parts@.len());
    }
    if parts.len() != 2 {
        return false;
    }
    check_identifier(parts[0].as_slice()) && check_identifier(parts[1].as_slice())
}

/// The node kind a macro name stands for, if it is a topology macro.
pub open spec fn macro_kind(name: Seq<char>) -> Option<NodeKind> {
    if name == "$TopEvent"@ {
        Some(NodeKind::TopEvent)
    } else if name == "$IntermediateEvent"@ {
        Some(NodeKind::IntermediateEvent)
    } else if name == "$BasicEvent"@ {
        Some(NodeKind::BasicEvent)
    } else if name == "$AndGate"@ || name == "$OrGate"@ || name == "$TransferInGate"@ {
        Some(NodeKind::Gate)
    } else {
        None
    }
}

/// Which gate, if any, the call declares.
pub open spec fn gate_named(name: Seq<char>) -> Option<GateKind> {
    if name == "$AndGate"@ {
        Some(GateKind::And)
    } else if name == "$OrGate"@ {
        Some(GateKind::Or)
    } else if name == "$TransferInGate"@ {
        Some(GateKind::TransferIn)
    } else {
        None
    }
}

/// `$TopEvent`, `$IntermediateEvent` and `$BasicEvent` declare those events,
/// `$AndGate`, `$OrGate` and `$TransferInGate` gates; no other macro is topology.
pub proof fn lemma_fta_macro_kinds(t: Seq<char>)
    ensures
        macro_kind(t) == Some(NodeKind::TopEvent) <==> (t == "$TopEvent"@),
        macro_kind(t) == Some(NodeKind::IntermediateEvent) <==> (t == "$IntermediateEvent"@),
        macro_kind(t) == Some(NodeKind::BasicEvent) <==> (t == "$BasicEvent"@),
        macro_kind(t) == Some(NodeKind::Gate) <==> (t == "$AndGate"@ || t == "$OrGate"@ || t == "$TransferInGate"@),
        macro_kind(t) is None <==> !(t == "$TopEvent"@ || t == "$IntermediateEvent"@ || t == "$BasicEvent"@ || t == "$AndGate"@ || t == "$OrGate"@ || t == "$TransferInGate"@),
{
    reveal_strlit("$TopEvent");
    reveal_strlit("$IntermediateEvent");
    reveal_strlit("$BasicEvent");
    reveal_strlit("$AndGate");
    reveal_strlit("$OrGate");
    reveal_strlit("$TransferInGate");
    assert("$TopEvent"@ != "$IntermediateEvent"@) by {
        assert("$TopEvent"@.len() == 9 && "$IntermediateEvent"@.len() == 18);
    }
    assert("$TopEvent"@ != "$BasicEvent"@) by {
        assert("$TopEvent"@.len() == 9 && "$BasicEvent"@.len() == 11);
    }
    assert("$TopEvent"@ != "$AndGate"@) by {
        assert("$TopEvent"@.len() == 9 && "$AndGate"@.len() == 8);
    }
    assert("$TopEvent"@ != "$OrGate"@) by {
        assert("$TopEvent"@.len() == 9 && "$OrGate"@.len() == 7);
    }
    assert("$TopEvent"@ != "$TransferInGate"@) by {
        assert("$TopEvent"@.len() == 9 && "$TransferInGate"@.len() == 15);
    }
    assert("$IntermediateEvent"@ != "$BasicEvent"@) by {
        assert("$IntermediateEvent"@.len() == 18 && "$BasicEvent"@.len() == 11);
    }
    assert("$IntermediateEvent"@ != "$AndGate"@) by {
        assert("$IntermediateEvent"@.len() == 18 && "$AndGate"@.len() == 8);
    }
    assert("$IntermediateEvent"@ != "$OrGate"@) by {
        assert("$IntermediateEvent"@.len() == 18 && "$OrGate"@.len() == 7);
    }
    assert("$IntermediateEvent"@ != "$TransferInGate"@) by {
        assert("$IntermediateEvent"@.len() == 18 && "$TransferInGate"@.len() == 15);
    }
    assert("$BasicEvent"@ != "$AndGate"@) by {
        assert("$BasicEvent"@.len() == 11 && "$AndGate"@.len() == 8);
    }
    assert("$BasicEvent"@ != "$OrGate"@) by {
        assert("$BasicEvent"@.len() == 11 && "$OrGate"@.len() == 7);
    }
    assert("$BasicEvent"@ != "$TransferInGate"@) by {
        assert("$BasicEvent"@.len() == 11 && "$TransferInGate"@.len() == 15);
    }
    assert("$AndGate"@ != "$OrGate"@) by {
        assert("$AndGate"@.len() == 8 && "$OrGate"@.len() == 7);
    }
    assert("$AndGate"@ != "$TransferInGate"@) by {
        assert("$AndGate"@.len() == 8 && "$TransferInGate"@.len() == 15);
    }
    assert("$OrGate"@ != "$TransferInGate"@) by {
        assert("$OrGate"@.len() == 7 && "$TransferInGate"@.len() == 15);
    }
}

/// `$AndGate`, `$OrGate` and `$TransferInGate` declare the AND, OR and
/// transfer-in gates; no other macro declares a gate.
pub proof fn lemma_fta_gate_kinds(t: Seq<char>)
    ensures
        gate_named(t) == Some(GateKind::And) <==> (t == "$AndGate"@),
        gate_named(t) == Some(GateKind::Or) <==> (t == "$OrGate"@),
        gate_named(t) == Some(GateKind::TransferIn) <==> (t == "$TransferInGate"@),
        gate_named(t) is None <==> !(t == "$AndGate"@ || t == "$OrGate"@ || t == "$TransferInGate"@),
{
    reveal_strlit("$AndGate");
    reveal_strlit("$OrGate");
    reveal_strlit("$TransferInGate");
    assert("$AndGate"@ != "$OrGate"@) by {
        assert("$AndGate"@.len() == 8 && "$OrGate"@.len() == 7);
    }
    assert("$AndGate"@ != "$TransferInGate"@) by {
        assert("$AndGate"@.len() == 8 && "$TransferInGate"@.len() == 15);
    }
    assert("$OrGate"@ != "$TransferInGate"@) by {
        assert("$OrGate"@.len() == 7 && "$TransferInGate"@.len() == 15);
    }
}

/// The string argument at `index`, or why there is none.
pub open spec fn arg_result(call: MacroCallDef, index: int) -> Result<String, FtaError> {
    if index >= call.args@.len() {
        Err(FtaError::MissingArgs { macro_name: call.name, expected: (index + 1) as usize })
    } else {
        match call.args@[index] {
            Arg::String(s) => Ok(s),
            _ => Err(FtaError::NonStringArg { macro_name: call.name, index: index as usize }),
        }
    }
}

/// The node a topology call describes: events read name, alias (and the
/// connection, except for the top event); gates read alias and connection.
/// The arguments are read in that order and the first bad one is reported.
pub open spec fn call_node(call: MacroCallDef, kind: NodeKind) -> Result<FtaNode, FtaError> {
    if kind == NodeKind::Gate {
        match arg_result(call, 0) {
            Err(e) => Err(e),
            Ok(alias) => match arg_result(call, 1) {
                Err(e) => Err(e),
                Ok(conn) => Ok(
                    FtaNode {
                        kind,
                        name: None,
                        alias,
                        connection: Some(conn),
                        gate_kind: gate_named(call.name@),
                        line: call.line,
                    },
                ),
            },
        }
    } else {
        match arg_result(call, 0) {
            Err(e) => Err(e),
            Ok(name) => match arg_result(call, 1) {
                Err(e) => Err(e),
                Ok(alias) => if kind == NodeKind::TopEvent {
                    Ok(
                        FtaNode {
                            kind,
                            name: Some(name),
                            alias,
                            connection: None,
                            gate_kind: None,
                            line: call.line,
                        },
                    )
                } else {
                    match arg_result(call, 2) {
                        Err(e) => Err(e),
                        Ok(conn) => Ok(
                            FtaNode {
                                kind,
                                name: Some(name),
                                alias,
                                connection: Some(conn),
                                gate_kind: None,
                                line: call.line,
                            },
                        ),
                    }
                },
            },
        }
    }
}

/// The nodes described by `stmts`, or the first error; procedure definitions,
/// text and unknown macros are skipped.
pub open spec fn model_nodes(stmts: Seq<Statement>) -> Result<Seq<FtaNode>, FtaError>
    decreases stmts.len(),
{
    if stmts.len() == 0 {
        Ok(Seq::empty())
    } else {
        match model_nodes(stmts.drop_last()) {
            Err(e) => Err(e),
            Ok(ns) => match stmts.last() {
                Statement::MacroCall(call) => match macro_kind(call.name@) {
                    Some(kind) => match call_node(call, kind) {
                        Err(e) => Err(e),
                        Ok(node) => Ok(ns.push(node)),
                    },
                    None => Ok(ns),
                },
                _ => Ok(ns),
            },
        }
    }
}

/// Once building fails on a prefix, it fails with that error on the whole.
proof fn lemma_model_error_sticks(stmts: Seq<Statement>, k: int)
    requires
        0 <= k <= stmts.len(),
        model_nodes(stmts.subrange(0, k)) is Err,
    ensures
        model_nodes(stmts) == model_nodes(stmts.subrange(0, k)),
    decreases stmts.len(),
{
    if stmts.len() > k {
        assert(stmts.drop_last().subrange(0, k) == stmts.subrange(0, k));
        lemma_model_error_sticks(stmts.drop_last(), k);
    } else {
        assert(stmts.subrange(0, k) == stmts);
    }
}

/// The string argument at `index` of `call`.
fn string_arg(call: &MacroCallDef, index: usize) -> (r: Result<String, FtaError>)
    requires
        index < 3,
    ensures
        r == arg_result(*call, index as int),
{
    if index >= call.args.len() {
        return Err(FtaError::MissingArgs { macro_name: call.name.clone(), expected: index + 1 });
    }
    match &call.args[index] {
        Arg::String(s) => Ok(s.clone()),
        _ => Err(FtaError::NonStringArg { macro_name: call.name.clone(), index }),
    }
}

/// The node kind of a macro name (see `macro_kind`).
fn kind_of_macro(name: &String) -> (r: Option<NodeKind>)
    ensures
        r == macro_kind(name@),
{
    let v = chars_of(name.as_str());
    let s = v.as_slice();
    if is_literal(s, "$TopEvent") {
        Some(NodeKind::TopEvent)
    } else if is_literal(s, "$IntermediateEvent") {
        Some(NodeKind::IntermediateEvent)
    } else if is_literal(s, "$BasicEvent") {
        Some(NodeKind::BasicEvent)
    } else if is_literal(s, "$AndGate") || is_literal(s, "$OrGate") || is_literal(
        s,
        "$TransferInGate",
    ) {
        Some(NodeKind::Gate)
    } else {
        None
    }
}

/// Which gate, if any, the call declares (see `gate_named`).
fn gate_of_call(name: &String) -> (r: Option<GateKind>)
    ensures
        r == gate_named(name@),
{
    let v = chars_of(name.as_str());
    let s = v.as_slice();
    if is_literal(s, "$AndGate") {
        Some(GateKind::And)
    } else if is_literal(s, "$OrGate") {
        Some(GateKind::Or)
    } else if is_literal(s, "$TransferInGate") {
        Some(GateKind::TransferIn)
    } else {
        None
    }
}

/// The node of a topology call (see `call_node`).
fn build_node(call: &MacroCallDef, kind: NodeKind) -> (r: Result<FtaNode, FtaError>)
    ensures
        r == call_node(*call, kind),
{
    if kind == NodeKind::Gate {
        let alias = match string_arg(call, 0) {
            Ok(a) => a,
            Err(e) => return Err(e),
        };
        let conn = match string_arg(call, 1) {
            Ok(c) => c,
            Err(e) => return Err(e),
        };
        Ok(
            FtaNode {
                kind,
                name: None,
                alias,
                connection: Some(conn),
                gate_kind: gate_of_call(&call.name),
                line: call.line,
            },
        )
    } else {
        let name = match string_arg(call, 0) {
            Ok(a) => a,
            Err(e) => return Err(e),
        };
        let alias = match string_arg(call, 1) {
            Ok(a) => a,
            Err(e) => return Err(e),
        };
        if kind == NodeKind::TopEvent {
            Ok(
                FtaNode {
                    kind,
                    name: Some(name),
                    alias,
                    connection: None,
                    gate_kind: None,
                    line: call.line,
                },
            )
        } else {
            let conn = match string_arg(call, 2) {
                Ok(c) => c,
                Err(e) => return Err(e),
            };
            Ok(
                FtaNode {
                    kind,
                    name: Some(name),
                    alias,
                    connection: Some(conn),
                    gate_kind: None,
                    line: call.line,
                },
            )
        }
    }
}

impl FtaModel {
    /// Builds a model from a parsed procedure file, ignoring procedure
    /// definitions and plain text — only the macro *calls* describe topology.
    pub fn from_procedure_file(file: &ProcedureFile) -> (r: Result<FtaModel, FtaError>)
        ensures
            match model_nodes(file.stmts@) {
                Ok(ns) => r matches Ok(m) && m.nodes@ == ns,
                Err(e) => r == Err::<FtaModel, FtaError>(e),
            },
    {
        let mut nodes: Vec<FtaNode> = Vec::new();
        let mut k: usize = 0;
        while k < file.stmts.len()
            invariant
                k <= file.stmts@.len(),
                model_nodes(file.stmts@.subrange(0, k as int)) == Ok::<Seq<FtaNode>, FtaError>(
                    nodes@,
                ),
            decreases file.stmts@.len() - k,
        {
            proof {
                assert(file.stmts@.subrange(0, k + 1).drop_last() == file.stmts@.subrange(
                    0,
                    k as int,
                ));
            }
            match &file.stmts[k] {
                Statement::MacroCall(call) => {
                    match kind_of_macro(&call.name) {
                        Some(kind) => {
                            match build_node(call, kind) {
                                Ok(node) => {
                                    nodes.push(node);
                                },
                                Err(e) => {
                                    proof {
                                        lemma_model_error_sticks(file.stmts@, k + 1);
                                        assert(file.stmts@.subrange(0, file.stmts@.len() as int)
                                            == file.stmts@);
                                    }
                                    return Err(e);
                                },
                            }
                        },
                        None => {},
                    }
                },
                _ => {},
            }
            k = k + 1;
        }
        assert(file.stmts@.subrange(0, file.stmts@.len() as int) == file.stmts@);
        Ok(FtaModel { nodes })
    }
}

/// The nodes of `nodes` of kind `kind`, in order.
pub open spec fn nodes_of_kind(nodes: Seq<FtaNode>, kind: NodeKind) -> Seq<FtaNode>
    decreases nodes.len(),
{
    if nodes.len() == 0 {
        Seq::empty()
    } else {
        let prev = nodes_of_kind(nodes.drop_last(), kind);
        if nodes.last().kind == kind {
            prev.push(nodes.last())
        } else {
            prev
        }
    }
}

impl FtaModel {
    /// The nodes of one kind, in diagram order.
    pub fn iter_kind(&self, kind: NodeKind) -> (r: Vec<&FtaNode>)
        ensures
            r@.len() == nodes_of_kind(self.nodes@, kind).len(),
            forall|i: int| 0 <= i < r@.len() ==> *#[trigger] r@[i] == nodes_of_kind(self.nodes@, kind)[i],
    {
        let mut r: Vec<&FtaNode> = Vec::new();
        let mut k: usize = 0;
        while k < self.nodes.len()
            invariant
                k <= self.nodes@.len(),
                r@.len() == nodes_of_kind(self.nodes@.subrange(0, k as int), kind).len(),
                forall|i: int| 0 <= i < r@.len() ==> *#[trigger] r@[i] == nodes_of_kind(self.nodes@.subrange(0, k as int), kind)[i],
            decreases self.nodes@.len() - k,
        {
            proof {
                let s = self.nodes@.subrange(0, k + 1);
                assert(s.drop_last() == self.nodes@.subrange(0, k as int));
                assert(s.last() == self.nodes@[k as int]);
            }
            if self.nodes[k].kind == kind {
                r.push(&self.nodes[k]);
            }
            k = k + 1;
        }
        assert(self.nodes@.subrange(0, self.nodes@.len() as int) == self.nodes@);
        r
    }
}

/// The index of the last node with alias `a` (a later definition wins).
pub open spec fn last_with_alias(nodes: Seq<FtaNode>, a: Seq<char>) -> Option<int>
    decreases nodes.len(),
{
    if nodes.len() == 0 {
        None
    } else if nodes.last().alias@ == a {
        Some(nodes.len() - 1)
    } else {
        last_with_alias(nodes.drop_last(), a)
    }
}

/// A found index is a position of the sequence holding that alias.
proof fn lemma_last_with_alias_bound(nodes: Seq<FtaNode>, a: Seq<char>)
    ensures
        last_with_alias(nodes, a) matches Some(j) ==> 0 <= j < nodes.len() && nodes[j].alias@ == a,
    decreases nodes.len(),
{
    if nodes.len() > 0 {
        lemma_last_with_alias_bound(nodes.drop_last(), a);
    }
}

/// Whether `idx` lists, in order, the positions in `nodes` of the nodes `ts`.
pub open spec fn indexes_of(nodes: Seq<FtaNode>, idx: Seq<usize>, ts: Seq<FtaNode>) -> bool {
    &&& idx.len() == ts.len()
    &&& forall|t: int|
        #![trigger idx[t]]
        0 <= t < idx.len() ==> idx[t] < nodes.len() && nodes[idx[t] as int] == ts[t]
}

/// Whether `dest` records, for each node, the chain it goes to.
pub open spec fn dests_of(nodes: Seq<FtaNode>, dest: Seq<Option<usize>>) -> bool {
    forall|m: int|
        0 <= m < dest.len() ==> match #[trigger] dest[m] {
            Some(c) => chain_of(nodes, nodes[m]) == Some(c as int),
            None => chain_of(nodes, nodes[m]) is None,
        }
}

/// Walks from `cur` along the connection links for at most `fuel` nodes and
/// yields the alias of the top event reached, if any.
pub open spec fn walk_to_top(nodes: Seq<FtaNode>, cur: FtaNode, fuel: nat) -> Option<Seq<char>>
    decreases fuel,
{
    if fuel == 0 {
        None
    } else if cur.kind == NodeKind::TopEvent {
        Some(cur.alias@)
    } else {
        match cur.connection {
            None => None,
            Some(p) => match last_with_alias(nodes, p@) {
                None => None,
                Some(j) => walk_to_top(nodes, nodes[j], (fuel - 1) as nat),
            },
        }
    }
}

/// The failure mode a node ultimately connects to: the walk visits at most
/// one more node than the tree has, so cyclic or dangling links give `None`.
pub open spec fn root_of(nodes: Seq<FtaNode>, start: FtaNode) -> Option<Seq<char>> {
    walk_to_top(nodes, start, nodes.len() + 1)
}

/// The top events, in order.
pub open spec fn tops(nodes: Seq<FtaNode>) -> Seq<FtaNode>
    decreases nodes.len(),
{
    if nodes.len() == 0 {
        Seq::empty()
    } else if nodes.last().kind == NodeKind::TopEvent {
        tops(nodes.drop_last()).push(nodes.last())
    } else {
        tops(nodes.drop_last())
    }
}

/// The chain a node contributes to: basic events go to the chain of the top
/// event they connect to, which is the last top event with that failure mode's
/// alias (a later definition wins); other nodes go nowhere.
pub open spec fn chain_of(nodes: Seq<FtaNode>, b: FtaNode) -> Option<int> {
    if b.kind == NodeKind::BasicEvent {
        match root_of(nodes, b) {
            Some(r) => last_with_alias(tops(nodes), r),
            None => None,
        }
    } else {
        None
    }
}

/// The aliases of the nodes among the first `k` that go to chain `i`, in order.
pub open spec fn measures_upto(nodes: Seq<FtaNode>, k: int, i: int) -> Seq<Seq<char>>
    decreases k,
{
    if k <= 0 {
        Seq::empty()
    } else if chain_of(nodes, nodes[k - 1]) == Some(i) {
        measures_upto(nodes, k - 1, i).push(nodes[k - 1].alias@)
    } else {
        measures_upto(nodes, k - 1, i)
    }
}

/// Whether `a` is the alias of a basic event whose connections lead up to
/// the failure mode `fm`.
pub open spec fn reaches_failure_mode(nodes: Seq<FtaNode>, a: Seq<char>, fm: Seq<char>) -> bool {
    exists|j: int|
        0 <= j < nodes.len() && (#[trigger] nodes[j]).kind == NodeKind::BasicEvent && nodes[j].alias@ == a
            && root_of(nodes, nodes[j]) == Some(fm)
}

/// Every control measure of chain `i` (among the first `k` nodes) is the
/// alias of a basic event whose connections lead up to the chain's failure
/// mode.
pub proof fn lemma_chain_measures_reach_failure_mode(nodes: Seq<FtaNode>, i: int, k: int)
    requires
        0 <= i < tops(nodes).len(),
        0 <= k <= nodes.len(),
    ensures
        forall|m: int|
            0 <= m < measures_upto(nodes, k, i).len() ==> reaches_failure_mode(
                nodes,
                #[trigger] measures_upto(nodes, k, i)[m],
                tops(nodes)[i].alias@,
            ),
    decreases k,
{
    if k > 0 {
        lemma_chain_measures_reach_failure_mode(nodes, i, k - 1);
        let prev = measures_upto(nodes, k - 1, i);
        let cur = measures_upto(nodes, k, i);
        let b = nodes[k - 1];
        let fm = tops(nodes)[i].alias@;
        if chain_of(nodes, b) == Some(i) {
            let r = root_of(nodes, b)->Some_0;
            lemma_last_with_alias_bound(tops(nodes), r);
            assert(cur == prev.push(b.alias@));
            assert forall|m: int| 0 <= m < cur.len() implies reaches_failure_mode(nodes, #[trigger] cur[m], fm) by {
                if m < prev.len() {
                    assert(cur[m] == prev[m]);
                } else {
                    assert(nodes[k - 1].alias@ == cur[m]);
                    assert(b.kind == NodeKind::BasicEvent);
                    assert(root_of(nodes, nodes[k - 1]) == Some(fm));
                }
            }
        } else {
            assert(cur == prev);
        }
    }
}

/// The display name of a failure mode: its name, else its alias.
pub open spec fn name_or_alias(n: FtaNode) -> Seq<char> {
    match n.name {
        Some(s) => s@,
        None => n.alias@,
    }
}

/// The `i`-th chain of the model for diagram `puml`.
pub open spec fn chain_spec(nodes: Seq<FtaNode>, puml: Seq<char>, i: int) -> ChainView {
    ChainView {
        fm_fqn: tops(nodes)[i].alias@,
        fm_name: name_or_alias(tops(nodes)[i]),
        puml,
        control_measures: measures_upto(nodes, nodes.len() as int, i),
    }
}

/// `tops` over a prefix grows by the next node exactly when it is a top event.
proof fn lemma_tops_step(nodes: Seq<FtaNode>, k: int)
    requires
        0 <= k < nodes.len(),
    ensures
        tops(nodes.subrange(0, k + 1)) == (if nodes[k].kind == NodeKind::TopEvent {
            tops(nodes.subrange(0, k)).push(nodes[k])
        } else {
            tops(nodes.subrange(0, k))
        }),
{
    assert(nodes.subrange(0, k + 1).drop_last() == nodes.subrange(0, k));
}

impl FtaModel {
    /// The index of the last node whose alias is `alias`.
    fn find_alias(&self, alias: &String) -> (r: Option<usize>)
        ensures
            match r {
                Some(j) => last_with_alias(self.nodes@, alias@) == Some(j as int),
                None => last_with_alias(self.nodes@, alias@) is None,
            },
    {
        let mut j = self.nodes.len();
        assert(self.nodes@.subrange(0, j as int) == self.nodes@);
        while j > 0
            invariant
                j <= self.nodes@.len(),
                last_with_alias(self.nodes@, alias@) == last_with_alias(
                    self.nodes@.subrange(0, j as int),
                    alias@,
                ),
            decreases j,
        {
            let ghost pre = self.nodes@.subrange(0, j as int);
            assert(pre.drop_last() == self.nodes@.subrange(0, j - 1));
            if self.nodes[j - 1].alias == *alias {
                return Some(j - 1);
            }
            j = j - 1;
        }
        None
    }

    /// Resolves the failure mode the node at `start` connects to (see `root_of`).
    fn root_for(&self, start: usize) -> (r: Option<String>)
        requires
            start < self.nodes@.len(),
        ensures
            match r {
                Some(s) => root_of(self.nodes@, self.nodes@[start as int]) == Some(s@),
                None => root_of(self.nodes@, self.nodes@[start as int]) is None,
            },
    {
        let n = self.nodes.len();
        let mut cur = start;
        let mut k: usize = 0;
        loop
            invariant
                k <= n == self.nodes@.len(),
                cur < n,
                root_of(self.nodes@, self.nodes@[start as int]) == walk_to_top(
                    self.nodes@,
                    self.nodes@[cur as int],
                    (n + 1 - k) as nat,
                ),
            decreases n - k,
        {
            let node = &self.nodes[cur];
            if node.kind == NodeKind::TopEvent {
                return Some(node.alias.clone());
            }
            match &node.connection {
                None => {
                    return None;
                },
                Some(p) => match self.find_alias(p) {
                    None => {
                        return None;
                    },
                    Some(j) => {
                        proof {
                            lemma_last_with_alias_bound(self.nodes@, p@);
                            if k == n {
                                assert(walk_to_top(self.nodes@, self.nodes@[j as int], 0) is None);
                            }
                        }
                        if k == n {
                            return None;
                        }
                        cur = j;
                    },
                },
            }
            k = k + 1;
        }
    }

    /// Assembles the failure-mode chains for diagram `puml_basename`: one per
    /// top event, in diagram order, each listing the basic events that
    /// connect up to it.  A basic event that reaches no top event (dangling or
    /// cyclic links) is in no chain.
    pub fn chains(&self, puml_basename: &str) -> (r: Vec<FtaChain>)
        ensures
            r@.len() == tops(self.nodes@).len(),
            forall|i: int|
                0 <= i < r@.len() ==> #[trigger] r@[i]@ == chain_spec(self.nodes@, puml_basename@, i),
    {
        let n = self.nodes.len();
        let ghost nodes = self.nodes@;
        // the top events, by node index
        let mut top_idx: Vec<usize> = Vec::new();
        let mut k: usize = 0;
        while k < n
            invariant
                k <= n == nodes.len(),
                nodes == self.nodes@,
                indexes_of(nodes, top_idx@, tops(nodes.subrange(0, k as int))),
            decreases n - k,
        {
            proof {
                lemma_tops_step(nodes, k as int);
            }
            let ghost before = top_idx@;
            if self.nodes[k].kind == NodeKind::TopEvent {
                top_idx.push(k);
                proof {
                    let ts = tops(nodes.subrange(0, k + 1));
                    let ts0 = tops(nodes.subrange(0, k as int));
                    assert(ts == ts0.push(nodes[k as int]));
                    assert forall|t: int| #![trigger top_idx@[t]] 0 <= t < top_idx@.len() implies top_idx@[t]
                        < nodes.len() && nodes[top_idx@[t] as int] == ts[t] by {
                        if t < before.len() {
                            assert(top_idx@[t] == before[t]);
                            assert(nodes[before[t] as int] == ts0[t]);
                        } else {
                            assert(top_idx@[t] == k);
                        }
                    }
                }
            }
            k = k + 1;
        }
        assert(nodes.subrange(0, n as int) == nodes);
        // the chain each node goes to
        let mut dest: Vec<Option<usize>> = Vec::new();
        let mut k: usize = 0;
        while k < n
            invariant
                k <= n == nodes.len(),
                nodes == self.nodes@,
                indexes_of(nodes, top_idx@, tops(nodes)),
                dest@.len() == k,
                dests_of(nodes, dest@),
            decreases n - k,
        {
            let mut d: Option<usize> = None;
            if self.nodes[k].kind == NodeKind::BasicEvent {
                match self.root_for(k) {
                    None => {},
                    Some(root) => {
                        let mut t: usize = top_idx.len();
                        assert(tops(nodes).subrange(0, top_idx@.len() as int) == tops(nodes));
                        while t > 0
                            invariant_except_break
                                d is None,
                                last_with_alias(tops(nodes).subrange(0, t as int), root@) == last_with_alias(
                                    tops(nodes),
                                    root@,
                                ),
                            invariant
                                t <= top_idx@.len(),
                                nodes == self.nodes@,
                                indexes_of(nodes, top_idx@, tops(nodes)),
                            ensures
                                match d {
                                    Some(c) => last_with_alias(tops(nodes), root@) == Some(c as int),
                                    None => last_with_alias(tops(nodes), root@) is None,
                                },
                            decreases t,
                        {
                            let u = t - 1;
                            proof {
                                assert(tops(nodes).subrange(0, t as int).drop_last() == tops(
                                    nodes,
                                ).subrange(0, u as int));
                                assert(tops(nodes).subrange(0, t as int).last() == tops(nodes)[u as int]);
                            }
                            assert(top_idx@[u as int] < nodes.len());
                            if self.nodes[top_idx[u]].alias == root {
                                d = Some(u);
                                break;
                            }
                            t = u;
                        }
                    },
                }
            }
            let ghost before = dest@;
            dest.push(d);
            proof {
                assert forall|m: int| 0 <= m < dest@.len() implies match #[trigger] dest@[m] {
                    Some(c) => chain_of(nodes, nodes[m]) == Some(c as int),
                    None => chain_of(nodes, nodes[m]) is None,
                } by {
                    if m < before.len() {
                        assert(dest@[m] == before[m]);
                    }
                }
            }
            k = k + 1;
        }
        // assemble the chains
        let mut out: Vec<FtaChain> = Vec::new();
        let mut t: usize = 0;
        while t < top_idx.len()
            invariant
                t <= top_idx@.len() == tops(nodes).len(),
                nodes == self.nodes@,
                n == nodes.len(),
                indexes_of(nodes, top_idx@, tops(nodes)),
                dest@.len() == n,
                dests_of(nodes, dest@),
                out@.len() == t,
                forall|i: int| 0 <= i < t ==> #[trigger] out@[i]@ == chain_spec(nodes, puml_basename@, i),
            decreases top_idx@.len() - t,
        {
            assert(top_idx@[t as int] < nodes.len());
            let top = &self.nodes[top_idx[t]];
            let mut cms: Vec<String> = Vec::new();
            let mut m: usize = 0;
            while m < n
                invariant
                    m <= n == nodes.len(),
                    nodes == self.nodes@,
                    dest@.len() == n,
                    t < tops(nodes).len(),
                    dests_of(nodes, dest@),
                    string_views(cms@) == measures_upto(nodes, m as int, t as int),
                decreases n - m,
            {
                if dest[m] == Some(t) {
                    let ghost before = cms@;
                    cms.push(self.nodes[m].alias.clone());
                    assert(string_views(cms@) == string_views(before).push(nodes[m as int].alias@));
                }
                m = m + 1;
            }
            let fm_name = match &top.name {
                Some(nm) => nm.clone(),
                None => top.alias.clone(),
            };
            let chain = FtaChain {
                fm_fqn: top.alias.clone(),
                fm_name,
                puml: puml_basename.to_owned(),
                control_measures: cms,
            };
            out.push(chain);
            t = t + 1;
        }
        out
    }
}

/// The trace item of a top or basic event of `file`: tagged `fta <alias>`,
/// referring to `req <alias>`.
pub open spec fn fta_item(n: FtaNode, file: Seq<char>) -> ItemView {
    ItemView {
        tag: "fta "@ + n.alias@,
        file,
        line: n.line,
        name: n.alias@,
        refs: seq!["req "@ + n.alias@],
        framework: Some("PlantUML"@),
        language: None,
        kind: if n.kind == NodeKind::TopEvent { "TopEvent"@ } else { "BasicEvent"@ },
    }
}

/// The trace items of the top and basic events among `nodes`, in order.
pub open spec fn fta_items(nodes: Seq<FtaNode>, file: Seq<char>) -> Seq<ItemView>
    decreases nodes.len(),
{
    if nodes.len() == 0 {
        Seq::empty()
    } else {
        let prev = fta_items(nodes.drop_last(), file);
        let n = nodes.last();
        if n.kind == NodeKind::TopEvent || n.kind == NodeKind::BasicEvent {
            prev.push(fta_item(n, file))
        } else {
            prev
        }
    }
}

/// An activity-trace document of `items`, sorted by tag.
pub open spec fn act_document(items: Seq<ItemView>) -> DocView {
    DocView {
        schema: "lobster-act-trace"@,
        version: 3,
        generator: "puml_fta"@,
        data: sorted_by_tag(items),
    }
}

impl FtaModel {
    /// The activity-trace items of the top and basic events, located in `source_file`.
    pub fn lobster_items(&self, source_file: &str) -> (r: Vec<LobsterItem>)
        ensures
            item_views(r@) == fta_items(self.nodes@, source_file@),
    {
        let mut items: Vec<LobsterItem> = Vec::new();
        let mut i: usize = 0;
        while i < self.nodes.len()
            invariant
                i <= self.nodes@.len(),
                item_views(items@) == fta_items(self.nodes@.subrange(0, i as int), source_file@),
            decreases self.nodes@.len() - i,
        {
            let n = &self.nodes[i];
            proof {
                let s = self.nodes@.subrange(0, i + 1);
                assert(s.drop_last() == self.nodes@.subrange(0, i as int));
                assert(s.last() == *n);
            }
            if n.kind == NodeKind::TopEvent || n.kind == NodeKind::BasicEvent {
                let kind = if n.kind == NodeKind::TopEvent {
                    "TopEvent"
                } else {
                    "BasicEvent"
                };
                let av = chars_of(n.alias.as_str());
                let mut refs: Vec<String> = Vec::new();
                refs.push(concat_text("req ", av.as_slice()));
                let item = LobsterItem {
                    tag: concat_text("fta ", av.as_slice()),
                    file: source_file.to_owned(),
                    line: n.line,
                    name: n.alias.clone(),
                    refs,
                    framework: Some("PlantUML".to_owned()),
                    language: None,
                    kind: kind.to_owned(),
                };
                assert(item@.refs == seq!["req "@ + n.alias@]);
                let ghost before = items@;
                items.push(item);
                assert(item_views(items@) == item_views(before).push(items@.last()@));
            }
            i = i + 1;
        }
        assert(self.nodes@.subrange(0, self.nodes@.len() as int) == self.nodes@);
        items
    }
}

/// Wraps activity-trace items in their document, sorted by tag.
pub fn lobster_document(items: Vec<LobsterItem>) -> (r: LobsterDocument)
    ensures
        r@ == act_document(item_views(items@)),
{
    let data = sort_items_by_tag(items);
    LobsterDocument {
        schema: "lobster-act-trace".to_owned(),
        version: 3,
        generator: "puml_fta".to_owned(),
        data,
    }
}

} // verus!

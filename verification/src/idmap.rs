//! Per-diagram identifier maps: which elements a diagram defines and which it
//! references, each listed by fully-qualified id.
use vstd::prelude::*;
use crate::fta::{FtaModel, FtaNode, NodeKind, GateKind, is_valid_trlc_fqn, is_trlc_name};
use crate::text::chars_of;
use crate::diagram_model::{LogicComponent, ClassDiagram, SimpleEntity, Relationship};
use crate::preprocessor::include_expander::{path_set, paths_view, lemma_path_set_push, list_contains};
use crate::text::{split_on, split_chars, char_views, string_of};

verus! {

/// One element of an identifier map.
#[derive(Debug, PartialEq)]
pub struct IdMapEntry {
    /// PlantUML alias used in `url of <alias> is [[url]]` injection.
    pub alias: String,
    /// Fully-qualified identifier (FQN) for matching across diagrams.
    pub id: String,
    /// `true` when this define was synthesized for a namespace/package
    /// container rather than elaborated as an entity of its own.
    pub synthesized: bool,
}

/// The content of an identifier map entry.
pub struct EntryView {
    pub alias: Seq<char>,
    pub id: Seq<char>,
    pub synthesized: bool,
}

impl View for IdMapEntry {
    type V = EntryView;

    open spec fn view(&self) -> EntryView {
        EntryView { alias: self.alias@, id: self.id@, synthesized: self.synthesized }
    }
}

/// The contents of a sequence of entries.
pub open spec fn entry_views(v: Seq<IdMapEntry>) -> Seq<EntryView> {
    v.map_values(|e: IdMapEntry| e@)
}

impl Clone for IdMapEntry {
    fn clone(&self) -> (r: Self)
        ensures
            r == *self,
    {
        IdMapEntry { alias: self.alias.clone(), id: self.id.clone(), synthesized: self.synthesized }
    }
}

/// The identifier map of one diagram.
#[derive(Debug)]
pub struct IdMapFile {
    /// Workspace-relative source path, e.g. `score/mw/com/proxy_detail.puml`.
    pub source: String,
    /// Elements elaborated (defined) in this diagram.
    pub defines: Vec<IdMapEntry>,
    /// Elements referenced (leaf/relation endpoint) in this diagram.
    pub references: Vec<IdMapEntry>,
}

/// Strict lexicographic order on character sequences (the order of `str`).
pub open spec fn lex_lt(a: Seq<char>, b: Seq<char>) -> bool
    decreases a.len(),
{
    if a.len() == 0 {
        b.len() > 0
    } else if b.len() == 0 {
        false
    } else if a[0] != b[0] {
        a[0] < b[0]
    } else {
        lex_lt(a.drop_first(), b.drop_first())
    }
}

/// Where `x` goes in `s` so that it follows every entry whose id is not greater.
pub open spec fn insert_pos(s: Seq<EntryView>, key: Seq<char>, i: int) -> int
    decreases s.len() - i,
{
    if i < 0 || i >= s.len() {
        s.len() as int
    } else if lex_lt(key, s[i].id) {
        i
    } else {
        insert_pos(s, key, i + 1)
    }
}

/// `s` stably sorted by id (insertion sort: equal ids keep their order).
pub open spec fn sorted_by_id(s: Seq<EntryView>) -> Seq<EntryView>
    decreases s.len(),
{
    if s.len() == 0 {
        Seq::empty()
    } else {
        let prev = sorted_by_id(s.drop_last());
        prev.insert(insert_pos(prev, s.last().id, 0), s.last())
    }
}

/// Whether the ids of `s` are in non-decreasing order.
pub open spec fn ids_ascending(s: Seq<EntryView>) -> bool {
    forall|i: int, j: int| 0 <= i < j < s.len() ==> !lex_lt(#[trigger] s[j].id, #[trigger] s[i].id)
}

/// The insertion position lies within the sequence.
proof fn lemma_insert_pos_bounds(s: Seq<EntryView>, key: Seq<char>, i: int)
    requires
        0 <= i <= s.len(),
    ensures
        i <= insert_pos(s, key, i) <= s.len(),
        forall|k: int| i <= k < insert_pos(s, key, i) ==> !lex_lt(key, #[trigger] s[k].id),
        insert_pos(s, key, i) < s.len() ==> lex_lt(key, s[insert_pos(s, key, i)].id),
    decreases s.len() - i,
{
    if i < s.len() && !lex_lt(key, s[i].id) {
        lemma_insert_pos_bounds(s, key, i + 1);
    }
}

/// `lex_lt` is irreflexive.
pub(crate) proof fn lemma_lex_irreflexive(a: Seq<char>)
    ensures
        !lex_lt(a, a),
    decreases a.len(),
{
    if a.len() > 0 {
        lemma_lex_irreflexive(a.drop_first());
    }
}

/// `lex_lt` is transitive.
pub(crate) proof fn lemma_lex_transitive(a: Seq<char>, b: Seq<char>, c: Seq<char>)
    requires
        lex_lt(a, b),
        lex_lt(b, c),
    ensures
        lex_lt(a, c),
    decreases a.len(),
{
    if a.len() > 0 && b.len() > 0 && c.len() > 0 && a[0] == b[0] && b[0] == c[0] {
        lemma_lex_transitive(a.drop_first(), b.drop_first(), c.drop_first());
    }
}

/// Two different sequences are ordered one way or the other.
pub(crate) proof fn lemma_lex_total(a: Seq<char>, b: Seq<char>)
    ensures
        a == b || lex_lt(a, b) || lex_lt(b, a),
    decreases a.len(),
{
    if a.len() > 0 && b.len() > 0 && a[0] == b[0] {
        lemma_lex_total(a.drop_first(), b.drop_first());
        if a.drop_first() == b.drop_first() {
            assert(a == seq![a[0]] + a.drop_first());
            assert(b == seq![b[0]] + b.drop_first());
        }
    } else if a.len() == 0 && b.len() == 0 {
        assert(a == b);
    }
}

/// Inserting at the insertion position keeps the ids ascending.
proof fn lemma_insert_keeps_ascending(s: Seq<EntryView>, x: EntryView)
    requires
        ids_ascending(s),
    ensures
        ids_ascending(s.insert(insert_pos(s, x.id, 0), x)),
{
    let p = insert_pos(s, x.id, 0);
    lemma_insert_pos_bounds(s, x.id, 0);
    let r = s.insert(p, x);
    assert forall|i: int, j: int| 0 <= i < j < r.len() implies !lex_lt(
        #[trigger] r[j].id,
        #[trigger] r[i].id,
    ) by {
        if i < p && j == p {
            // s[i] <= x
            assert(!lex_lt(x.id, s[i].id));
            lemma_lex_total(x.id, s[i].id);
            if lex_lt(x.id, s[i].id) {
            } else if x.id == s[i].id {
                lemma_lex_irreflexive(x.id);
            }
        } else if i == p && j > p {
            // x < s[p] <= s[j - 1]
            let sj = s[j - 1];
            if lex_lt(sj.id, x.id) {
                if j - 1 > p {
                    assert(!lex_lt(sj.id, s[p].id));
                    lemma_lex_transitive(sj.id, x.id, s[p].id);
                } else {
                    lemma_lex_transitive(sj.id, x.id, sj.id);
                    lemma_lex_irreflexive(sj.id);
                }
            }
        } else if i < p && j > p {
            assert(r[i] == s[i] && r[j] == s[j - 1]);
        } else if j < p {
            assert(r[i] == s[i] && r[j] == s[j]);
        } else {
            assert(r[i] == s[i - 1] && r[j] == s[j - 1]);
        }
    }
}

/// Sorting by id yields ascending ids.
pub proof fn lemma_sorted_by_id_ascending(s: Seq<EntryView>)
    ensures
        ids_ascending(sorted_by_id(s)),
    decreases s.len(),
{
    if s.len() > 0 {
        lemma_sorted_by_id_ascending(s.drop_last());
        lemma_insert_keeps_ascending(sorted_by_id(s.drop_last()), s.last());
    }
}

/// Sorting by id only reorders: every entry keeps its multiplicity.
pub proof fn lemma_sorted_by_id_permutes(s: Seq<EntryView>)
    ensures
        sorted_by_id(s).to_multiset() == s.to_multiset(),
    decreases s.len(),
{
    broadcast use vstd::seq_lib::group_to_multiset_ensures;

    if s.len() > 0 {
        lemma_sorted_by_id_permutes(s.drop_last());
        let prev = sorted_by_id(s.drop_last());
        lemma_insert_pos_bounds(prev, s.last().id, 0);
        assert(s.drop_last().push(s.last()) == s);
    }
}

/// Whether `a` comes strictly before `b` (see `lex_lt`).
pub(crate) fn id_less(a: &String, b: &String) -> (r: bool)
    ensures
        r == lex_lt(a@, b@),
{
    let x = chars_of(a.as_str());
    let y = chars_of(b.as_str());
    let mut i: usize = 0;
    assert(x@.subrange(0, x@.len() as int) == a@);
    assert(y@.subrange(0, y@.len() as int) == b@);
    while i < x.len() && i < y.len() && x[i] == y[i]
        invariant
            i <= x@.len(),
            i <= y@.len(),
            lex_lt(a@, b@) == lex_lt(x@.subrange(i as int, x@.len() as int), y@.subrange(i as int, y@.len() as int)),
        decreases x@.len() - i,
    {
        proof {
            let xs = x@.subrange(i as int, x@.len() as int);
            let ys = y@.subrange(i as int, y@.len() as int);
            assert(xs.drop_first() == x@.subrange(i + 1, x@.len() as int));
            assert(ys.drop_first() == y@.subrange(i + 1, y@.len() as int));
        }
        i = i + 1;
    }
    if i == x.len() {
        i < y.len()
    } else if i == y.len() {
        false
    } else {
        x[i] < y[i]
    }
}

/// `v` stably sorted by id.
pub fn sort_by_id(v: Vec<IdMapEntry>) -> (r: Vec<IdMapEntry>)
    ensures
        entry_views(r@) == sorted_by_id(entry_views(v@)),
{
    let ghost orig = entry_views(v@);
    let mut rest = v;
    let mut out: Vec<IdMapEntry> = Vec::new();
    let ghost mut k: int = 0;
    while rest.len() > 0
        invariant
            0 <= k <= orig.len(),
            entry_views(rest@) == orig.subrange(k, orig.len() as int),
            entry_views(out@) == sorted_by_id(orig.subrange(0, k)),
        decreases rest@.len(),
    {
        let ghost rest_before = rest@;
        let x = rest.remove(0);
        proof {
            assert(entry_views(rest_before)[0] == x@);
            assert(entry_views(rest_before).len() == rest_before.len());
            assert(k < orig.len());
            assert(orig.subrange(0, k + 1).drop_last() == orig.subrange(0, k));
            assert(orig.subrange(0, k + 1).last() == orig[k]);
            assert(orig[k] == entry_views(rest_before)[0]);
            assert(entry_views(rest@) == entry_views(rest_before).drop_first());
        }
        let mut j: usize = 0;
        while j < out.len() && !id_less(&x.id, &out[j].id)
            invariant
                j <= out@.len(),
                insert_pos(entry_views(out@), x.id@, 0) == insert_pos(entry_views(out@), x.id@, j as int),
            decreases out@.len() - j,
        {
            j = j + 1;
        }
        let ghost out_before = out@;
        out.insert(j, x);
        proof {
            assert(entry_views(out@) == entry_views(out_before).insert(j as int, out@[j as int]@));
            k = k + 1;
            assert(entry_views(rest@) == orig.subrange(k, orig.len() as int));
        }
    }
    assert(orig.subrange(0, orig.len() as int) == orig);
    out
}

/// An identifier map with no entries.
pub fn empty_idmap(source: &str) -> (r: IdMapFile)
    ensures
        r.source@ == source@,
        r.defines@.len() == 0,
        r.references@.len() == 0,
{
    IdMapFile { source: source.to_owned(), defines: Vec::new(), references: Vec::new() }
}

/// Whether `alias` has the shape `Package.Record` of a TRLC fully-qualified name.
pub fn is_trlc_fqn(alias: &str) -> (r: bool)
    ensures
        r == is_trlc_name(alias@),
{
    is_valid_trlc_fqn(alias)
}

/// An entry whose alias and id are both `alias`.
pub open spec fn self_entry(alias: Seq<char>) -> EntryView {
    EntryView { alias, id: alias, synthesized: false }
}

/// The entries of the top events, in order.
pub open spec fn fta_defines(nodes: Seq<FtaNode>) -> Seq<EntryView>
    decreases nodes.len(),
{
    if nodes.len() == 0 {
        Seq::empty()
    } else if nodes.last().kind == NodeKind::TopEvent {
        fta_defines(nodes.drop_last()).push(self_entry(nodes.last().alias@))
    } else {
        fta_defines(nodes.drop_last())
    }
}

/// Whether a node is a `$TransferInGate`.
pub open spec fn is_transfer_gate(n: FtaNode) -> bool {
    n.kind == NodeKind::Gate && n.gate_kind == Some(GateKind::TransferIn)
}

/// The entries of the transfer-in gates, in order.
pub open spec fn fta_references(nodes: Seq<FtaNode>) -> Seq<EntryView>
    decreases nodes.len(),
{
    if nodes.len() == 0 {
        Seq::empty()
    } else if is_transfer_gate(nodes.last()) {
        fta_references(nodes.drop_last()).push(self_entry(nodes.last().alias@))
    } else {
        fta_references(nodes.drop_last())
    }
}

/// The identifier map of a fault tree: its top events are defined here,
/// transfer-in gates reference top events of other diagrams; both lists are
/// sorted by id.
pub fn fta_model_to_idmap(model: &FtaModel, source: &str) -> (r: IdMapFile)
    ensures
        r.source@ == source@,
        entry_views(r.defines@) == sorted_by_id(fta_defines(model.nodes@)),
        entry_views(r.references@) == sorted_by_id(fta_references(model.nodes@)),
{
    let mut defines: Vec<IdMapEntry> = Vec::new();
    let mut references: Vec<IdMapEntry> = Vec::new();
    let mut k: usize = 0;
    assert(entry_views(defines@) =~= Seq::<EntryView>::empty());
    assert(entry_views(references@) =~= Seq::<EntryView>::empty());
    while k < model.nodes.len()
        invariant
            k <= model.nodes@.len(),
            entry_views(defines@) == fta_defines(model.nodes@.subrange(0, k as int)),
            entry_views(references@) == fta_references(model.nodes@.subrange(0, k as int)),
        decreases model.nodes@.len() - k,
    {
        let node = &model.nodes[k];
        proof {
            assert(model.nodes@.subrange(0, k + 1).drop_last() == model.nodes@.subrange(0, k as int));
        }
        let ghost d0 = defines@;
        let ghost r0 = references@;
        if node.kind == NodeKind::TopEvent {
            defines.push(IdMapEntry { alias: node.alias.clone(), id: node.alias.clone(), synthesized: false });
            assert(entry_views(defines@) == entry_views(d0).push(defines@.last()@));
        } else if node.kind == NodeKind::Gate && node.gate_kind == Some(GateKind::TransferIn) {
            references.push(IdMapEntry { alias: node.alias.clone(), id: node.alias.clone(), synthesized: false });
            assert(entry_views(references@) == entry_views(r0).push(references@.last()@));
        }
        k = k + 1;
    }
    assert(model.nodes@.subrange(0, model.nodes@.len() as int) == model.nodes@);
    IdMapFile { source: source.to_owned(), defines: sort_by_id(defines), references: sort_by_id(references) }
}

/// Whether an optional string holds exactly `v`.
pub open spec fn opt_is(o: Option<String>, v: Seq<char>) -> bool {
    o matches Some(s) && s@ == v
}

/// Whether some component of `cs` names `id` as its parent.
pub open spec fn has_child(cs: Seq<LogicComponent>, id: Seq<char>) -> bool {
    exists|i: int| 0 <= i < cs.len() && opt_is(#[trigger] cs[i].parent_id, id)
}

/// The alias a component is linked by: its alias, else its name, else its id.
pub open spec fn comp_alias(c: LogicComponent) -> Seq<char> {
    match c.alias {
        Some(a) => a@,
        None => match c.name {
            Some(n) => n@,
            None => c.id@,
        },
    }
}

/// Whether the diagram's `@startuml` name is the component's alias or name.
pub open spec fn names_diagram(c: LogicComponent, dn: Option<&str>) -> bool {
    match dn {
        Some(d) => opt_is(c.alias, d@) || opt_is(c.name, d@),
        None => false,
    }
}

/// Whether a component is elaborated (defined) by the diagram: it has
/// children, or the diagram is named after it.
pub open spec fn comp_defined(all: Seq<LogicComponent>, c: LogicComponent, dn: Option<&str>) -> bool {
    has_child(all, c.id@) || names_diagram(c, dn)
}

/// The entries of the components of `cs` that are defines (`define`) or
/// references (`!define`), in order.
pub open spec fn comp_entries(all: Seq<LogicComponent>, cs: Seq<LogicComponent>, dn: Option<&str>, define: bool) -> Seq<
    EntryView,
>
    decreases cs.len(),
{
    if cs.len() == 0 {
        Seq::empty()
    } else {
        let prev = comp_entries(all, cs.drop_last(), dn, define);
        let c = cs.last();
        if comp_defined(all, c, dn) == define {
            prev.push(EntryView { alias: comp_alias(c), id: c.id@, synthesized: false })
        } else {
            prev
        }
    }
}

/// Whether an optional string holds exactly `v`.
pub(crate) fn opt_equals(o: &Option<String>, v: &String) -> (r: bool)
    ensures
        r == opt_is(*o, v@),
{
    match o {
        Some(s) => *s == *v,
        None => false,
    }
}

/// Whether some component names `id` as its parent.
fn component_has_child(cs: &Vec<LogicComponent>, id: &String) -> (r: bool)
    ensures
        r == has_child(cs@, id@),
{
    let mut i: usize = 0;
    while i < cs.len()
        invariant
            i <= cs@.len(),
            forall|k: int| 0 <= k < i ==> !opt_is(#[trigger] cs@[k].parent_id, id@),
        decreases cs@.len() - i,
    {
        if opt_equals(&cs[i].parent_id, id) {
            return true;
        }
        i = i + 1;
    }
    false
}

/// Whether no two components share an id, as in a model keyed by id.
pub open spec fn distinct_ids(model: Seq<LogicComponent>) -> bool {
    forall|i: int, j: int| 0 <= i < j < model.len() ==> (#[trigger] model[i]).id@ != (#[trigger] model[j]).id@
}

/// The identifier map of a component diagram, one component per id:
/// components with children, or named by the diagram, are defined; all
/// others are referenced.  Both lists are sorted by id.
pub fn comp_model_to_idmap(model: &Vec<LogicComponent>, source: &str, diagram_name: Option<&str>) -> (r:
    IdMapFile)
    requires
        distinct_ids(model@),
    ensures
        r.source@ == source@,
        entry_views(r.defines@) == sorted_by_id(comp_entries(model@, model@, diagram_name, true)),
        entry_views(r.references@) == sorted_by_id(comp_entries(model@, model@, diagram_name, false)),
{
    let dn: Option<String> = match diagram_name {
        Some(d) => Some(d.to_owned()),
        None => None,
    };
    let mut defines: Vec<IdMapEntry> = Vec::new();
    let mut references: Vec<IdMapEntry> = Vec::new();
    assert(entry_views(defines@) =~= Seq::<EntryView>::empty());
    assert(entry_views(references@) =~= Seq::<EntryView>::empty());
    let mut k: usize = 0;
    while k < model.len()
        invariant
            k <= model@.len(),
            match diagram_name {
                Some(d) => dn matches Some(x) && x@ == d@,
                None => dn is None,
            },
            entry_views(defines@) == comp_entries(model@, model@.subrange(0, k as int), diagram_name, true),
            entry_views(references@) == comp_entries(model@, model@.subrange(0, k as int), diagram_name, false),
        decreases model@.len() - k,
    {
        let c = &model[k];
        proof {
            assert(model@.subrange(0, k + 1).drop_last() == model@.subrange(0, k as int));
            assert(model@.subrange(0, k + 1).last() == model@[k as int]);
        }
        let alias = match &c.alias {
            Some(a) => a.clone(),
            None => match &c.name {
                Some(n) => n.clone(),
                None => c.id.clone(),
            },
        };
        let names = match &dn {
            Some(d) => opt_equals(&c.alias, d) || opt_equals(&c.name, d),
            None => false,
        };
        let is_define = component_has_child(model, &c.id) || names;
        let entry = IdMapEntry { alias, id: c.id.clone(), synthesized: false };
        let ghost d0 = defines@;
        let ghost r0 = references@;
        if is_define {
            defines.push(entry);
            assert(entry_views(defines@) == entry_views(d0).push(defines@.last()@));
        } else {
            references.push(entry);
            assert(entry_views(references@) == entry_views(r0).push(references@.last()@));
        }
        k = k + 1;
    }
    assert(model@.subrange(0, model@.len() as int) == model@);
    IdMapFile { source: source.to_owned(), defines: sort_by_id(defines), references: sort_by_id(references) }
}

/// What the class-diagram conversion has built so far.
pub struct ClassAcc {
    pub defines: Seq<EntryView>,
    pub references: Seq<EntryView>,
    pub define_ids: Set<Seq<char>>,
    pub reference_ids: Set<Seq<char>>,
    /// Namespaces with a defined child, in order of first appearance.
    pub ns_defined: Seq<Seq<char>>,
}

/// Nothing built yet.
pub open spec fn empty_acc() -> ClassAcc {
    ClassAcc {
        defines: Seq::empty(),
        references: Seq::empty(),
        define_ids: Set::empty(),
        reference_ids: Set::empty(),
        ns_defined: Seq::empty(),
    }
}

/// Whether the diagram elaborates an entity: it has members, or the diagram
/// (with a non-empty name) is named after it.
pub open spec fn entity_defined(e: SimpleEntity, dn: Seq<char>) -> bool {
    e.methods@.len() > 0 || e.variables@.len() > 0 || (dn.len() > 0 && e.name@ == dn)
}

/// One entity: a define (recording its namespace), else a reference unless
/// its id is already referenced.
pub open spec fn entity_step(a: ClassAcc, e: SimpleEntity, dn: Seq<char>) -> ClassAcc {
    if entity_defined(e, dn) {
        ClassAcc {
            define_ids: a.define_ids.insert(e.id@),
            defines: a.defines.push(EntryView { alias: e.name@, id: e.id@, synthesized: false }),
            ns_defined: match e.enclosing_namespace_id {
                Some(ns) => if a.ns_defined.contains(ns@) {
                    a.ns_defined
                } else {
                    a.ns_defined.push(ns@)
                },
                None => a.ns_defined,
            },
            ..a
        }
    } else if a.reference_ids.contains(e.id@) {
        a
    } else {
        ClassAcc {
            reference_ids: a.reference_ids.insert(e.id@),
            references: a.references.push(EntryView { alias: e.name@, id: e.id@, synthesized: false }),
            ..a
        }
    }
}

/// The entities of `es`, in order.
pub open spec fn entities_acc(es: Seq<SimpleEntity>, dn: Seq<char>) -> ClassAcc
    decreases es.len(),
{
    if es.len() == 0 {
        empty_acc()
    } else {
        entity_step(entities_acc(es.drop_last(), dn), es.last(), dn)
    }
}

/// The last `.`-separated segment of a name.
pub open spec fn last_segment(ns: Seq<char>) -> Seq<char> {
    split_on(ns, '.').last()
}

/// One namespace with a defined child: a synthesized define, unless an
/// entity already has that id.
pub open spec fn ns_step(a: ClassAcc, ns: Seq<char>) -> ClassAcc {
    if a.define_ids.contains(ns) || a.reference_ids.contains(ns) {
        a
    } else {
        ClassAcc {
            define_ids: a.define_ids.insert(ns),
            defines: a.defines.push(EntryView { alias: last_segment(ns), id: ns, synthesized: true }),
            ..a
        }
    }
}

/// The namespaces `nss`, in order.
pub open spec fn ns_acc(a: ClassAcc, nss: Seq<Seq<char>>) -> ClassAcc
    decreases nss.len(),
{
    if nss.len() == 0 {
        a
    } else {
        ns_step(ns_acc(a, nss.drop_last()), nss.last())
    }
}

/// The source and target of each relationship, in order.
pub open spec fn rel_endpoints(rs: Seq<Relationship>) -> Seq<Seq<char>>
    decreases rs.len(),
{
    if rs.len() == 0 {
        Seq::empty()
    } else {
        rel_endpoints(rs.drop_last()) + seq![rs.last().source@, rs.last().target@]
    }
}

/// The relationship endpoints of all entities, in order.
pub open spec fn all_endpoints(es: Seq<SimpleEntity>) -> Seq<Seq<char>>
    decreases es.len(),
{
    if es.len() == 0 {
        Seq::empty()
    } else {
        all_endpoints(es.drop_last()) + rel_endpoints(es.last().relationships@)
    }
}

/// Whether some entity is enclosed by namespace `ns`.
pub open spec fn is_namespace(es: Seq<SimpleEntity>, ns: Seq<char>) -> bool {
    exists|i: int| 0 <= i < es.len() && opt_is(#[trigger] es[i].enclosing_namespace_id, ns)
}

/// The name of the last entity with id `id`.
pub open spec fn name_of(es: Seq<SimpleEntity>, id: Seq<char>) -> Option<Seq<char>>
    decreases es.len(),
{
    if es.len() == 0 {
        None
    } else if es.last().id@ == id {
        Some(es.last().name@)
    } else {
        name_of(es.drop_last(), id)
    }
}

/// One relationship endpoint: a reference, unless it is a namespace or
/// already listed; it is named after its entity, else by its id.
pub open spec fn endpoint_step(a: ClassAcc, ep: Seq<char>, es: Seq<SimpleEntity>) -> ClassAcc {
    if is_namespace(es, ep) || a.define_ids.contains(ep) || a.reference_ids.contains(ep) {
        a
    } else {
        ClassAcc {
            reference_ids: a.reference_ids.insert(ep),
            references: a.references.push(
                EntryView {
                    alias: match name_of(es, ep) {
                        Some(n) => n,
                        None => ep,
                    },
                    id: ep,
                    synthesized: false,
                },
            ),
            ..a
        }
    }
}

/// The endpoints `eps`, in order.
pub open spec fn endpoints_acc(a: ClassAcc, eps: Seq<Seq<char>>, es: Seq<SimpleEntity>) -> ClassAcc
    decreases eps.len(),
{
    if eps.len() == 0 {
        a
    } else {
        endpoint_step(endpoints_acc(a, eps.drop_last(), es), eps.last(), es)
    }
}

/// The whole conversion: entities, then namespaces, then endpoints.
pub open spec fn class_acc(m: ClassDiagram) -> ClassAcc {
    let es = m.entities@;
    let a1 = entities_acc(es, m.name@);
    endpoints_acc(ns_acc(a1, a1.ns_defined), all_endpoints(es), es)
}

/// The exec state of the class-diagram conversion.
struct ClassBuild {
    defines: Vec<IdMapEntry>,
    references: Vec<IdMapEntry>,
    define_ids: Vec<String>,
    reference_ids: Vec<String>,
    ns_defined: Vec<String>,
}

/// The content of the exec state.
spec fn build_view(b: ClassBuild) -> ClassAcc {
    ClassAcc {
        defines: entry_views(b.defines@),
        references: entry_views(b.references@),
        define_ids: path_set(b.define_ids@),
        reference_ids: path_set(b.reference_ids@),
        ns_defined: paths_view(b.ns_defined@),
    }
}

/// Whether some entity is enclosed by namespace `ns`.
fn entity_namespace(es: &Vec<SimpleEntity>, ns: &String) -> (r: bool)
    ensures
        r == is_namespace(es@, ns@),
{
    let mut i: usize = 0;
    while i < es.len()
        invariant
            i <= es@.len(),
            forall|k: int| 0 <= k < i ==> !opt_is(#[trigger] es@[k].enclosing_namespace_id, ns@),
        decreases es@.len() - i,
    {
        if opt_equals(&es[i].enclosing_namespace_id, ns) {
            return true;
        }
        i = i + 1;
    }
    false
}

/// The name of the last entity with id `id`.
fn entity_name(es: &Vec<SimpleEntity>, id: &String) -> (r: Option<String>)
    ensures
        match r {
            Some(n) => name_of(es@, id@) == Some(n@),
            None => name_of(es@, id@) is None,
        },
{
    let mut j = es.len();
    assert(es@.subrange(0, j as int) == es@);
    while j > 0
        invariant
            j <= es@.len(),
            name_of(es@, id@) == name_of(es@.subrange(0, j as int), id@),
        decreases j,
    {
        assert(es@.subrange(0, j as int).drop_last() == es@.subrange(0, j - 1));
        if es[j - 1].id == *id {
            return Some(es[j - 1].name.clone());
        }
        j = j - 1;
    }
    None
}

/// The last `.`-separated segment of a name.
fn last_segment_of(ns: &String) -> (r: String)
    ensures
        r@ == last_segment(ns@),
{
    let v = chars_of(ns.as_str());
    let parts = split_chars(v.as_slice(), '.');
    proof {
        crate::text::lemma_split_nonempty(ns@, '.');
        assert(char_views(parts@).len() == parts@.len());
        assert(char_views(parts@).last() == parts@.last()@);
    }
    string_of(parts[parts.len() - 1].as_slice())
}

/// Applies `entity_step`.
fn apply_entity(b: &mut ClassBuild, e: &SimpleEntity, dn: &String)
    ensures
        build_view(*final(b)) == entity_step(build_view(*old(b)), *e, dn@),
{
    let ghost a = build_view(*b);
    if e.methods.len() > 0 || e.variables.len() > 0 || (!dn.as_str().is_empty() && e.name == *dn) {
        proof {
            lemma_path_set_push(b.define_ids@, e.id);
        }
        b.define_ids.push(e.id.clone());
        let ghost d0 = b.defines@;
        b.defines.push(IdMapEntry { alias: e.name.clone(), id: e.id.clone(), synthesized: false });
        assert(entry_views(b.defines@) == entry_views(d0).push(b.defines@.last()@));
        match &e.enclosing_namespace_id {
            Some(ns) => {
                if !list_contains(&b.ns_defined, ns) {
                    let ghost n0 = b.ns_defined@;
                    b.ns_defined.push(ns.clone());
                    assert(paths_view(b.ns_defined@) == paths_view(n0).push(ns@));
                }
            },
            None => {},
        }
        assert(build_view(*b) =~= entity_step(a, *e, dn@));
    } else if list_contains(&b.reference_ids, &e.id) {
        assert(path_set(b.reference_ids@).contains(e.id@));
    } else {
        proof {
            lemma_path_set_push(b.reference_ids@, e.id);
            assert(!path_set(b.reference_ids@).contains(e.id@));
        }
        b.reference_ids.push(e.id.clone());
        let ghost r0 = b.references@;
        b.references.push(IdMapEntry { alias: e.name.clone(), id: e.id.clone(), synthesized: false });
        assert(entry_views(b.references@) == entry_views(r0).push(b.references@.last()@));
        assert(build_view(*b) =~= entity_step(a, *e, dn@));
    }
}

/// Applies `ns_step`.
fn apply_namespace(b: &mut ClassBuild, ns: &String)
    ensures
        build_view(*final(b)) == ns_step(build_view(*old(b)), ns@),
{
    let ghost a = build_view(*b);
    if list_contains(&b.define_ids, ns) || list_contains(&b.reference_ids, ns) {
        return;
    }
    let alias = last_segment_of(ns);
    proof {
        lemma_path_set_push(b.define_ids@, *ns);
    }
    b.define_ids.push(ns.clone());
    let ghost d0 = b.defines@;
    b.defines.push(IdMapEntry { alias, id: ns.clone(), synthesized: true });
    assert(entry_views(b.defines@) == entry_views(d0).push(b.defines@.last()@));
    assert(build_view(*b) =~= ns_step(a, ns@));
}

/// Applies `endpoint_step`.
fn apply_endpoint(b: &mut ClassBuild, ep: &String, es: &Vec<SimpleEntity>)
    ensures
        build_view(*final(b)) == endpoint_step(build_view(*old(b)), ep@, es@),
{
    let ghost a = build_view(*b);
    if entity_namespace(es, ep) || list_contains(&b.define_ids, ep) || list_contains(&b.reference_ids, ep) {
        return;
    }
    let alias = match entity_name(es, ep) {
        Some(n) => n,
        None => ep.clone(),
    };
    proof {
        lemma_path_set_push(b.reference_ids@, *ep);
    }
    b.reference_ids.push(ep.clone());
    let ghost r0 = b.references@;
    b.references.push(IdMapEntry { alias, id: ep.clone(), synthesized: false });
    assert(entry_views(b.references@) == entry_views(r0).push(b.references@.last()@));
    assert(build_view(*b) =~= endpoint_step(a, ep@, es@));
}

/// The identifier map of a class diagram: entities with members (or named by
/// the diagram) are defined, the others referenced; namespaces holding a
/// defined entity get a synthesized define named by their last segment;
/// relationship endpoints not yet listed (and not namespaces) are referenced.
/// Both lists are sorted by id.
pub fn class_model_to_idmap(model: &ClassDiagram, source: &str) -> (r: IdMapFile)
    ensures
        r.source@ == source@,
        entry_views(r.defines@) == sorted_by_id(class_acc(*model).defines),
        entry_views(r.references@) == sorted_by_id(class_acc(*model).references),
{
    let es = &model.entities;
    let mut b = ClassBuild {
        defines: Vec::new(),
        references: Vec::new(),
        define_ids: Vec::new(),
        reference_ids: Vec::new(),
        ns_defined: Vec::new(),
    };
    assert(build_view(b) =~= empty_acc()) by {
        assert(entry_views(b.defines@) =~= Seq::<EntryView>::empty());
        assert(entry_views(b.references@) =~= Seq::<EntryView>::empty());
        assert(path_set(b.define_ids@) =~= Set::<Seq<char>>::empty());
        assert(path_set(b.reference_ids@) =~= Set::<Seq<char>>::empty());
        assert(paths_view(b.ns_defined@) =~= Seq::<Seq<char>>::empty());
    }
    let mut k: usize = 0;
    while k < es.len()
        invariant
            k <= es@.len(),
            es@ == model.entities@,
            build_view(b) == entities_acc(es@.subrange(0, k as int), model.name@),
        decreases es@.len() - k,
    {
        proof {
            assert(es@.subrange(0, k + 1).drop_last() == es@.subrange(0, k as int));
        }
        apply_entity(&mut b, &es[k], &model.name);
        k = k + 1;
    }
    assert(es@.subrange(0, es@.len() as int) == es@);
    let ghost a1 = build_view(b);
    let nss = crate::preprocessor::include_expander::copy_paths(&b.ns_defined);
    let mut j: usize = 0;
    while j < nss.len()
        invariant
            j <= nss@.len(),
            paths_view(nss@) == a1.ns_defined,
            build_view(b) == ns_acc(a1, paths_view(nss@).subrange(0, j as int)),
        decreases nss@.len() - j,
    {
        proof {
            assert(paths_view(nss@).subrange(0, j + 1).drop_last() == paths_view(nss@).subrange(0, j as int));
            assert(paths_view(nss@).subrange(0, j + 1).last() == nss@[j as int]@);
        }
        apply_namespace(&mut b, &nss[j]);
        j = j + 1;
    }
    assert(paths_view(nss@).subrange(0, nss@.len() as int) == paths_view(nss@));
    let ghost a2 = build_view(b);
    let ghost eps = all_endpoints(es@);
    let ghost mut done: Seq<Seq<char>> = Seq::empty();
    let mut k: usize = 0;
    while k < es.len()
        invariant
            k <= es@.len(),
            es@ == model.entities@,
            done == all_endpoints(es@.subrange(0, k as int)),
            build_view(b) == endpoints_acc(a2, done, es@),
        decreases es@.len() - k,
    {
        let rels = &es[k].relationships;
        let ghost base = done;
        let mut q: usize = 0;
        while q < rels.len()
            invariant
                q <= rels@.len(),
                done == base + rel_endpoints(rels@.subrange(0, q as int)),
                build_view(b) == endpoints_acc(a2, done, es@),
            decreases rels@.len() - q,
        {
            proof {
                assert(rels@.subrange(0, q + 1).drop_last() == rels@.subrange(0, q as int));
            }
            let rel = &rels[q];
            apply_endpoint(&mut b, &rel.source, es);
            proof {
                assert((done.push(rel.source@)).drop_last() == done);
                assert(endpoints_acc(a2, done.push(rel.source@), es@) == endpoint_step(
                    endpoints_acc(a2, done, es@),
                    rel.source@,
                    es@,
                ));
                done = done.push(rel.source@);
            }
            apply_endpoint(&mut b, &rel.target, es);
            proof {
                assert((done.push(rel.target@)).drop_last() == done);
                assert(endpoints_acc(a2, done.push(rel.target@), es@) == endpoint_step(
                    endpoints_acc(a2, done, es@),
                    rel.target@,
                    es@,
                ));
                done = done.push(rel.target@);
                assert(base + rel_endpoints(rels@.subrange(0, q + 1)) == done);
            }
            q = q + 1;
        }
        proof {
            assert(rels@.subrange(0, rels@.len() as int) == rels@);
            assert(es@.subrange(0, k + 1).drop_last() == es@.subrange(0, k as int));
        }
        k = k + 1;
    }
    assert(es@.subrange(0, es@.len() as int) == es@);
    let ClassBuild { defines, references, .. } = b;
    IdMapFile { source: source.to_owned(), defines: sort_by_id(defines), references: sort_by_id(references) }
}

/// The names of `ns` without repetitions, each where it first occurs.
pub open spec fn distinct_names(ns: Seq<Seq<char>>) -> Seq<Seq<char>>
    decreases ns.len(),
{
    if ns.len() == 0 {
        Seq::empty()
    } else {
        let prev = distinct_names(ns.drop_last());
        if prev.contains(ns.last()) {
            prev
        } else {
            prev.push(ns.last())
        }
    }
}

/// The reference entries of participant names: each named by itself.
pub open spec fn participant_entries(ns: Seq<Seq<char>>) -> Seq<EntryView> {
    ns.map_values(|n: Seq<char>| EntryView { alias: n, id: n, synthesized: false })
}

/// The identifier map of a sequence diagram, from the names its participant
/// references carry (in any order, repetitions allowed): no defines, and each
/// name once as a reference, sorted.
pub fn sequence_model_to_idmap(participants: &Vec<String>, source: &str) -> (r: IdMapFile)
    ensures
        r.source@ == source@,
        r.defines@.len() == 0,
        entry_views(r.references@) == sorted_by_id(participant_entries(distinct_names(paths_view(participants@)))),
{
    let mut names: Vec<String> = Vec::new();
    let mut i: usize = 0;
    while i < participants.len()
        invariant
            i <= participants@.len(),
            paths_view(names@) == distinct_names(paths_view(participants@).subrange(0, i as int)),
        decreases participants@.len() - i,
    {
        proof {
            let s = paths_view(participants@).subrange(0, i + 1);
            assert(s.drop_last() == paths_view(participants@).subrange(0, i as int));
            assert(s.last() == participants@[i as int]@);
        }
        if !list_contains(&names, &participants[i]) {
            let ghost before = names@;
            names.push(participants[i].clone());
            assert(paths_view(names@) == paths_view(before).push(participants@[i as int]@));
        }
        i = i + 1;
    }
    assert(paths_view(participants@).subrange(0, participants@.len() as int) == paths_view(participants@));
    let mut refs: Vec<IdMapEntry> = Vec::new();
    let mut k: usize = 0;
    while k < names.len()
        invariant
            k <= names@.len(),
            entry_views(refs@) == participant_entries(paths_view(names@).subrange(0, k as int)),
        decreases names@.len() - k,
    {
        let ghost before = refs@;
        refs.push(IdMapEntry { alias: names[k].clone(), id: names[k].clone(), synthesized: false });
        assert(entry_views(refs@) == entry_views(before).push(refs@.last()@));
        assert(paths_view(names@).subrange(0, k + 1) == paths_view(names@).subrange(0, k as int).push(
            names@[k as int]@,
        ));
        k = k + 1;
    }
    assert(paths_view(names@).subrange(0, names@.len() as int) == paths_view(names@));
    IdMapFile { source: source.to_owned(), defines: Vec::new(), references: sort_by_id(refs) }
}

/// Whether no two references of `a` share an id, and every reference id is recorded.
pub open spec fn refs_recorded(a: ClassAcc) -> bool {
    &&& forall|i: int| 0 <= i < a.references.len() ==> a.reference_ids.contains(#[trigger] a.references[i].id)
    &&& forall|i: int, j: int|
        0 <= i < j < a.references.len() ==> #[trigger] a.references[i].id != #[trigger] a.references[j].id
}

/// Whether every define id is recorded.
pub open spec fn defines_recorded(a: ClassAcc) -> bool {
    forall|i: int| 0 <= i < a.defines.len() ==> a.define_ids.contains(#[trigger] a.defines[i].id)
}

/// Whether the id of each synthesized define belongs to no other define.
pub open spec fn synthesized_unique(ds: Seq<EntryView>) -> bool {
    forall|i: int, j: int|
        0 <= i < ds.len() && 0 <= j < ds.len() && i != j && (#[trigger] ds[i]).synthesized ==> (#[trigger] ds[j]).id
            != ds[i].id
}

/// Whether the id of each synthesized define belongs to no reference.
pub open spec fn synthesized_unreferenced(ds: Seq<EntryView>, rs: Seq<EntryView>) -> bool {
    forall|i: int, k: int|
        0 <= i < ds.len() && 0 <= k < rs.len() && (#[trigger] ds[i]).synthesized ==> (#[trigger] rs[k]).id != ds[i].id
}

/// Whether no two entries of `s` share an id.
pub open spec fn ids_distinct(s: Seq<EntryView>) -> bool {
    forall|i: int, j: int| 0 <= i < j < s.len() ==> #[trigger] s[i].id != #[trigger] s[j].id
}

/// The invariant of the class-diagram conversion.
pub open spec fn acc_ok(a: ClassAcc) -> bool {
    &&& refs_recorded(a)
    &&& defines_recorded(a)
    &&& synthesized_unique(a.defines)
    &&& synthesized_unreferenced(a.defines, a.references)
}

proof fn lemma_entities_acc_ok(es: Seq<SimpleEntity>, dn: Seq<char>)
    ensures
        acc_ok(entities_acc(es, dn)),
        forall|i: int| 0 <= i < entities_acc(es, dn).defines.len() ==> !(#[trigger] entities_acc(es, dn).defines[i]).synthesized,
    decreases es.len(),
{
    if es.len() > 0 {
        lemma_entities_acc_ok(es.drop_last(), dn);
        let a = entities_acc(es.drop_last(), dn);
        let b = entities_acc(es, dn);
        let e = es.last();
        if entity_defined(e, dn) {
            assert forall|i: int| 0 <= i < b.defines.len() implies b.define_ids.contains(#[trigger] b.defines[i].id) by {
                if i < a.defines.len() {
                    assert(b.defines[i] == a.defines[i]);
                }
            }
            assert forall|i: int| 0 <= i < b.defines.len() implies !(#[trigger] b.defines[i]).synthesized by {
                if i < a.defines.len() {
                    assert(b.defines[i] == a.defines[i]);
                }
            }
        } else if !a.reference_ids.contains(e.id@) {
            assert forall|i: int| 0 <= i < b.references.len() implies b.reference_ids.contains(
                #[trigger] b.references[i].id,
            ) by {
                if i < a.references.len() {
                    assert(b.references[i] == a.references[i]);
                }
            }
            assert forall|i: int, j: int| 0 <= i < j < b.references.len() implies #[trigger] b.references[i].id
                != #[trigger] b.references[j].id by {
                if j < a.references.len() {
                    assert(b.references[i] == a.references[i] && b.references[j] == a.references[j]);
                } else {
                    assert(b.references[i] == a.references[i]);
                    assert(a.reference_ids.contains(a.references[i].id));
                }
            }
        }
    }
}

proof fn lemma_ns_acc_ok(a: ClassAcc, nss: Seq<Seq<char>>)
    requires
        acc_ok(a),
    ensures
        acc_ok(ns_acc(a, nss)),
        ns_acc(a, nss).references == a.references,
    decreases nss.len(),
{
    if nss.len() > 0 {
        lemma_ns_acc_ok(a, nss.drop_last());
        let p = ns_acc(a, nss.drop_last());
        let ns = nss.last();
        if !(p.define_ids.contains(ns) || p.reference_ids.contains(ns)) {
            let b = ns_step(p, ns);
            let n = p.defines.len() as int;
            assert forall|i: int| 0 <= i < b.defines.len() implies b.define_ids.contains(#[trigger] b.defines[i].id) by {
                if i < n {
                    assert(b.defines[i] == p.defines[i]);
                }
            }
            assert forall|i: int, j: int|
                0 <= i < b.defines.len() && 0 <= j < b.defines.len() && i != j && (#[trigger] b.defines[i]).synthesized
                    implies (#[trigger] b.defines[j]).id != b.defines[i].id by {
                if i < n && j < n {
                    assert(b.defines[i] == p.defines[i] && b.defines[j] == p.defines[j]);
                } else if i == n {
                    assert(b.defines[j] == p.defines[j]);
                    assert(p.define_ids.contains(p.defines[j].id));
                } else {
                    assert(b.defines[i] == p.defines[i]);
                    assert(p.define_ids.contains(p.defines[i].id));
                }
            }
            assert forall|i: int, k: int|
                0 <= i < b.defines.len() && 0 <= k < b.references.len() && (#[trigger] b.defines[i]).synthesized
                    implies (#[trigger] b.references[k]).id != b.defines[i].id by {
                if i < n {
                    assert(b.defines[i] == p.defines[i]);
                } else {
                    assert(p.reference_ids.contains(p.references[k].id));
                }
            }
        }
    }
}

proof fn lemma_endpoints_acc_ok(a: ClassAcc, eps: Seq<Seq<char>>, es: Seq<SimpleEntity>)
    requires
        acc_ok(a),
    ensures
        acc_ok(endpoints_acc(a, eps, es)),
        endpoints_acc(a, eps, es).defines == a.defines,
    decreases eps.len(),
{
    if eps.len() > 0 {
        lemma_endpoints_acc_ok(a, eps.drop_last(), es);
        let p = endpoints_acc(a, eps.drop_last(), es);
        let ep = eps.last();
        if !(is_namespace(es, ep) || p.define_ids.contains(ep) || p.reference_ids.contains(ep)) {
            let b = endpoint_step(p, ep, es);
            let n = p.references.len() as int;
            assert forall|i: int| 0 <= i < b.references.len() implies b.reference_ids.contains(
                #[trigger] b.references[i].id,
            ) by {
                if i < n {
                    assert(b.references[i] == p.references[i]);
                }
            }
            assert forall|i: int, j: int| 0 <= i < j < b.references.len() implies #[trigger] b.references[i].id
                != #[trigger] b.references[j].id by {
                if j < n {
                    assert(b.references[i] == p.references[i] && b.references[j] == p.references[j]);
                } else {
                    assert(b.references[i] == p.references[i]);
                    assert(p.reference_ids.contains(p.references[i].id));
                }
            }
            assert forall|i: int, k: int|
                0 <= i < b.defines.len() && 0 <= k < b.references.len() && (#[trigger] b.defines[i]).synthesized
                    implies (#[trigger] b.references[k]).id != b.defines[i].id by {
                if k < n {
                    assert(b.references[k] == p.references[k]);
                } else {
                    assert(p.define_ids.contains(p.defines[i].id));
                }
            }
        }
    }
}

proof fn lemma_sorted_by_id_from(s: Seq<EntryView>)
    ensures
        sorted_by_id(s).len() == s.len(),
        forall|k: int| 0 <= k < s.len() ==> s.contains(#[trigger] sorted_by_id(s)[k]),
    decreases s.len(),
{
    if s.len() > 0 {
        let q = s.drop_last();
        lemma_sorted_by_id_from(q);
        let p = sorted_by_id(q);
        lemma_insert_pos_bounds(p, s.last().id, 0);
        let pos = insert_pos(p, s.last().id, 0);
        assert forall|k: int| 0 <= k < s.len() implies s.contains(#[trigger] sorted_by_id(s)[k]) by {
            if k < pos {
                assert(q.contains(p[k]));
                let w = choose|w: int| 0 <= w < q.len() && q[w] == p[k];
                assert(s[w] == p[k]);
            } else if k == pos {
                assert(s[s.len() - 1] == s.last());
            } else {
                assert(q.contains(p[k - 1]));
                let w = choose|w: int| 0 <= w < q.len() && q[w] == p[k - 1];
                assert(s[w] == p[k - 1]);
            }
        }
    }
}

/// Sorting keeps ids distinct, and keeps each synthesized id unique.
proof fn lemma_sorted_by_id_keeps_unique(s: Seq<EntryView>)
    ensures
        ids_distinct(s) ==> ids_distinct(sorted_by_id(s)),
        synthesized_unique(s) ==> synthesized_unique(sorted_by_id(s)),
    decreases s.len(),
{
    if s.len() > 0 {
        let q = s.drop_last();
        let x = s.last();
        lemma_sorted_by_id_keeps_unique(q);
        lemma_sorted_by_id_from(q);
        let p = sorted_by_id(q);
        lemma_insert_pos_bounds(p, x.id, 0);
        let pos = insert_pos(p, x.id, 0);
        let r = sorted_by_id(s);
        assert(r == p.insert(pos, x));
        // every element of `p` stands in `s` before `x`
        assert forall|k: int| 0 <= k < p.len() implies exists|w: int| 0 <= w < s.len() - 1 && #[trigger] s[w] == #[trigger] p[k] by {
            assert(q.contains(p[k]));
            let w = choose|w: int| 0 <= w < q.len() && q[w] == p[k];
            assert(s[w] == p[k]);
        }
        assert(s[s.len() - 1] == x);
        if ids_distinct(s) {
            assert(ids_distinct(q)) by {
                assert forall|i: int, j: int| 0 <= i < j < q.len() implies #[trigger] q[i].id != #[trigger] q[j].id by {
                    assert(q[i] == s[i] && q[j] == s[j]);
                }
            }
            assert forall|i: int, j: int| 0 <= i < j < r.len() implies #[trigger] r[i].id != #[trigger] r[j].id by {
                let ri = if i < pos { p[i] } else if i == pos { x } else { p[i - 1] };
                let rj = if j < pos { p[j] } else if j == pos { x } else { p[j - 1] };
                assert(r[i] == ri && r[j] == rj);
                if i != pos && j != pos {
                } else if i == pos {
                    let kj = j - 1;
                    let w = choose|w: int| 0 <= w < s.len() - 1 && #[trigger] s[w] == p[kj];
                    assert(s[w].id != s[s.len() - 1].id);
                } else {
                    let w = choose|w: int| 0 <= w < s.len() - 1 && #[trigger] s[w] == p[i];
                    assert(s[w].id != s[s.len() - 1].id);
                }
            }
        }
        if synthesized_unique(s) {
            assert(synthesized_unique(q)) by {
                assert forall|i: int, j: int|
                    0 <= i < q.len() && 0 <= j < q.len() && i != j && (#[trigger] q[i]).synthesized implies (
                    #[trigger] q[j]).id != q[i].id by {
                    assert(q[i] == s[i] && q[j] == s[j]);
                }
            }
            assert forall|i: int, j: int|
                0 <= i < r.len() && 0 <= j < r.len() && i != j && (#[trigger] r[i]).synthesized implies (
                #[trigger] r[j]).id != r[i].id by {
                let ri = if i < pos { p[i] } else if i == pos { x } else { p[i - 1] };
                let rj = if j < pos { p[j] } else if j == pos { x } else { p[j - 1] };
                assert(r[i] == ri && r[j] == rj);
                if i != pos && j != pos {
                    let ki = if i < pos { i } else { i - 1 };
                    let kj = if j < pos { j } else { j - 1 };
                    assert(ki != kj);
                    assert(p[ki] == ri && p[kj] == rj);
                } else if i == pos {
                    let kj = if j < pos { j } else { j - 1 };
                    let w = choose|w: int| 0 <= w < s.len() - 1 && #[trigger] s[w] == p[kj];
                    assert(s[w].id != s[s.len() - 1].id);
                } else {
                    let ki = if i < pos { i } else { i - 1 };
                    let w = choose|w: int| 0 <= w < s.len() - 1 && #[trigger] s[w] == p[ki];
                    assert(s[s.len() - 1].id != s[w].id);
                }
            }
        }
    }
}

/// The identifier map of a class diagram lists each referenced id once, and
/// a define synthesized for a namespace never shares its id with another
/// define or with a reference.
pub proof fn lemma_class_idmap_ids(m: ClassDiagram)
    ensures
        ids_distinct(sorted_by_id(class_acc(m).references)),
        synthesized_unique(sorted_by_id(class_acc(m).defines)),
        synthesized_unreferenced(sorted_by_id(class_acc(m).defines), sorted_by_id(class_acc(m).references)),
{
    let es = m.entities@;
    let a1 = entities_acc(es, m.name@);
    lemma_entities_acc_ok(es, m.name@);
    let a2 = ns_acc(a1, a1.ns_defined);
    lemma_ns_acc_ok(a1, a1.ns_defined);
    let a3 = endpoints_acc(a2, all_endpoints(es), es);
    lemma_endpoints_acc_ok(a2, all_endpoints(es), es);
    assert(a3 == class_acc(m));
    let d = a3.defines;
    let rs = a3.references;
    assert(ids_distinct(rs));
    lemma_sorted_by_id_keeps_unique(d);
    lemma_sorted_by_id_keeps_unique(rs);
    lemma_sorted_by_id_from(d);
    lemma_sorted_by_id_from(rs);
    let sd = sorted_by_id(d);
    let sr = sorted_by_id(rs);
    assert forall|i: int, k: int| 0 <= i < sd.len() && 0 <= k < sr.len() && (#[trigger] sd[i]).synthesized implies (
    #[trigger] sr[k]).id != sd[i].id by {
        assert(d.contains(sd[i]));
        assert(rs.contains(sr[k]));
        let a = choose|a: int| 0 <= a < d.len() && d[a] == sd[i];
        let b = choose|b: int| 0 <= b < rs.len() && rs[b] == sr[k];
        assert(d[a].synthesized);
        assert(rs[b].id != d[a].id);
    }
}

proof fn lemma_distinct_names_distinct(ns: Seq<Seq<char>>)
    ensures
        forall|i: int, j: int|
            0 <= i < j < distinct_names(ns).len() ==> #[trigger] distinct_names(ns)[i] != #[trigger] distinct_names(ns)[j],
    decreases ns.len(),
{
    if ns.len() > 0 {
        lemma_distinct_names_distinct(ns.drop_last());
        let p = distinct_names(ns.drop_last());
        if !p.contains(ns.last()) {
            let r = p.push(ns.last());
            assert forall|i: int, j: int| 0 <= i < j < r.len() implies #[trigger] r[i] != #[trigger] r[j] by {
                if j < p.len() {
                    assert(r[i] == p[i] && r[j] == p[j]);
                } else {
                    assert(r[i] == p[i]);
                }
            }
        }
    }
}

/// The identifier map of a sequence diagram lists each participant once.
pub proof fn lemma_sequence_references_distinct(ns: Seq<Seq<char>>)
    ensures
        ids_distinct(sorted_by_id(participant_entries(distinct_names(ns)))),
{
    let d = distinct_names(ns);
    lemma_distinct_names_distinct(ns);
    let es = participant_entries(d);
    assert forall|i: int, j: int| 0 <= i < j < es.len() implies #[trigger] es[i].id != #[trigger] es[j].id by {
        assert(es[i].id == d[i] && es[j].id == d[j]);
    }
    lemma_sorted_by_id_keeps_unique(es);
}

} // verus!

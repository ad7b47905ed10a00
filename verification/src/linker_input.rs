//! What the linker reads of a serialized diagram: which kind of diagram a
//! buffer holds, and the components it contributes, from the decoded tables.
use vstd::prelude::*;
use crate::linker::{DiagramComponent, DiagramInfo};
use crate::text::{chars_of, string_of, push_all};
use crate::preprocessor::include_expander::{list_contains, paths_view, path_set, lemma_path_set_push};

verus! {

/// The content of a component: alias, identifier, parent.
pub type CompView = (Seq<char>, Option<Seq<char>>, Option<Seq<char>>);

/// The content of an optional string.
pub open spec fn ov(o: Option<String>) -> Option<Seq<char>> {
    match o {
        Some(s) => Some(s@),
        None => None,
    }
}

/// The content of a component.
pub open spec fn comp_view(c: DiagramComponent) -> CompView {
    (c.alias@, ov(c.id), ov(c.parent_id))
}

/// The contents of a sequence of components.
pub open spec fn comp_views(cs: Seq<DiagramComponent>) -> Seq<CompView> {
    cs.map_values(|c: DiagramComponent| comp_view(c))
}

/// A copy of an optional string.
pub(crate) fn copy_opt(o: &Option<String>) -> (r: Option<String>)
    ensures
        ov(r) == ov(*o),
{
    match o {
        Some(s) => Some(s.clone()),
        None => None,
    }
}

/// `v` with component `c` appended.
fn push_comp(v: &mut Vec<DiagramComponent>, alias: String, id: Option<String>, parent_id: Option<String>)
    ensures
        comp_views(final(v)@) == comp_views(old(v)@).push((alias@, ov(id), ov(parent_id))),
{
    let ghost before = v@;
    v.push(DiagramComponent { alias, id, parent_id });
    assert(comp_views(v@) == comp_views(before).push(comp_view(v@.last())));
}

// ----- component diagrams -----

/// A component of a decoded component graph.
#[derive(Debug, Clone, PartialEq)]
pub struct FbComponent {
    pub alias: Option<String>,
    pub name: Option<String>,
    pub id: Option<String>,
    pub parent_id: Option<String>,
    /// The targets of its relations.
    pub relation_targets: Vec<Option<String>>,
}

/// A decoded component graph: its source file, and its entries (an entry
/// may carry no component).
#[derive(Debug, Clone, PartialEq)]
pub struct FbComponentGraph {
    pub source_file: Option<String>,
    pub components: Vec<Option<FbComponent>>,
}

/// The components found so far, and the relation targets already added.
pub struct CompAcc {
    pub comps: Seq<CompView>,
    pub seen: Set<Seq<char>>,
}

/// The alias a component is linked by: its alias, else its name, else nothing.
pub open spec fn fb_alias(c: FbComponent) -> Seq<char> {
    match c.alias {
        Some(a) => a@,
        None => match c.name {
            Some(n) => n@,
            None => Seq::empty(),
        },
    }
}

/// Its identifier, when it says more than the alias.
pub open spec fn fb_id(c: FbComponent) -> Option<Seq<char>> {
    match c.id {
        Some(i) => if i@.len() > 0 && i@ != fb_alias(c) {
            Some(i@)
        } else {
            None
        },
        None => None,
    }
}

/// The extra entry of a component with both an alias and a distinct name:
/// the name, linkable too.
pub open spec fn fb_named(c: FbComponent) -> Seq<CompView> {
    match c.name {
        Some(n) => if c.alias is Some && n@.len() > 0 && n@ != fb_alias(c) {
            seq![(n@, None::<Seq<char>>, ov(c.parent_id))]
        } else {
            Seq::empty()
        },
        None => Seq::empty(),
    }
}

/// Relation targets, each added once over the whole graph.
pub open spec fn targets_acc(a: CompAcc, ts: Seq<Option<String>>) -> CompAcc
    decreases ts.len(),
{
    if ts.len() == 0 {
        a
    } else {
        let p = targets_acc(a, ts.drop_last());
        match ts.last() {
            Some(t) => if t@.len() > 0 && !p.seen.contains(t@) {
                CompAcc { comps: p.comps.push((t@, None, None)), seen: p.seen.insert(t@) }
            } else {
                p
            },
            None => p,
        }
    }
}

/// One entry of the graph.
pub open spec fn graph_entry_step(a: CompAcc, e: Option<FbComponent>) -> CompAcc {
    match e {
        None => a,
        Some(c) => if fb_alias(c).len() == 0 {
            a
        } else {
            targets_acc(
                CompAcc { comps: a.comps + fb_named(c) + seq![(fb_alias(c), fb_id(c), ov(c.parent_id))], seen: a.seen },
                c.relation_targets@,
            )
        },
    }
}

/// The entries `es`, in order.
pub open spec fn graph_acc(es: Seq<Option<FbComponent>>) -> CompAcc
    decreases es.len(),
{
    if es.len() == 0 {
        CompAcc { comps: Seq::empty(), seen: Set::empty() }
    } else {
        graph_entry_step(graph_acc(es.drop_last()), es.last())
    }
}

/// The non-empty source file of a component graph.
pub open spec fn graph_source(g: FbComponentGraph) -> Option<Seq<char>> {
    match g.source_file {
        Some(s) => if s@.len() > 0 {
            Some(s@)
        } else {
            None
        },
        None => None,
    }
}

/// The text `prefix`, then `path`.
fn message(prefix: &str, path: &str) -> (r: String)
    ensures
        r@ == prefix@ + path@,
{
    let mut v = chars_of(prefix);
    let pv = chars_of(path);
    push_all(&mut v, &pv);
    string_of(v.as_slice())
}

/// The components a component graph contributes to linking: each component
/// by its alias (else its name), with its identifier when that differs, and
/// its name too when it has an alias and a distinct name; and every relation
/// target, once. A graph without source file is an error.
pub fn component_diagram_info(path: &str, graph: &FbComponentGraph) -> (r: Result<DiagramInfo, String>)
    ensures
        match graph_source(*graph) {
            None => r matches Err(m) && m@ == "Missing source_file in FlatBuffer: "@ + path@,
            Some(f) => r matches Ok(d) && d.source_file@ == f && d.diagram_name is None && comp_views(
                d.components@,
            ) == graph_acc(graph.components@).comps,
        },
{
    let source_file = match &graph.source_file {
        Some(s) => {
            if s.as_str().is_empty() {
                return Err(message("Missing source_file in FlatBuffer: ", path));
            }
            s.clone()
        },
        None => {
            return Err(message("Missing source_file in FlatBuffer: ", path));
        },
    };
    let mut components: Vec<DiagramComponent> = Vec::new();
    let mut seen: Vec<String> = Vec::new();
    let mut i: usize = 0;
    while i < graph.components.len()
        invariant
            i <= graph.components@.len(),
            comp_views(components@) == graph_acc(graph.components@.subrange(0, i as int)).comps,
            path_set(seen@) == graph_acc(graph.components@.subrange(0, i as int)).seen,
        decreases graph.components@.len() - i,
    {
        proof {
            let s = graph.components@.subrange(0, i + 1);
            assert(s.drop_last() == graph.components@.subrange(0, i as int));
            assert(s.last() == graph.components@[i as int]);
        }
        match &graph.components[i] {
            None => {},
            Some(comp) => {
                let alias: String = match &comp.alias {
                    Some(a) => a.clone(),
                    None => match &comp.name {
                        Some(n) => n.clone(),
                        None => String::new(),
                    },
                };
                assert(alias@ == fb_alias(*comp));
                if !alias.as_str().is_empty() {
                    let id: Option<String> = match &comp.id {
                        Some(s) => if !s.as_str().is_empty() && *s != alias {
                            Some(s.clone())
                        } else {
                            None
                        },
                        None => None,
                    };
                    assert(ov(id) == fb_id(*comp));
                    let ghost base = comp_views(components@);
                    if comp.alias.is_some() {
                        match &comp.name {
                            Some(n) => {
                                if !n.as_str().is_empty() && *n != alias {
                                    push_comp(&mut components, n.clone(), None, copy_opt(&comp.parent_id));
                                }
                            },
                            None => {},
                        }
                    }
                    assert(comp_views(components@) == base + fb_named(*comp));
                    push_comp(&mut components, alias, id, copy_opt(&comp.parent_id));
                    let ghost prev = graph_acc(graph.components@.subrange(0, i as int));
                    let ghost start = CompAcc {
                        comps: prev.comps + fb_named(*comp) + seq![(fb_alias(*comp), fb_id(*comp), ov(comp.parent_id))],
                        seen: prev.seen,
                    };
                    assert(comp_views(components@) == start.comps);
                    let mut k: usize = 0;
                    while k < comp.relation_targets.len()
                        invariant
                            k <= comp.relation_targets@.len(),
                            comp_views(components@) == targets_acc(start, comp.relation_targets@.subrange(0, k as int)).comps,
                            path_set(seen@) == targets_acc(start, comp.relation_targets@.subrange(0, k as int)).seen,
                        decreases comp.relation_targets@.len() - k,
                    {
                        proof {
                            let s = comp.relation_targets@.subrange(0, k + 1);
                            assert(s.drop_last() == comp.relation_targets@.subrange(0, k as int));
                            assert(s.last() == comp.relation_targets@[k as int]);
                        }
                        match &comp.relation_targets[k] {
                            Some(t) => {
                                if !t.as_str().is_empty() && !list_contains(&seen, t) {
                                    push_comp(&mut components, t.clone(), None, None);
                                    let ghost before = seen@;
                                    seen.push(t.clone());
                                    proof {
                                        lemma_path_set_push(before, *t);
                                    }
                                }
                            },
                            None => {},
                        }
                        k = k + 1;
                    }
                    assert(comp.relation_targets@.subrange(0, comp.relation_targets@.len() as int) == comp.relation_targets@);
                }
            },
        }
        i = i + 1;
    }
    assert(graph.components@.subrange(0, graph.components@.len() as int) == graph.components@);
    Ok(DiagramInfo { source_file, diagram_name: None, components })
}

// ----- class diagrams -----

/// An entity of a decoded class diagram.
#[derive(Debug, Clone, PartialEq)]
pub struct FbEntity {
    pub name: String,
    pub id: String,
    pub enclosing_namespace_id: Option<String>,
    /// The targets of the relationships it holds.
    pub relationship_targets: Vec<String>,
}

/// A diagram-level relationship of a decoded class diagram.
#[derive(Debug, Clone, PartialEq)]
pub struct FbRelationship {
    pub source: String,
    pub target: String,
}

/// A decoded class diagram.
#[derive(Debug, Clone, PartialEq)]
pub struct FbClassDiagram {
    pub source_files: Option<Vec<String>>,
    pub name: String,
    pub entities: Option<Vec<FbEntity>>,
    pub relationships: Option<Vec<FbRelationship>>,
}

/// The first non-empty string of `v`.
pub open spec fn first_nonempty(v: Seq<String>) -> Option<Seq<char>>
    decreases v.len(),
{
    if v.len() == 0 {
        None
    } else if v[0]@.len() > 0 {
        Some(v[0]@)
    } else {
        first_nonempty(v.drop_first())
    }
}

/// The source file of a diagram: the first non-empty of its source files.
pub open spec fn files_source(files: Option<Vec<String>>) -> Option<Seq<char>> {
    match files {
        Some(v) => first_nonempty(v@),
        None => None,
    }
}

/// A plain component named `n`, when `n` is not empty.
pub open spec fn plain_comp(n: Seq<char>) -> Seq<CompView> {
    if n.len() > 0 {
        seq![(n, None::<Seq<char>>, None::<Seq<char>>)]
    } else {
        Seq::empty()
    }
}

/// The non-empty relationship targets `ts`, as plain components.
pub open spec fn target_comps(ts: Seq<String>) -> Seq<CompView>
    decreases ts.len(),
{
    if ts.len() == 0 {
        Seq::empty()
    } else {
        target_comps(ts.drop_last()) + plain_comp(ts.last()@)
    }
}

/// The components of a named entity: itself (its id when that differs from
/// its name, its namespace as parent), then its relationship targets.
pub open spec fn entity_comps(e: FbEntity) -> Seq<CompView> {
    if e.name@.len() == 0 {
        Seq::empty()
    } else {
        seq![(
            e.name@,
            if e.id@.len() > 0 && e.id@ != e.name@ {
                Some(e.id@)
            } else {
                None
            },
            ov(e.enclosing_namespace_id),
        )] + target_comps(e.relationship_targets@)
    }
}

/// The components of the entities `es`, in order.
pub open spec fn entities_comps(es: Seq<FbEntity>) -> Seq<CompView>
    decreases es.len(),
{
    if es.len() == 0 {
        Seq::empty()
    } else {
        entities_comps(es.drop_last()) + entity_comps(es.last())
    }
}

/// The components of diagram-level relationships: target, then source.
pub open spec fn relationship_comps(rs: Seq<FbRelationship>) -> Seq<CompView>
    decreases rs.len(),
{
    if rs.len() == 0 {
        Seq::empty()
    } else {
        relationship_comps(rs.drop_last()) + plain_comp(rs.last().target@) + plain_comp(rs.last().source@)
    }
}

/// All components of a class diagram.
pub open spec fn class_comps(d: FbClassDiagram) -> Seq<CompView> {
    (match d.entities {
        Some(es) => entities_comps(es@),
        None => Seq::empty(),
    }) + match d.relationships {
        Some(rs) => relationship_comps(rs@),
        None => Seq::empty(),
    }
}

/// The diagram name, a link target unless empty or the source file itself.
pub open spec fn class_name(d: FbClassDiagram, source: Seq<char>) -> Option<Seq<char>> {
    if d.name@.len() > 0 && d.name@ != source {
        Some(d.name@)
    } else {
        None
    }
}

/// The first non-empty string of `v`, copied.
fn first_nonempty_of(v: &Vec<String>) -> (r: Option<String>)
    ensures
        ov(r) == first_nonempty(v@),
{
    let mut i: usize = 0;
    assert(v@.subrange(0, v@.len() as int) == v@);
    while i < v.len()
        invariant
            i <= v@.len(),
            first_nonempty(v@) == first_nonempty(v@.subrange(i as int, v@.len() as int)),
        decreases v@.len() - i,
    {
        let ghost rest = v@.subrange(i as int, v@.len() as int);
        assert(rest[0] == v@[i as int]);
        if !v[i].as_str().is_empty() {
            return Some(v[i].clone());
        }
        assert(rest.drop_first() == v@.subrange(i + 1, v@.len() as int));
        i = i + 1;
    }
    None
}

/// Appends `n` as a plain component, when not empty.
fn push_plain(v: &mut Vec<DiagramComponent>, n: &String)
    ensures
        comp_views(final(v)@) == comp_views(old(v)@) + plain_comp(n@),
{
    if !n.as_str().is_empty() {
        push_comp(v, n.clone(), None, None);
    } else {
        assert(comp_views(v@) == comp_views(v@) + Seq::<CompView>::empty());
    }
}

/// The components a class diagram contributes to linking: each named entity
/// (with its id when that differs from its name, its namespace as parent)
/// followed by its relationship targets, then the targets and sources of the
/// diagram-level relationships. Its name is a link target too, unless empty
/// or the source file. A diagram without source file is an error.
pub fn class_diagram_info(path: &str, diagram: &FbClassDiagram) -> (r: Result<DiagramInfo, String>)
    ensures
        match files_source(diagram.source_files) {
            None => r matches Err(m) && m@ == "Missing source_files in class FlatBuffer: "@ + path@,
            Some(f) => r matches Ok(d) && d.source_file@ == f && ov(d.diagram_name) == class_name(*diagram, f)
                && comp_views(d.components@) == class_comps(*diagram),
        },
{
    let source_file = match &diagram.source_files {
        Some(v) => match first_nonempty_of(v) {
            Some(s) => s,
            None => {
                return Err(message("Missing source_files in class FlatBuffer: ", path));
            },
        },
        None => {
            return Err(message("Missing source_files in class FlatBuffer: ", path));
        },
    };
    let diagram_name = if !diagram.name.as_str().is_empty() && diagram.name != source_file {
        Some(diagram.name.clone())
    } else {
        None
    };
    let mut components: Vec<DiagramComponent> = Vec::new();
    match &diagram.entities {
        Some(es) => {
            let mut i: usize = 0;
            while i < es.len()
                invariant
                    i <= es@.len(),
                    comp_views(components@) == entities_comps(es@.subrange(0, i as int)),
                decreases es@.len() - i,
            {
                let e = &es[i];
                let ghost before = comp_views(components@);
                if !e.name.as_str().is_empty() {
                    let id = if !e.id.as_str().is_empty() && e.id != e.name {
                        Some(e.id.clone())
                    } else {
                        None
                    };
                    push_comp(&mut components, e.name.clone(), id, copy_opt(&e.enclosing_namespace_id));
                    let ghost mid = comp_views(components@);
                    let mut k: usize = 0;
                    while k < e.relationship_targets.len()
                        invariant
                            k <= e.relationship_targets@.len(),
                            comp_views(components@) == mid + target_comps(e.relationship_targets@.subrange(0, k as int)),
                        decreases e.relationship_targets@.len() - k,
                    {
                        push_plain(&mut components, &e.relationship_targets[k]);
                        proof {
                            let s = e.relationship_targets@.subrange(0, k + 1);
                            assert(s.drop_last() == e.relationship_targets@.subrange(0, k as int));
                        }
                        k = k + 1;
                    }
                    assert(e.relationship_targets@.subrange(0, e.relationship_targets@.len() as int)
                        == e.relationship_targets@);
                }
                proof {
                    let s = es@.subrange(0, i + 1);
                    assert(s.drop_last() == es@.subrange(0, i as int));
                    assert(s.last() == *e);
                }
                i = i + 1;
            }
            assert(es@.subrange(0, es@.len() as int) == es@);
        },
        None => {},
    }
    let ghost ents = comp_views(components@);
    match &diagram.relationships {
        Some(rs) => {
            let mut i: usize = 0;
            while i < rs.len()
                invariant
                    i <= rs@.len(),
                    comp_views(components@) == ents + relationship_comps(rs@.subrange(0, i as int)),
                decreases rs@.len() - i,
            {
                push_plain(&mut components, &rs[i].target);
                push_plain(&mut components, &rs[i].source);
                proof {
                    let s = rs@.subrange(0, i + 1);
                    assert(s.drop_last() == rs@.subrange(0, i as int));
                    assert(s.last() == rs@[i as int]);
                }
                i = i + 1;
            }
            assert(rs@.subrange(0, rs@.len() as int) == rs@);
        },
        None => {
            assert(comp_views(components@) == ents + Seq::<CompView>::empty());
        },
    }
    Ok(DiagramInfo { source_file, diagram_name, components })
}

// ----- sequence diagrams -----

/// What a node of a decoded sequence diagram records.
#[derive(Debug, Clone, PartialEq)]
pub enum FbEvent {
    Interaction { caller: String, callee: String },
    Return { caller: String, callee: String },
    Other,
}

/// A node of a decoded sequence diagram, with the nodes of its branches.
#[derive(Debug, PartialEq)]
pub struct FbSequenceNode {
    pub event: FbEvent,
    pub branches: Option<Vec<FbSequenceNode>>,
}

/// A decoded sequence diagram.
#[derive(Debug, PartialEq)]
pub struct FbSequenceDiagram {
    pub source_files: Option<Vec<String>>,
    pub name: Option<String>,
    pub root_interactions: Option<Vec<FbSequenceNode>>,
}

/// `ps` with `n` added, unless empty or present.
pub open spec fn add_participant(ps: Seq<Seq<char>>, n: Seq<char>) -> Seq<Seq<char>> {
    if n.len() > 0 && !ps.contains(n) {
        ps.push(n)
    } else {
        ps
    }
}

/// `ps` with the caller and callee of a node, then the participants of its branches.
pub open spec fn node_participants(ps: Seq<Seq<char>>, n: FbSequenceNode) -> Seq<Seq<char>>
    decreases n,
{
    let ps1 = match n.event {
        FbEvent::Interaction { caller, callee } => add_participant(add_participant(ps, caller@), callee@),
        FbEvent::Return { caller, callee } => add_participant(add_participant(ps, caller@), callee@),
        FbEvent::Other => ps,
    };
    match n.branches {
        Some(bs) => nodes_participants(ps1, bs@),
        None => ps1,
    }
}

/// `ps` with the participants of the nodes `ns`, in order.
pub open spec fn nodes_participants(ps: Seq<Seq<char>>, ns: Seq<FbSequenceNode>) -> Seq<Seq<char>>
    decreases ns,
{
    if ns.len() == 0 {
        ps
    } else {
        node_participants(nodes_participants(ps, ns.drop_last()), ns.last())
    }
}

/// Adds a participant, unless empty or present.
fn add_name(ps: &mut Vec<String>, n: &String)
    ensures
        paths_view(final(ps)@) == add_participant(paths_view(old(ps)@), n@),
{
    if !n.as_str().is_empty() && !list_contains(ps, n) {
        let ghost before = ps@;
        ps.push(n.clone());
        assert(paths_view(ps@) == paths_view(before).push(n@));
    }
}

/// Collects the callers and callees of the nodes `ns` and their branches.
fn collect_sequence_participants(ns: &Vec<FbSequenceNode>, ps: &mut Vec<String>)
    ensures
        paths_view(final(ps)@) == nodes_participants(paths_view(old(ps)@), ns@),
    decreases ns,
{
    let ghost start = paths_view(ps@);
    let mut i: usize = 0;
    while i < ns.len()
        invariant
            i <= ns@.len(),
            paths_view(ps@) == nodes_participants(start, ns@.subrange(0, i as int)),
        decreases ns@.len() - i,
    {
        proof {
            assert(decreases_to!(*ns => ns@[i as int]));
            let s = ns@.subrange(0, i + 1);
            assert(s.drop_last() == ns@.subrange(0, i as int));
            assert(s.last() == ns@[i as int]);
        }
        collect_node_participants(&ns[i], ps);
        i = i + 1;
    }
    assert(ns@.subrange(0, ns@.len() as int) == ns@);
}

/// Collects the caller and callee of a node, then those of its branches.
fn collect_node_participants(n: &FbSequenceNode, ps: &mut Vec<String>)
    ensures
        paths_view(final(ps)@) == node_participants(paths_view(old(ps)@), *n),
    decreases n,
{
    match &n.event {
        FbEvent::Interaction { caller, callee } => {
            add_name(ps, caller);
            add_name(ps, callee);
        },
        FbEvent::Return { caller, callee } => {
            add_name(ps, caller);
            add_name(ps, callee);
        },
        FbEvent::Other => {},
    }
    match &n.branches {
        Some(bs) => collect_sequence_participants(bs, ps),
        None => {},
    }
}

/// The name of a sequence diagram, a link target unless empty or the source file.
pub open spec fn sequence_name(d: FbSequenceDiagram, source: Seq<char>) -> Option<Seq<char>> {
    match d.name {
        Some(n) => if n@.len() > 0 && n@ != source {
            Some(n@)
        } else {
            None
        },
        None => None,
    }
}

/// The participants of a sequence diagram, each once, in order of appearance.
pub open spec fn sequence_participants(d: FbSequenceDiagram) -> Seq<Seq<char>> {
    match d.root_interactions {
        Some(ns) => nodes_participants(Seq::empty(), ns@),
        None => Seq::empty(),
    }
}

/// The components a sequence diagram contributes to linking: each caller and
/// callee of its interactions and returns, once, as a top-level component.
/// Its name is a link target too, unless empty or the source file. A diagram
/// without source file is an error.
pub fn sequence_diagram_info(path: &str, diagram: &FbSequenceDiagram) -> (r: Result<DiagramInfo, String>)
    ensures
        match files_source(diagram.source_files) {
            None => r matches Err(m) && m@ == "Missing source_files in sequence FlatBuffer: "@ + path@,
            Some(f) => r matches Ok(d) && d.source_file@ == f && ov(d.diagram_name) == sequence_name(*diagram, f)
                && comp_views(d.components@) == sequence_participants(*diagram).map_values(
                |n: Seq<char>| (n, None::<Seq<char>>, None::<Seq<char>>),
            ),
        },
{
    let source_file = match &diagram.source_files {
        Some(v) => match first_nonempty_of(v) {
            Some(s) => s,
            None => {
                return Err(message("Missing source_files in sequence FlatBuffer: ", path));
            },
        },
        None => {
            return Err(message("Missing source_files in sequence FlatBuffer: ", path));
        },
    };
    let diagram_name = match &diagram.name {
        Some(n) => if !n.as_str().is_empty() && *n != source_file {
            Some(n.clone())
        } else {
            None
        },
        None => None,
    };
    let mut participants: Vec<String> = Vec::new();
    match &diagram.root_interactions {
        Some(ns) => {
            collect_sequence_participants(ns, &mut participants);
            assert(paths_view(Seq::<String>::empty()) == Seq::<Seq<char>>::empty());
        },
        None => {},
    }
    let ghost names = paths_view(participants@);
    let mut components: Vec<DiagramComponent> = Vec::new();
    let mut i: usize = 0;
    while i < participants.len()
        invariant
            i <= participants@.len(),
            names == paths_view(participants@),
            comp_views(components@) == names.subrange(0, i as int).map_values(
                |n: Seq<char>| (n, None::<Seq<char>>, None::<Seq<char>>),
            ),
        decreases participants@.len() - i,
    {
        push_comp(&mut components, participants[i].clone(), None, None);
        assert(names.subrange(0, i + 1) == names.subrange(0, i as int).push(names[i as int]));
        i = i + 1;
    }
    assert(names.subrange(0, names.len() as int) == names);
    Ok(DiagramInfo { source_file, diagram_name, components })
}

// ----- buffers -----

/// The kinds of diagram a serialized buffer can hold.
#[derive(Debug, Clone, Copy, PartialEq, Eq, Structural)]
pub enum DiagramKind {
    Component,
    Class,
    Sequence,
}

/// What `String::from_utf8_lossy` makes of bytes: the text they encode, each
/// invalid sequence replaced by U+FFFD.
pub uninterp spec fn utf8_lossy(bytes: Seq<u8>) -> Seq<char>;

/// The text of `bytes` (`String::from_utf8_lossy`). ASCII bytes stand for
/// their characters.
#[verifier::external_body]
fn lossy_text(bytes: &[u8]) -> (r: String)
    ensures
        r@ == utf8_lossy(bytes@),
        (forall|i: int| 0 <= i < bytes@.len() ==> bytes@[i] < 128) ==> r@ == bytes@.map_values(|b: u8| b as char),
{
    String::from_utf8_lossy(bytes).into_owned()
}

/// The identifier of a buffer: bytes 4 to 8, or none when it is shorter.
pub open spec fn file_id(data: Seq<u8>) -> Seq<u8> {
    if data.len() >= 8 {
        data.subrange(4, 8)
    } else {
        Seq::empty()
    }
}

/// The kind an identifier names, if any.
pub open spec fn kind_of_id(id: Seq<u8>) -> Option<DiagramKind> {
    if id == seq![67u8, 79u8, 77u8, 80u8] {
        Some(DiagramKind::Component)
    } else if id == seq![67u8, 76u8, 83u8, 68u8] {
        Some(DiagramKind::Class)
    } else if id == seq![83u8, 69u8, 81u8, 68u8] {
        Some(DiagramKind::Sequence)
    } else {
        None
    }
}

/// The identifiers read as ASCII text: `COMP` names a component diagram,
/// `CLSD` a class diagram and `SEQD` a sequence diagram; no other
/// identifier names a kind.
pub proof fn lemma_diagram_identifiers(id: Seq<u8>)
    ensures
        kind_of_id(id) == Some(DiagramKind::Component) <==> id == seq!['C' as u8, 'O' as u8, 'M' as u8, 'P' as u8],
        kind_of_id(id) == Some(DiagramKind::Class) <==> id == seq!['C' as u8, 'L' as u8, 'S' as u8, 'D' as u8],
        kind_of_id(id) == Some(DiagramKind::Sequence) <==> id == seq!['S' as u8, 'E' as u8, 'Q' as u8, 'D' as u8],
        kind_of_id(id) is None <==> !(id == seq!['C' as u8, 'O' as u8, 'M' as u8, 'P' as u8] || id == seq![
            'C' as u8,
            'L' as u8,
            'S' as u8,
            'D' as u8,
        ] || id == seq!['S' as u8, 'E' as u8, 'Q' as u8, 'D' as u8]),
{
    assert(seq!['C' as u8, 'O' as u8, 'M' as u8, 'P' as u8] =~= seq![67u8, 79u8, 77u8, 80u8]);
    assert(seq!['C' as u8, 'L' as u8, 'S' as u8, 'D' as u8] =~= seq![67u8, 76u8, 83u8, 68u8]);
    assert(seq!['S' as u8, 'E' as u8, 'Q' as u8, 'D' as u8] =~= seq![83u8, 69u8, 81u8, 68u8]);
    assert(seq![67u8, 79u8, 77u8, 80u8] != seq![67u8, 76u8, 83u8, 68u8]) by {
        assert(seq![67u8, 79u8, 77u8, 80u8][1] != seq![67u8, 76u8, 83u8, 68u8][1]);
    }
    assert(seq![67u8, 79u8, 77u8, 80u8] != seq![83u8, 69u8, 81u8, 68u8]) by {
        assert(seq![67u8, 79u8, 77u8, 80u8][0] != seq![83u8, 69u8, 81u8, 68u8][0]);
    }
    assert(seq![67u8, 76u8, 83u8, 68u8] != seq![83u8, 69u8, 81u8, 68u8]) by {
        assert(seq![67u8, 76u8, 83u8, 68u8][0] != seq![83u8, 69u8, 81u8, 68u8][0]);
    }
}

/// Which kind of diagram the buffer `data` read from `path` holds, by its
/// identifier (`COMP`, `CLSD` or `SEQD`); an empty buffer is a placeholder,
/// and another identifier is unsupported.
pub fn diagram_kind(path: &str, data: &[u8]) -> (r: Result<DiagramKind, String>)
    ensures
        data@.len() == 0 ==> (r matches Err(m) && m@ == "Empty file (placeholder): "@ + path@),
        data@.len() > 0 ==> match kind_of_id(file_id(data@)) {
            Some(k) => r == Ok::<DiagramKind, String>(k),
            None => r matches Err(m) && m@ == "Unsupported FlatBuffer type '"@ + utf8_lossy(file_id(data@)) + "': "@
                + path@,
        },
{
    if data.len() == 0 {
        return Err(message("Empty file (placeholder): ", path));
    }
    let ghost id = file_id(data@);
    if data.len() >= 8 {
        let a = data[4];
        let b = data[5];
        let c = data[6];
        let d = data[7];
        assert(id == seq![a, b, c, d]);
        if a == 67 && b == 79 && c == 77 && d == 80 {
            return Ok(DiagramKind::Component);
        } else if a == 67 && b == 76 && c == 83 && d == 68 {
            return Ok(DiagramKind::Class);
        } else if a == 83 && b == 69 && c == 81 && d == 68 {
            return Ok(DiagramKind::Sequence);
        }
    }
    let mut idv: Vec<u8> = Vec::new();
    if data.len() >= 8 {
        idv.push(data[4]);
        idv.push(data[5]);
        idv.push(data[6]);
        idv.push(data[7]);
    }
    assert(idv@ == id);
    let s = lossy_text(idv.as_slice());
    let mut m = chars_of("Unsupported FlatBuffer type '");
    let sv = chars_of(s.as_str());
    push_all(&mut m, &sv);
    let t = chars_of("': ");
    push_all(&mut m, &t);
    let pv = chars_of(path);
    push_all(&mut m, &pv);
    Err(string_of(m.as_slice()))
}

} // verus!

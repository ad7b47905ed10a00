//! Relationships between the classes of a visit: inheritance from base
//! classes, and the associations, compositions, aggregations and dependencies
//! that member and method types imply.
use vstd::prelude::*;
use crate::cpp::resolved_type::{non_owning, opt_str_view, referenced_entity, relationship_target, ResolvedType};
use crate::diagram_model::{EntityType, RelationType, Relationship, SimpleEntity};
use crate::linker_input::{ov, copy_opt};
use crate::source_location::SourceLocation;
use crate::text::{chars_of, chars_eq, contains_chars, contains_seq, occurs_at, string_of, push_all, copy_range, matches_at};
use crate::visitor::context::{ParsedBaseClass, ParsedClassInfo, ParsedMethodType, ParsedVariableType, VisitContext};

verus! {

/// The content of a relationship.
pub struct RelView {
    pub source: Seq<char>,
    pub target: Seq<char>,
    pub relation_type: RelationType,
    pub source_multiplicity: Option<Seq<char>>,
    pub target_multiplicity: Option<Seq<char>>,
    pub file: Seq<char>,
    pub line: u32,
}

/// The content of a relationship.
pub open spec fn rel_view(r: Relationship) -> RelView {
    RelView {
        source: r.source@,
        target: r.target@,
        relation_type: r.relation_type,
        source_multiplicity: ov(r.source_multiplicity),
        target_multiplicity: ov(r.target_multiplicity),
        file: r.source_location.file@,
        line: r.source_location.line,
    }
}

/// The contents of a sequence of relationships.
pub open spec fn rel_views(rs: Seq<Relationship>) -> Seq<RelView> {
    rs.map_values(|r: Relationship| rel_view(r))
}

/// What the resolution reads of a type map: each entry's type name and the
/// kind of its entity.
pub type TypeKeys = Seq<(Seq<char>, EntityType)>;

/// The names and entity kinds of the entries of a type map.
pub open spec fn type_keys(types: Seq<(String, SimpleEntity)>) -> TypeKeys {
    types.map_values(|p: (String, SimpleEntity)| (p.0@, p.1.entity_type))
}

/// The first entry of `types` from `i` on whose name is `key`.
pub open spec fn key_from(types: TypeKeys, key: Seq<char>, i: int) -> Option<int>
    decreases types.len() - i,
{
    if i < 0 || i >= types.len() {
        None
    } else if types[i].0 == key {
        Some(i)
    } else {
        key_from(types, key, i + 1)
    }
}

/// The entry named `key`, if any.
pub open spec fn key_index(types: TypeKeys, key: Seq<char>) -> Option<int> {
    key_from(types, key, 0)
}

/// The scope separator `::`.
pub open spec fn scope_sep() -> Seq<char> {
    seq![':', ':']
}

/// The last position at or before `i` where `::` starts in `s`.
pub open spec fn last_sep(s: Seq<char>, i: int) -> Option<int>
    decreases i + 1,
{
    if i < 0 {
        None
    } else if occurs_at(s, scope_sep(), i) {
        Some(i)
    } else {
        last_sep(s, i - 1)
    }
}

/// A name that is not known as such, looked up in namespace `ns` and then
/// in each enclosing namespace: the first `<namespace>::<raw>` known.
pub open spec fn search_namespaces(types: TypeKeys, ns: Seq<char>, raw: Seq<char>) -> Option<Seq<char>>
    decreases ns.len(),
{
    let candidate = ns + scope_sep() + raw;
    if key_index(types, candidate) is Some {
        Some(candidate)
    } else {
        match last_sep(ns, ns.len() - 2) {
            Some(j) => if 0 <= j < ns.len() {
                search_namespaces(types, ns.subrange(0, j), raw)
            } else {
                None
            },
            None => None,
        }
    }
}

/// The class a relationship target names in the model: the name itself when
/// known, else, for an unqualified name, the nearest known one from the
/// class's namespace outwards.
pub open spec fn in_model_target(types: TypeKeys, ns: Option<Seq<char>>, raw: Seq<char>) -> Option<Seq<char>> {
    if key_index(types, raw) is Some {
        Some(raw)
    } else if !contains_seq(raw, scope_sep()) && ns is Some {
        search_namespaces(types, ns->Some_0, raw)
    } else {
        None
    }
}

/// Whether two relationships are the same but for where they are declared.
pub open spec fn same_relation(a: RelView, b: RelView) -> bool {
    &&& a.source == b.source
    &&& a.target == b.target
    &&& a.relation_type == b.relation_type
    &&& a.source_multiplicity == b.source_multiplicity
    &&& a.target_multiplicity == b.target_multiplicity
}

/// The relationship from class `cid` to `target`, without multiplicities.
pub open spec fn new_relation(cid: Seq<char>, target: Seq<char>, ty: RelationType, loc: SourceLocation) -> RelView {
    RelView {
        source: cid,
        target,
        relation_type: ty,
        source_multiplicity: None,
        target_multiplicity: None,
        file: loc.file@,
        line: loc.line,
    }
}

/// `rs` with the relationship from `cid` to `target` added, unless it points
/// at the class itself or is already there.
pub open spec fn add_relation(rs: Seq<RelView>, cid: Seq<char>, target: Seq<char>, ty: RelationType, loc: SourceLocation) -> Seq<
    RelView,
> {
    let n = new_relation(cid, target, ty, loc);
    if target == cid || exists|i: int| 0 <= i < rs.len() && same_relation(#[trigger] rs[i], n) {
        rs
    } else {
        rs.push(n)
    }
}

/// One base class: an inheritance (an implementation, of an interface) when
/// it names a class of the model.
pub open spec fn base_step(types: TypeKeys, cid: Seq<char>, rs: Seq<RelView>, base: ParsedBaseClass) -> Seq<RelView> {
    match referenced_entity(base.resolved_type) {
        None => rs,
        Some(rb) => match key_index(types, rb) {
            None => rs,
            Some(t) => add_relation(
                rs,
                cid,
                rb,
                if types[t].1 == EntityType::Interface {
                    RelationType::Implementation
                } else {
                    RelationType::Inheritance
                },
                base.source_location,
            ),
        },
    }
}

/// The base classes `bs`, in order.
pub open spec fn bases_rels(types: TypeKeys, cid: Seq<char>, rs: Seq<RelView>, bs: Seq<ParsedBaseClass>) -> Seq<RelView>
    decreases bs.len(),
{
    if bs.len() == 0 {
        rs
    } else {
        base_step(types, cid, bases_rels(types, cid, rs, bs.drop_last()), bs.last())
    }
}

/// One type used by the class: a relationship to the class it targets in the
/// model, of the non-owning kind for pointers, references and views.
pub open spec fn type_step(
    types: TypeKeys,
    cid: Seq<char>,
    ns: Option<Seq<char>>,
    rs: Seq<RelView>,
    t: ResolvedType,
    non_owning_rel: RelationType,
    owning_rel: RelationType,
    loc: SourceLocation,
) -> Seq<RelView> {
    match relationship_target(t) {
        None => rs,
        Some(raw) => match in_model_target(types, ns, raw) {
            None => rs,
            Some(target) => add_relation(
                rs,
                cid,
                target,
                if non_owning(t) {
                    non_owning_rel
                } else {
                    owning_rel
                },
                loc,
            ),
        },
    }
}

/// The member variables `vs`: aggregations, or compositions when owned.
pub open spec fn vars_rels(types: TypeKeys, cid: Seq<char>, ns: Option<Seq<char>>, rs: Seq<RelView>, vs: Seq<ParsedVariableType>) -> Seq<
    RelView,
>
    decreases vs.len(),
{
    if vs.len() == 0 {
        rs
    } else {
        let v = vs.last();
        type_step(
            types,
            cid,
            ns,
            vars_rels(types, cid, ns, rs, vs.drop_last()),
            v.resolved_type,
            RelationType::Aggregation,
            RelationType::Composition,
            v.source_location,
        )
    }
}

/// The parameter types `ts` of a method declared at `loc`.
pub open spec fn params_rels(
    types: TypeKeys,
    cid: Seq<char>,
    ns: Option<Seq<char>>,
    rs: Seq<RelView>,
    ts: Seq<ResolvedType>,
    loc: SourceLocation,
) -> Seq<RelView>
    decreases ts.len(),
{
    if ts.len() == 0 {
        rs
    } else {
        type_step(
            types,
            cid,
            ns,
            params_rels(types, cid, ns, rs, ts.drop_last(), loc),
            ts.last(),
            RelationType::Dependency,
            RelationType::Association,
            loc,
        )
    }
}

/// The methods `ms`: each its return type, then its parameter types;
/// dependencies, or associations when owned.
pub open spec fn methods_rels(types: TypeKeys, cid: Seq<char>, ns: Option<Seq<char>>, rs: Seq<RelView>, ms: Seq<ParsedMethodType>) -> Seq<
    RelView,
>
    decreases ms.len(),
{
    if ms.len() == 0 {
        rs
    } else {
        let m = ms.last();
        let after_return = type_step(
            types,
            cid,
            ns,
            methods_rels(types, cid, ns, rs, ms.drop_last()),
            m.return_type,
            RelationType::Dependency,
            RelationType::Association,
            m.source_location,
        );
        params_rels(types, cid, ns, after_return, m.parameter_types@, m.source_location)
    }
}

/// What one class's gathered information adds to its relationships `rs`.
pub open spec fn builder_rels(types: TypeKeys, e: SimpleEntity, rs: Seq<RelView>, b: ParsedClassInfo) -> Seq<RelView> {
    let cid = e.id@;
    let ns = ov(e.enclosing_namespace_id);
    methods_rels(
        types,
        cid,
        ns,
        vars_rels(types, cid, ns, bases_rels(types, cid, rs, b.base_classes@), b.variable_types@),
        b.method_types@,
    )
}

/// The relationships of entry `k` once the information `bs` is resolved, in
/// order: each applies to the first entry named by its class id.
pub open spec fn class_rels(types: Seq<(String, SimpleEntity)>, bs: Seq<ParsedClassInfo>, k: int) -> Seq<RelView>
    decreases bs.len(),
{
    if bs.len() == 0 {
        rel_views(types[k].1.relationships@)
    } else {
        let p = class_rels(types, bs.drop_last(), k);
        if key_index(type_keys(types), bs.last().id@) == Some(k) {
            builder_rels(type_keys(types), types[k].1, p, bs.last())
        } else {
            p
        }
    }
}

/// A found entry is named by the key.
proof fn lemma_key_from(types: TypeKeys, key: Seq<char>, i: int)
    ensures
        key_from(types, key, i) matches Some(j) ==> 0 <= i <= j < types.len() && types[j].0 == key,
    decreases types.len() - i,
{
    if 0 <= i < types.len() && types[i].0 != key {
        lemma_key_from(types, key, i + 1);
    }
}

/// The first entry of `types` named `key`.
pub(crate) fn find_type(types: &Vec<(String, SimpleEntity)>, key: &[char]) -> (r: Option<usize>)
    ensures
        match key_index(type_keys(types@), key@) {
            Some(i) => r matches Some(j) && j as int == i,
            None => r is None,
        },
        r matches Some(j) ==> j < types@.len() && types@[j as int].0@ == key@,
{
    proof {
        lemma_key_from(type_keys(types@), key@, 0);
    }
    let ghost keys = type_keys(types@);
    let mut i: usize = 0;
    while i < types.len()
        invariant
            i <= types@.len(),
            keys == type_keys(types@),
            key_index(keys, key@) == key_from(keys, key@, i as int),
        decreases types@.len() - i,
    {
        let name = chars_of(types[i].0.as_str());
        assert(keys[i as int].0 == types@[i as int].0@);
        if chars_eq(name.as_slice(), key) {
            return Some(i);
        }
        i = i + 1;
    }
    None
}

/// A copy of a location.
fn copy_location(l: &SourceLocation) -> (r: SourceLocation)
    ensures
        r == *l,
{
    SourceLocation { file: l.file.clone(), line: l.line }
}

/// Adds the relationship from class `class_id` to `target`, unless it points
/// at the class itself or is already there (see `add_relation`).
fn add_relationship(
    rels: &mut Vec<Relationship>,
    class_id: &String,
    target: String,
    relation_type: RelationType,
    source_location: &SourceLocation,
)
    ensures
        rel_views(final(rels)@) == add_relation(rel_views(old(rels)@), class_id@, target@, relation_type, *source_location),
{
    let ghost n = new_relation(class_id@, target@, relation_type, *source_location);
    if target == *class_id {
        return;
    }
    let mut j: usize = 0;
    while j < rels.len()
        invariant
            j <= rels@.len(),
            n == new_relation(class_id@, target@, relation_type, *source_location),
            forall|m: int| 0 <= m < j ==> !same_relation(#[trigger] rel_views(rels@)[m], n),
        decreases rels@.len() - j,
    {
        let e = &rels[j];
        assert(rel_views(rels@)[j as int] == rel_view(*e));
        if e.source == *class_id && e.target == target && e.relation_type == relation_type
            && e.source_multiplicity.is_none() && e.target_multiplicity.is_none() {
            assert(same_relation(rel_views(rels@)[j as int], n));
            return;
        }
        j = j + 1;
    }
    let ghost before = rels@;
    rels.push(
        Relationship {
            source: class_id.clone(),
            target,
            relation_type,
            source_multiplicity: None,
            target_multiplicity: None,
            source_location: copy_location(source_location),
        },
    );
    assert(rel_views(rels@) == rel_views(before).push(rel_view(rels@.last())));
}

/// A found separator lies within the searched range.
proof fn lemma_last_sep(s: Seq<char>, i: int)
    ensures
        last_sep(s, i) matches Some(j) ==> 0 <= j <= i && occurs_at(s, scope_sep(), j),
    decreases i + 1,
{
    if i >= 0 && !occurs_at(s, scope_sep(), i) {
        lemma_last_sep(s, i - 1);
    }
}

/// Where the last `::` of `s` starts (`str::rsplit_once("::")`).
fn last_separator(s: &[char]) -> (r: Option<usize>)
    ensures
        match last_sep(s@, s@.len() - 2) {
            Some(j) => r == Some(j as usize),
            None => r is None,
        },
{
    if s.len() < 2 {
        assert(last_sep(s@, s@.len() - 2) is None);
        return None;
    }
    let sep: [char; 2] = [':', ':'];
    assert(sep@ == scope_sep());
    let mut i: usize = s.len() - 2;
    loop
        invariant
            i + 2 <= s@.len(),
            sep@ == scope_sep(),
            last_sep(s@, s@.len() - 2) == last_sep(s@, i as int),
        decreases i,
    {
        if matches_at(s, i, sep.as_slice()) {
            return Some(i);
        }
        if i == 0 {
            assert(last_sep(s@, -1) is None);
            return None;
        }
        i = i - 1;
    }
}

/// The class `raw` names in the model, seen from a class in namespace `ns`
/// (see `in_model_target`).
fn resolve_in_model_target(types: &Vec<(String, SimpleEntity)>, ns: &Option<String>, raw: &[char]) -> (r: Option<
    Vec<char>,
>)
    ensures
        match in_model_target(type_keys(types@), ov(*ns), raw@) {
            Some(t) => r matches Some(v) && v@ == t,
            None => r is None,
        },
{
    let ghost keys = type_keys(types@);
    if find_type(types, raw).is_some() {
        return Some(copy_range(raw, 0, raw.len()));
    }
    let sep: [char; 2] = [':', ':'];
    assert(sep@ == scope_sep());
    if contains_chars(raw, sep.as_slice()) {
        return None;
    }
    match ns {
        None => None,
        Some(n) => {
            let mut cur = chars_of(n.as_str());
            loop
                invariant
                    keys == type_keys(types@),
                    sep@ == scope_sep(),
                    search_namespaces(keys, n@, raw@) == search_namespaces(keys, cur@, raw@),
                    key_index(keys, raw@) is None,
                    !contains_seq(raw@, scope_sep()),
                    ov(*ns) == Some(n@),
                decreases cur@.len(),
            {
                let mut candidate = copy_range(cur.as_slice(), 0, cur.len());
                push_all(&mut candidate, sep.as_slice());
                push_all(&mut candidate, raw);
                assert(cur@.subrange(0, cur@.len() as int) == cur@);
                assert(candidate@ == cur@ + scope_sep() + raw@);
                if find_type(types, candidate.as_slice()).is_some() {
                    assert(search_namespaces(keys, cur@, raw@) == Some(candidate@));
                    return Some(candidate);
                }
                proof {
                    lemma_last_sep(cur@, cur@.len() - 2);
                }
                match last_separator(cur.as_slice()) {
                    Some(j) => {
                        cur = copy_range(cur.as_slice(), 0, j);
                    },
                    None => {
                        assert(search_namespaces(keys, cur@, raw@) is None);
                        return None;
                    },
                }
            }
        },
    }
}

/// Adds the relationship a type used by the class implies (see `type_step`).
fn add_relationship_from_resolved_type(
    types: &Vec<(String, SimpleEntity)>,
    rels: &mut Vec<Relationship>,
    class_id: &String,
    ns: &Option<String>,
    resolved_type: &ResolvedType,
    non_owning_relation: RelationType,
    owning_relation: RelationType,
    source_location: &SourceLocation,
)
    ensures
        rel_views(final(rels)@) == type_step(
            type_keys(types@),
            class_id@,
            ov(*ns),
            rel_views(old(rels)@),
            *resolved_type,
            non_owning_relation,
            owning_relation,
            *source_location,
        ),
{
    match resolved_type.relationship_target_entity_id() {
        None => {},
        Some(raw) => {
            let rv = chars_of(raw);
            match resolve_in_model_target(types, ns, rv.as_slice()) {
                None => {},
                Some(t) => {
                    let target = string_of(t.as_slice());
                    let relation_type = if resolved_type.is_non_owning() {
                        non_owning_relation
                    } else {
                        owning_relation
                    };
                    add_relationship(rels, class_id, target, relation_type, source_location);
                },
            }
        },
    }
}

/// Adds the relationship a base class implies (see `base_step`).
fn add_base_relationship(
    types: &Vec<(String, SimpleEntity)>,
    rels: &mut Vec<Relationship>,
    class_id: &String,
    base: &ParsedBaseClass,
)
    ensures
        rel_views(final(rels)@) == base_step(type_keys(types@), class_id@, rel_views(old(rels)@), *base),
{
    match base.resolved_type.referenced_entity_id() {
        None => {},
        Some(rb) => {
            let rv = chars_of(rb);
            match find_type(types, rv.as_slice()) {
                None => {},
                Some(t) => {
                    assert(type_keys(types@)[t as int] == (types@[t as int].0@, types@[t as int].1.entity_type));
                    let relation_type = if types[t].1.entity_type == EntityType::Interface {
                        RelationType::Implementation
                    } else {
                        RelationType::Inheritance
                    };
                    let target = rb.to_owned();
                    assert(target@ == rb@);
                    assert(referenced_entity(base.resolved_type) == Some(rb@));
                    assert(key_index(type_keys(types@), rb@) == Some(t as int));
                    add_relationship(rels, class_id, target, relation_type, &base.source_location);
                    assert(rel_views(rels@) == base_step(type_keys(types@), class_id@, rel_views(old(rels)@), *base));
                },
            }
        },
    }
}

/// Adds what one class's gathered information implies (see `builder_rels`).
fn apply_class_info(
    types: &Vec<(String, SimpleEntity)>,
    rels: &mut Vec<Relationship>,
    class_id: &String,
    ns: &Option<String>,
    info: &ParsedClassInfo,
)
    ensures
        rel_views(final(rels)@) == methods_rels(
            type_keys(types@),
            class_id@,
            ov(*ns),
            vars_rels(
                type_keys(types@),
                class_id@,
                ov(*ns),
                bases_rels(type_keys(types@), class_id@, rel_views(old(rels)@), info.base_classes@),
                info.variable_types@,
            ),
            info.method_types@,
        ),
{
    let ghost keys = type_keys(types@);
    let ghost start = rel_views(rels@);
    let mut i: usize = 0;
    while i < info.base_classes.len()
        invariant
            i <= info.base_classes@.len(),
            keys == type_keys(types@),
            rel_views(rels@) == bases_rels(keys, class_id@, start, info.base_classes@.subrange(0, i as int)),
        decreases info.base_classes@.len() - i,
    {
        add_base_relationship(types, rels, class_id, &info.base_classes[i]);
        proof {
            let s = info.base_classes@.subrange(0, i + 1);
            assert(s.drop_last() == info.base_classes@.subrange(0, i as int));
        }
        i = i + 1;
    }
    assert(info.base_classes@.subrange(0, info.base_classes@.len() as int) == info.base_classes@);
    let ghost after_bases = rel_views(rels@);
    let mut j: usize = 0;
    while j < info.variable_types.len()
        invariant
            j <= info.variable_types@.len(),
            keys == type_keys(types@),
            rel_views(rels@) == vars_rels(keys, class_id@, ov(*ns), after_bases, info.variable_types@.subrange(0, j as int)),
        decreases info.variable_types@.len() - j,
    {
        let v = &info.variable_types[j];
        add_relationship_from_resolved_type(
            types,
            rels,
            class_id,
            ns,
            &v.resolved_type,
            RelationType::Aggregation,
            RelationType::Composition,
            &v.source_location,
        );
        proof {
            let s = info.variable_types@.subrange(0, j + 1);
            assert(s.drop_last() == info.variable_types@.subrange(0, j as int));
            assert(s.last() == *v);
        }
        j = j + 1;
    }
    assert(info.variable_types@.subrange(0, info.variable_types@.len() as int) == info.variable_types@);
    let ghost after_vars = rel_views(rels@);
    let mut m: usize = 0;
    while m < info.method_types.len()
        invariant
            m <= info.method_types@.len(),
            keys == type_keys(types@),
            rel_views(rels@) == methods_rels(keys, class_id@, ov(*ns), after_vars, info.method_types@.subrange(0, m as int)),
        decreases info.method_types@.len() - m,
    {
        let mt = &info.method_types[m];
        add_relationship_from_resolved_type(
            types,
            rels,
            class_id,
            ns,
            &mt.return_type,
            RelationType::Dependency,
            RelationType::Association,
            &mt.source_location,
        );
        let ghost after_return = rel_views(rels@);
        let mut p: usize = 0;
        while p < mt.parameter_types.len()
            invariant
                p <= mt.parameter_types@.len(),
                keys == type_keys(types@),
                rel_views(rels@) == params_rels(
                    keys,
                    class_id@,
                    ov(*ns),
                    after_return,
                    mt.parameter_types@.subrange(0, p as int),
                    mt.source_location,
                ),
            decreases mt.parameter_types@.len() - p,
        {
            add_relationship_from_resolved_type(
                types,
                rels,
                class_id,
                ns,
                &mt.parameter_types[p],
                RelationType::Dependency,
                RelationType::Association,
                &mt.source_location,
            );
            proof {
                let s = mt.parameter_types@.subrange(0, p + 1);
                assert(s.drop_last() == mt.parameter_types@.subrange(0, p as int));
            }
            p = p + 1;
        }
        assert(mt.parameter_types@.subrange(0, mt.parameter_types@.len() as int) == mt.parameter_types@);
        proof {
            let s = info.method_types@.subrange(0, m + 1);
            assert(s.drop_last() == info.method_types@.subrange(0, m as int));
            assert(s.last() == *mt);
        }
        m = m + 1;
    }
    assert(info.method_types@.subrange(0, info.method_types@.len() as int) == info.method_types@);
}

/// Resolves the relationships of the visited classes: for each class's
/// gathered information, in order, its base classes become inheritances (or
/// implementations, of interfaces), its member types aggregations or
/// compositions, and its method types dependencies or associations — each
/// only towards a class of the model, never to the class itself, and never
/// twice. The information is used up; nothing but relationships changes.
pub fn resolve_relationships(ctx: &mut VisitContext)
    ensures
        final(ctx).parsed_class_info@.len() == 0,
        final(ctx).types@.len() == old(ctx).types@.len(),
        forall|k: int|
            0 <= k < final(ctx).types@.len() ==> (#[trigger] final(ctx).types@[k]).0 == old(ctx).types@[k].0
                && final(ctx).types@[k].1 == (SimpleEntity {
                relationships: final(ctx).types@[k].1.relationships,
                ..old(ctx).types@[k].1
            }) && rel_views(final(ctx).types@[k].1.relationships@) == class_rels(
                old(ctx).types@,
                old(ctx).parsed_class_info@,
                k,
            ),
{
    let mut builders: Vec<ParsedClassInfo> = Vec::new();
    std::mem::swap(&mut builders, &mut ctx.parsed_class_info);
    let ghost types0 = ctx.types@;
    let mut i: usize = 0;
    while i < builders.len()
        invariant
            i <= builders@.len(),
            ctx.parsed_class_info@.len() == 0,
            ctx.types@.len() == types0.len(),
            type_keys(ctx.types@) == type_keys(types0),
            forall|k: int|
                0 <= k < ctx.types@.len() ==> (#[trigger] ctx.types@[k]).0 == types0[k].0 && ctx.types@[k].1 == (
                SimpleEntity { relationships: ctx.types@[k].1.relationships, ..types0[k].1 })
                    && rel_views(ctx.types@[k].1.relationships@) == class_rels(types0, builders@.subrange(0, i as int), k),
        decreases builders@.len() - i,
    {
        let b = &builders[i];
        let idv = chars_of(b.id.as_str());
        let ghost before = ctx.types@;
        let ghost bs = builders@.subrange(0, i + 1);
        proof {
            assert(bs.drop_last() == builders@.subrange(0, i as int));
            assert(bs.last() == *b);
        }
        match find_type(&ctx.types, idv.as_slice()) {
            None => {
                assert forall|k: int| 0 <= k < ctx.types@.len() implies class_rels(types0, bs, k) == class_rels(
                    types0,
                    builders@.subrange(0, i as int),
                    k,
                ) by {}
            },
            Some(k) => {
                let ghost prefix = builders@.subrange(0, i as int);
                assert(before[k as int] == ctx.types@[k as int]);
                assert(rel_views(before[k as int].1.relationships@) == class_rels(types0, prefix, k as int));
                assert(before[k as int].1.id == types0[k as int].1.id);
                assert(before[k as int].1.enclosing_namespace_id == types0[k as int].1.enclosing_namespace_id);
                assert(idv@ == b.id@);
                assert(key_index(type_keys(types0), b.id@) == Some(k as int));
                let cid = ctx.types[k].1.id.clone();
                let ns = copy_opt(&ctx.types[k].1.enclosing_namespace_id);
                let mut rels: Vec<Relationship> = Vec::new();
                std::mem::swap(&mut rels, &mut ctx.types[k].1.relationships);
                assert(rel_views(rels@) == class_rels(types0, prefix, k as int));
                assert(type_keys(ctx.types@) =~= type_keys(before));
                apply_class_info(&ctx.types, &mut rels, &cid, &ns, b);
                assert(rel_views(rels@) == builder_rels(type_keys(types0), types0[k as int].1, class_rels(types0, prefix, k as int), *b));
                std::mem::swap(&mut rels, &mut ctx.types[k].1.relationships);
                assert(type_keys(ctx.types@) =~= type_keys(before));
                assert(ctx.types@[k as int].1 == (SimpleEntity {
                    relationships: ctx.types@[k as int].1.relationships,
                    ..types0[k as int].1
                }));
                assert(rel_views(ctx.types@[k as int].1.relationships@) == class_rels(types0, bs, k as int));
                assert forall|j: int| 0 <= j < ctx.types@.len() && j != k implies class_rels(types0, bs, j) == class_rels(
                    types0,
                    builders@.subrange(0, i as int),
                    j,
                ) && ctx.types@[j] == before[j] by {}
            },
        }
        i = i + 1;
    }
    assert(builders@.subrange(0, builders@.len() as int) == builders@);
}

/// Whether no two relationships of `rs` are the same.
pub open spec fn distinct_relations(rs: Seq<RelView>) -> bool {
    forall|i: int, j: int| 0 <= i < j < rs.len() ==> !same_relation(#[trigger] rs[i], #[trigger] rs[j])
}

/// Whether `out` is `rs` followed by relationships of class `cid` to other classes.
pub open spec fn extends_from(rs: Seq<RelView>, out: Seq<RelView>, cid: Seq<char>) -> bool {
    &&& rs.len() <= out.len()
    &&& out.subrange(0, rs.len() as int) == rs
    &&& forall|i: int| rs.len() <= i < out.len() ==> (#[trigger] out[i]).source == cid && out[i].target != cid
}

/// What holds of one step of the resolution, for the relationships of class `cid`.
pub open spec fn step_ok(rs: Seq<RelView>, out: Seq<RelView>, cid: Seq<char>) -> bool {
    &&& extends_from(rs, out, cid)
    &&& distinct_relations(rs) ==> distinct_relations(out)
}

proof fn lemma_step_ok_trans(a: Seq<RelView>, b: Seq<RelView>, c: Seq<RelView>, cid: Seq<char>)
    requires
        step_ok(a, b, cid),
        step_ok(b, c, cid),
    ensures
        step_ok(a, c, cid),
{
    assert(c.subrange(0, a.len() as int) == b.subrange(0, a.len() as int)) by {
        assert forall|i: int| 0 <= i < a.len() implies c.subrange(0, a.len() as int)[i] == b.subrange(0, a.len() as int)[i] by {
            assert(c.subrange(0, b.len() as int)[i] == b[i]);
        }
    }
    assert forall|i: int| a.len() <= i < c.len() implies (#[trigger] c[i]).source == cid && c[i].target != cid by {
        if i < b.len() {
            assert(c.subrange(0, b.len() as int)[i] == b[i]);
        }
    }
}

proof fn lemma_add_relation_ok(rs: Seq<RelView>, cid: Seq<char>, target: Seq<char>, ty: RelationType, loc: SourceLocation)
    ensures
        step_ok(rs, add_relation(rs, cid, target, ty, loc), cid),
{
    let out = add_relation(rs, cid, target, ty, loc);
    assert(out.subrange(0, rs.len() as int) == rs);
    let n = new_relation(cid, target, ty, loc);
    if out != rs {
        assert(out == rs.push(n));
        if distinct_relations(rs) {
            assert forall|i: int, j: int| 0 <= i < j < out.len() implies !same_relation(#[trigger] out[i], #[trigger] out[j]) by {
                if j == rs.len() {
                    assert(out[i] == rs[i]);
                    if same_relation(rs[i], n) {
                        assert(same_relation(rs[i], n));
                    }
                } else {
                    assert(out[i] == rs[i] && out[j] == rs[j]);
                }
            }
        }
    }
}

proof fn lemma_type_step_ok(
    types: TypeKeys,
    cid: Seq<char>,
    ns: Option<Seq<char>>,
    rs: Seq<RelView>,
    t: ResolvedType,
    a: RelationType,
    b: RelationType,
    loc: SourceLocation,
)
    ensures
        step_ok(rs, type_step(types, cid, ns, rs, t, a, b, loc), cid),
{
    match relationship_target(t) {
        None => {
            assert(rs.subrange(0, rs.len() as int) == rs);
        },
        Some(raw) => match in_model_target(types, ns, raw) {
            None => {
                assert(rs.subrange(0, rs.len() as int) == rs);
            },
            Some(target) => {
                lemma_add_relation_ok(rs, cid, target, if non_owning(t) { a } else { b }, loc);
            },
        },
    }
}

proof fn lemma_bases_ok(types: TypeKeys, cid: Seq<char>, rs: Seq<RelView>, bs: Seq<ParsedBaseClass>)
    ensures
        step_ok(rs, bases_rels(types, cid, rs, bs), cid),
    decreases bs.len(),
{
    if bs.len() == 0 {
        assert(rs.subrange(0, rs.len() as int) == rs);
    } else {
        lemma_bases_ok(types, cid, rs, bs.drop_last());
        let p = bases_rels(types, cid, rs, bs.drop_last());
        let base = bs.last();
        match referenced_entity(base.resolved_type) {
            None => {
                assert(p.subrange(0, p.len() as int) == p);
            },
            Some(rb) => match key_index(types, rb) {
                None => {
                    assert(p.subrange(0, p.len() as int) == p);
                },
                Some(ti) => {
                    lemma_add_relation_ok(
                        p,
                        cid,
                        rb,
                        if types[ti].1 == EntityType::Interface {
                            RelationType::Implementation
                        } else {
                            RelationType::Inheritance
                        },
                        base.source_location,
                    );
                },
            },
        }
        lemma_step_ok_trans(rs, p, bases_rels(types, cid, rs, bs), cid);
    }
}

proof fn lemma_vars_ok(types: TypeKeys, cid: Seq<char>, ns: Option<Seq<char>>, rs: Seq<RelView>, vs: Seq<ParsedVariableType>)
    ensures
        step_ok(rs, vars_rels(types, cid, ns, rs, vs), cid),
    decreases vs.len(),
{
    if vs.len() == 0 {
        assert(rs.subrange(0, rs.len() as int) == rs);
    } else {
        lemma_vars_ok(types, cid, ns, rs, vs.drop_last());
        let p = vars_rels(types, cid, ns, rs, vs.drop_last());
        let v = vs.last();
        lemma_type_step_ok(types, cid, ns, p, v.resolved_type, RelationType::Aggregation, RelationType::Composition, v.source_location);
        lemma_step_ok_trans(rs, p, vars_rels(types, cid, ns, rs, vs), cid);
    }
}

proof fn lemma_params_ok(
    types: TypeKeys,
    cid: Seq<char>,
    ns: Option<Seq<char>>,
    rs: Seq<RelView>,
    ts: Seq<ResolvedType>,
    loc: SourceLocation,
)
    ensures
        step_ok(rs, params_rels(types, cid, ns, rs, ts, loc), cid),
    decreases ts.len(),
{
    if ts.len() == 0 {
        assert(rs.subrange(0, rs.len() as int) == rs);
    } else {
        lemma_params_ok(types, cid, ns, rs, ts.drop_last(), loc);
        let p = params_rels(types, cid, ns, rs, ts.drop_last(), loc);
        lemma_type_step_ok(types, cid, ns, p, ts.last(), RelationType::Dependency, RelationType::Association, loc);
        lemma_step_ok_trans(rs, p, params_rels(types, cid, ns, rs, ts, loc), cid);
    }
}

proof fn lemma_methods_ok(types: TypeKeys, cid: Seq<char>, ns: Option<Seq<char>>, rs: Seq<RelView>, ms: Seq<ParsedMethodType>)
    ensures
        step_ok(rs, methods_rels(types, cid, ns, rs, ms), cid),
    decreases ms.len(),
{
    if ms.len() == 0 {
        assert(rs.subrange(0, rs.len() as int) == rs);
    } else {
        lemma_methods_ok(types, cid, ns, rs, ms.drop_last());
        let p = methods_rels(types, cid, ns, rs, ms.drop_last());
        let m = ms.last();
        let q = type_step(types, cid, ns, p, m.return_type, RelationType::Dependency, RelationType::Association, m.source_location);
        lemma_type_step_ok(types, cid, ns, p, m.return_type, RelationType::Dependency, RelationType::Association, m.source_location);
        lemma_params_ok(types, cid, ns, q, m.parameter_types@, m.source_location);
        lemma_step_ok_trans(rs, p, q, cid);
        lemma_step_ok_trans(rs, q, methods_rels(types, cid, ns, rs, ms), cid);
    }
}

/// Resolution only appends to a class's relationships, and what it appends
/// goes from the class to another class; when the class had no relationship
/// twice, it still has none twice.
pub proof fn lemma_resolution_appends_distinct(types: Seq<(String, SimpleEntity)>, bs: Seq<ParsedClassInfo>, k: int)
    requires
        0 <= k < types.len(),
    ensures
        step_ok(rel_views(types[k].1.relationships@), class_rels(types, bs, k), types[k].1.id@),
    decreases bs.len(),
{
    let rs0 = rel_views(types[k].1.relationships@);
    let cid = types[k].1.id@;
    if bs.len() == 0 {
        assert(rs0.subrange(0, rs0.len() as int) == rs0);
    } else {
        lemma_resolution_appends_distinct(types, bs.drop_last(), k);
        let p = class_rels(types, bs.drop_last(), k);
        if key_index(type_keys(types), bs.last().id@) == Some(k) {
            let keys = type_keys(types);
            let e = types[k].1;
            let b = bs.last();
            let ns = ov(e.enclosing_namespace_id);
            let r1 = bases_rels(keys, cid, p, b.base_classes@);
            let r2 = vars_rels(keys, cid, ns, r1, b.variable_types@);
            lemma_bases_ok(keys, cid, p, b.base_classes@);
            lemma_vars_ok(keys, cid, ns, r1, b.variable_types@);
            lemma_methods_ok(keys, cid, ns, r2, b.method_types@);
            lemma_step_ok_trans(p, r1, r2, cid);
            lemma_step_ok_trans(p, r2, class_rels(types, bs, k), cid);
            lemma_step_ok_trans(rs0, p, class_rels(types, bs, k), cid);
        }
    }
}

} // verus!

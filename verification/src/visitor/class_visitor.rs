//! The class visitor's relationship phase.
use vstd::prelude::*;
use crate::diagram_model::{EntityType, Method, MethodModifier, SimpleEntity};
use crate::linker_input::ov;
use crate::text::chars_of;
use crate::visitor::class_relationship_resolver::{class_rels, find_type, key_index, rel_views, type_keys};
use crate::visitor::context::{
    CallableArgumentKey, CallableDeclarationKey, CallableLinkageScope, CallableOwnerKey, ExtractedMethodDeclaration,
    ParsedClassInfo, VisitContext,
};

verus! {

/// Visits classes; its relationship phase resolves what the visit gathered.
pub struct ClassVisitor;

impl ClassVisitor {
    /// Resolves the relationships of the visited classes (see
    /// `class_relationship_resolver::resolve_relationships`).
    pub fn resolve_relationships(ctx: &mut VisitContext)
        ensures
            final(ctx).parsed_class_info@.len() == 0,
            final(ctx).types@.len() == old(ctx).types@.len(),
            forall|k: int|
                0 <= k < final(ctx).types@.len() ==> (#[trigger] final(ctx).types@[k]).0 == old(ctx).types@[k].0
                    && final(ctx).types@[k].1 == (SimpleEntity {
                    relationships: final(ctx).types@[k].1.relationships,
                    ..old(ctx).types@[k].1
                }) && rel_views(final(ctx).types@[k].1.relationships@) == class_rels(
                    old(ctx).types@,
                    old(ctx).parsed_class_info@,
                    k,
                ),
    {
        crate::visitor::class_relationship_resolver::resolve_relationships(ctx);
    }
}

/// The content of a callable's linkage scope.
pub enum LinkageView {
    External,
    TranslationUnitLocal(Seq<char>),
}

/// The content of a callable's owner.
pub enum OwnerView {
    FreeFunction(Option<Seq<char>>, LinkageView),
    Method(Seq<char>),
}

/// The content of a parameter key.
pub struct ArgView {
    pub param_type: Option<Seq<char>>,
    pub is_variadic: bool,
    pub is_pack_expansion: bool,
}

/// The content of a callable declaration key.
pub struct KeyView {
    pub owner: OwnerView,
    pub name: Seq<char>,
    pub parameters: Seq<ArgView>,
}

/// The content of a parameter key.
pub open spec fn arg_view(a: CallableArgumentKey) -> ArgView {
    ArgView { param_type: ov(a.param_type), is_variadic: a.is_variadic, is_pack_expansion: a.is_pack_expansion }
}

/// The content of a callable declaration key.
pub open spec fn key_view(k: CallableDeclarationKey) -> KeyView {
    KeyView {
        owner: match k.owner {
            CallableOwnerKey::FreeFunction { enclosing_namespace_id, linkage_scope } => OwnerView::FreeFunction(
                ov(enclosing_namespace_id),
                match linkage_scope {
                    CallableLinkageScope::External => LinkageView::External,
                    CallableLinkageScope::TranslationUnitLocal { source_file } => LinkageView::TranslationUnitLocal(
                        source_file@,
                    ),
                },
            ),
            CallableOwnerKey::Method { class_id } => OwnerView::Method(class_id@),
        },
        name: k.signature.name@,
        parameters: k.signature.parameters@.map_values(|a: CallableArgumentKey| arg_view(a)),
    }
}

/// The contents of a set of keys.
pub open spec fn key_views(v: Seq<CallableDeclarationKey>) -> Seq<KeyView> {
    v.map_values(|k: CallableDeclarationKey| key_view(k))
}

/// Whether two optional strings are equal.
fn same_opt(a: &Option<String>, b: &Option<String>) -> (r: bool)
    ensures
        r == (ov(*a) == ov(*b)),
{
    match (a, b) {
        (Some(x), Some(y)) => *x == *y,
        (None, None) => true,
        _ => false,
    }
}

/// Whether two keys are equal.
fn same_key(a: &CallableDeclarationKey, b: &CallableDeclarationKey) -> (r: bool)
    ensures
        r == (key_view(*a) == key_view(*b)),
{
    let owners = match (&a.owner, &b.owner) {
        (
            CallableOwnerKey::FreeFunction { enclosing_namespace_id: n1, linkage_scope: l1 },
            CallableOwnerKey::FreeFunction { enclosing_namespace_id: n2, linkage_scope: l2 },
        ) => same_opt(n1, n2) && match (l1, l2) {
            (CallableLinkageScope::External, CallableLinkageScope::External) => true,
            (
                CallableLinkageScope::TranslationUnitLocal { source_file: f1 },
                CallableLinkageScope::TranslationUnitLocal { source_file: f2 },
            ) => *f1 == *f2,
            _ => false,
        },
        (CallableOwnerKey::Method { class_id: c1 }, CallableOwnerKey::Method { class_id: c2 }) => *c1 == *c2,
        _ => false,
    };
    if !owners {
        assert(key_view(*a).owner != key_view(*b).owner);
        return false;
    }
    if a.signature.name != b.signature.name {
        assert(key_view(*a).name != key_view(*b).name);
        return false;
    }
    assert(key_view(*a).owner == key_view(*b).owner);
    let pa = &a.signature.parameters;
    let pb = &b.signature.parameters;
    let ghost va = key_view(*a).parameters;
    let ghost vb = key_view(*b).parameters;
    if pa.len() != pb.len() {
        assert(va.len() != vb.len());
        return false;
    }
    let mut i: usize = 0;
    while i < pa.len()
        invariant
            i <= pa@.len(),
            pa@.len() == pb@.len(),
            va == key_view(*a).parameters,
            vb == key_view(*b).parameters,
            key_view(*a).owner == key_view(*b).owner,
            key_view(*a).name == key_view(*b).name,
            va == pa@.map_values(|x: CallableArgumentKey| arg_view(x)),
            vb == pb@.map_values(|x: CallableArgumentKey| arg_view(x)),
            forall|m: int| 0 <= m < i ==> va[m] == vb[m],
        decreases pa@.len() - i,
    {
        if !(same_opt(&pa[i].param_type, &pb[i].param_type) && pa[i].is_variadic == pb[i].is_variadic
            && pa[i].is_pack_expansion == pb[i].is_pack_expansion) {
            assert(va[i as int] != vb[i as int]);
            return false;
        }
        i = i + 1;
    }
    assert(va =~= vb);
    true
}

/// Whether `key` is among `seen`.
fn seen_contains(seen: &Vec<CallableDeclarationKey>, key: &CallableDeclarationKey) -> (r: bool)
    ensures
        r == key_views(seen@).contains(key_view(*key)),
{
    let mut i: usize = 0;
    while i < seen.len()
        invariant
            i <= seen@.len(),
            forall|m: int| 0 <= m < i ==> key_view(seen@[m]) != key_view(*key),
        decreases seen@.len() - i,
    {
        if same_key(&seen[i], key) {
            assert(key_views(seen@)[i as int] == key_view(*key));
            return true;
        }
        i = i + 1;
    }
    assert forall|m: int| 0 <= m < key_views(seen@).len() implies key_views(seen@)[m] != key_view(*key) by {
        assert(key_views(seen@)[m] == key_view(seen@[m]));
    }
    false
}

/// The first gathered class information with id `id`.
pub open spec fn info_from(infos: Seq<ParsedClassInfo>, id: Seq<char>, i: int) -> Option<int>
    decreases infos.len() - i,
{
    if i < 0 || i >= infos.len() {
        None
    } else if infos[i].id@ == id {
        Some(i)
    } else {
        info_from(infos, id, i + 1)
    }
}

/// The first gathered class information with id `id`, if any.
pub open spec fn info_index(infos: Seq<ParsedClassInfo>, id: Seq<char>) -> Option<int> {
    info_from(infos, id, 0)
}

proof fn lemma_info_from(infos: Seq<ParsedClassInfo>, id: Seq<char>, i: int)
    ensures
        info_from(infos, id, i) matches Some(j) ==> 0 <= i <= j < infos.len() && infos[j].id@ == id,
    decreases infos.len() - i,
{
    if 0 <= i < infos.len() && infos[i].id@ != id {
        lemma_info_from(infos, id, i + 1);
    }
}

/// The first gathered class information with id `id`.
fn find_info(infos: &Vec<ParsedClassInfo>, id: &String) -> (r: Option<usize>)
    ensures
        match info_index(infos@, id@) {
            Some(i) => r matches Some(j) && j as int == i && j < infos@.len() && infos@[i].id@ == id@,
            None => r is None,
        },
{
    proof {
        lemma_info_from(infos@, id@, 0);
    }
    let mut i: usize = 0;
    while i < infos.len()
        invariant
            i <= infos@.len(),
            info_index(infos@, id@) == info_from(infos@, id@, i as int),
        decreases infos@.len() - i,
    {
        if infos[i].id == *id {
            return Some(i);
        }
        i = i + 1;
    }
    None
}

/// The abstract and concrete flags of a class after a method: an abstract
/// method marks it abstract; another, unless a constructor or destructor,
/// marks it concrete.
pub open spec fn flags_after(has_abstract: bool, has_concrete: bool, m: Method) -> (bool, bool) {
    if m.modifiers@.contains(MethodModifier::Abstract) {
        (true, has_concrete)
    } else if !(m.modifiers@.contains(MethodModifier::Constructor) || m.modifiers@.contains(
        MethodModifier::Destructor,
    )) {
        (has_abstract, true)
    } else {
        (has_abstract, has_concrete)
    }
}

/// The kind of a class from its flags: abstract methods only and no
/// variables make an interface; any abstract method an abstract class.
pub open spec fn kind_from_flags(has_abstract: bool, has_concrete: bool, no_variables: bool) -> EntityType {
    if has_abstract && !has_concrete && no_variables {
        EntityType::Interface
    } else if has_abstract {
        EntityType::AbstractClass
    } else {
        EntityType::Class
    }
}

/// Whether a method's modifiers contain `m`.
fn has_modifier(method: &Method, m: MethodModifier) -> (r: bool)
    ensures
        r == method.modifiers@.contains(m),
{
    let mut i: usize = 0;
    while i < method.modifiers.len()
        invariant
            i <= method.modifiers@.len(),
            forall|k: int| 0 <= k < i ==> method.modifiers@[k] != m,
        decreases method.modifiers@.len() - i,
    {
        if method.modifiers[i] == m {
            return true;
        }
        i = i + 1;
    }
    false
}

/// The key a method declaration is registered under.
pub open spec fn declaration_key(d: ExtractedMethodDeclaration) -> KeyView {
    KeyView {
        owner: OwnerView::Method(d.class_id@),
        name: d.signature_key.name@,
        parameters: d.signature_key.parameters@.map_values(|a: CallableArgumentKey| arg_view(a)),
    }
}

/// Whether a declaration is registered: it was not before, and both its
/// class and the class's gathered information exist.
pub open spec fn registers(ctx: VisitContext, seen: Seq<CallableDeclarationKey>, d: ExtractedMethodDeclaration) -> bool {
    &&& !key_views(seen).contains(declaration_key(d))
    &&& key_index(type_keys(ctx.types@), d.class_id@) is Some
    &&& info_index(ctx.parsed_class_info@, d.class_id@) is Some
}

impl ClassVisitor {
    /// Registers a method declaration once, and only when its class has been
    /// registered (entity and gathered information): the method joins the
    /// class's methods, its types the class's information, and the class's
    /// kind follows from its methods unless it is a struct. Whether it was
    /// registered is returned.
    pub fn register_method_declaration(
        ctx: &mut VisitContext,
        seen_method_declarations: &mut Vec<CallableDeclarationKey>,
        declaration: ExtractedMethodDeclaration,
    ) -> (r: bool)
        ensures
            r == registers(*old(ctx), old(seen_method_declarations)@, declaration),
            !r ==> *final(ctx) == *old(ctx) && final(seen_method_declarations)@ == old(seen_method_declarations)@,
            r ==> key_views(final(seen_method_declarations)@) == key_views(old(seen_method_declarations)@).push(
                declaration_key(declaration),
            ),
            r ==> ({
                let k = key_index(type_keys(old(ctx).types@), declaration.class_id@)->Some_0;
                let j = info_index(old(ctx).parsed_class_info@, declaration.class_id@)->Some_0;
                let e = old(ctx).types@[k].1;
                let b = old(ctx).parsed_class_info@[j];
                let struct_class = e.entity_type == EntityType::Struct;
                let flags = if struct_class {
                    (b.has_abstract_methods, b.has_concrete_methods)
                } else {
                    flags_after(b.has_abstract_methods, b.has_concrete_methods, declaration.method)
                };
                &&& final(ctx).types@.len() == old(ctx).types@.len()
                &&& forall|m: int| 0 <= m < old(ctx).types@.len() && m != k ==> final(ctx).types@[m] == old(ctx).types@[m]
                &&& final(ctx).types@[k].0 == old(ctx).types@[k].0
                &&& final(ctx).types@[k].1 == (SimpleEntity {
                    methods: final(ctx).types@[k].1.methods,
                    entity_type: if struct_class {
                        EntityType::Struct
                    } else {
                        kind_from_flags(flags.0, flags.1, e.variables@.len() == 0)
                    },
                    ..e
                })
                &&& final(ctx).types@[k].1.methods@ == e.methods@.push(declaration.method)
                &&& final(ctx).parsed_class_info@.len() == old(ctx).parsed_class_info@.len()
                &&& forall|m: int|
                    0 <= m < old(ctx).parsed_class_info@.len() && m != j ==> final(ctx).parsed_class_info@[m]
                        == old(ctx).parsed_class_info@[m]
                &&& final(ctx).parsed_class_info@[j] == (ParsedClassInfo {
                    method_types: final(ctx).parsed_class_info@[j].method_types,
                    has_abstract_methods: flags.0,
                    has_concrete_methods: flags.1,
                    ..b
                })
                &&& final(ctx).parsed_class_info@[j].method_types@ == b.method_types@.push(declaration.method_type)
            }),
    {
        let ExtractedMethodDeclaration { class_id, method, method_type, signature_key } = declaration;
        let identity = CallableDeclarationKey {
            owner: CallableOwnerKey::Method { class_id: class_id.clone() },
            signature: signature_key,
        };
        assert(key_view(identity) == declaration_key(declaration));
        if seen_contains(seen_method_declarations, &identity) {
            return false;
        }
        let cv = chars_of(class_id.as_str());
        let k = match find_type(&ctx.types, cv.as_slice()) {
            Some(k) => k,
            None => {
                return false;
            },
        };
        let j = match find_info(&ctx.parsed_class_info, &class_id) {
            Some(j) => j,
            None => {
                return false;
            },
        };
        if ctx.types[k].1.entity_type != EntityType::Struct {
            let is_abstract = has_modifier(&method, MethodModifier::Abstract);
            let is_special = has_modifier(&method, MethodModifier::Constructor) || has_modifier(
                &method,
                MethodModifier::Destructor,
            );
            if is_abstract {
                ctx.parsed_class_info[j].has_abstract_methods = true;
            } else if !is_special {
                ctx.parsed_class_info[j].has_concrete_methods = true;
            }
            let a = ctx.parsed_class_info[j].has_abstract_methods;
            let c = ctx.parsed_class_info[j].has_concrete_methods;
            let no_variables = ctx.types[k].1.variables.len() == 0;
            let kind = if a && !c && no_variables {
                EntityType::Interface
            } else if a {
                EntityType::AbstractClass
            } else {
                EntityType::Class
            };
            ctx.types[k].1.entity_type = kind;
        }
        ctx.types[k].1.methods.push(method);
        ctx.parsed_class_info[j].method_types.push(method_type);
        let ghost before = seen_method_declarations@;
        seen_method_declarations.push(identity);
        assert(key_views(seen_method_declarations@) == key_views(before).push(key_view(identity)));
        true
    }
}

} // verus!

//! Traceability items in the LOBSTER format: the items a diagram model
//! yields, and the documents that carry them, sorted by tag.
use vstd::prelude::*;
use crate::diagram_model::{ClassDiagram, ComponentType, EntityType, LogicComponent, SimpleEntity};
use crate::idmap::{lex_lt, id_less, lemma_lex_irreflexive, lemma_lex_transitive, lemma_lex_total};
use crate::text::{chars_of, push_all, string_of, views, concat_text};

verus! {

/// One traced item. Its location is a file and, when known, a line; an item
/// names either the framework or the language it belongs to.
#[derive(Debug, PartialEq)]
pub struct LobsterItem {
    pub tag: String,
    pub file: String,
    pub line: Option<usize>,
    pub name: String,
    pub refs: Vec<String>,
    pub framework: Option<String>,
    pub language: Option<String>,
    pub kind: String,
}

/// The content of an item.
pub struct ItemView {
    pub tag: Seq<char>,
    pub file: Seq<char>,
    pub line: Option<usize>,
    pub name: Seq<char>,
    pub refs: Seq<Seq<char>>,
    pub framework: Option<Seq<char>>,
    pub language: Option<Seq<char>>,
    pub kind: Seq<char>,
}

/// The content of an optional string.
pub open spec fn opt_view(o: Option<String>) -> Option<Seq<char>> {
    match o {
        Some(s) => Some(s@),
        None => None,
    }
}

impl View for LobsterItem {
    type V = ItemView;

    open spec fn view(&self) -> ItemView {
        ItemView {
            tag: self.tag@,
            file: self.file@,
            line: self.line,
            name: self.name@,
            refs: views(self.refs@),
            framework: opt_view(self.framework),
            language: opt_view(self.language),
            kind: self.kind@,
        }
    }
}

/// The contents of a sequence of items.
pub open spec fn item_views(v: Seq<LobsterItem>) -> Seq<ItemView> {
    v.map_values(|i: LobsterItem| i@)
}

/// A LOBSTER document: its schema, version and generator, and its items.
#[derive(Debug, PartialEq)]
pub struct LobsterDocument {
    pub schema: String,
    pub version: u32,
    pub generator: String,
    pub data: Vec<LobsterItem>,
}

/// Where an item with tag `key` goes in `s`: after every item whose tag is not greater.
pub open spec fn tag_pos(s: Seq<ItemView>, key: Seq<char>, i: int) -> int
    decreases s.len() - i,
{
    if i < 0 || i >= s.len() {
        s.len() as int
    } else if lex_lt(key, s[i].tag) {
        i
    } else {
        tag_pos(s, key, i + 1)
    }
}

/// `s` stably sorted by tag.
pub open spec fn sorted_by_tag(s: Seq<ItemView>) -> Seq<ItemView>
    decreases s.len(),
{
    if s.len() == 0 {
        Seq::empty()
    } else {
        let prev = sorted_by_tag(s.drop_last());
        prev.insert(tag_pos(prev, s.last().tag, 0), s.last())
    }
}

/// Whether the tags of `s` are in ascending order.
pub open spec fn tags_ascending(s: Seq<ItemView>) -> bool {
    forall|i: int, j: int| 0 <= i < j < s.len() ==> !lex_lt(#[trigger] s[j].tag, #[trigger] s[i].tag)
}

proof fn lemma_tag_pos_bounds(s: Seq<ItemView>, key: Seq<char>, i: int)
    requires
        0 <= i <= s.len(),
    ensures
        i <= tag_pos(s, key, i) <= s.len(),
        forall|k: int| i <= k < tag_pos(s, key, i) ==> !lex_lt(key, #[trigger] s[k].tag),
        tag_pos(s, key, i) < s.len() ==> lex_lt(key, s[tag_pos(s, key, i)].tag),
    decreases s.len() - i,
{
    if i < s.len() && !lex_lt(key, s[i].tag) {
        lemma_tag_pos_bounds(s, key, i + 1);
    }
}

proof fn lemma_insert_keeps_tags_ascending(s: Seq<ItemView>, x: ItemView)
    requires
        tags_ascending(s),
    ensures
        tags_ascending(s.insert(tag_pos(s, x.tag, 0), x)),
{
    let p = tag_pos(s, x.tag, 0);
    lemma_tag_pos_bounds(s, x.tag, 0);
    let r = s.insert(p, x);
    assert forall|i: int, j: int| 0 <= i < j < r.len() implies !lex_lt(#[trigger] r[j].tag, #[trigger] r[i].tag) by {
        if i < p && j == p {
            lemma_lex_total(x.tag, s[i].tag);
            lemma_lex_irreflexive(x.tag);
        } else if i == p && j > p {
            let sj = s[j - 1];
            if lex_lt(sj.tag, x.tag) {
                if j - 1 > p {
                    lemma_lex_transitive(sj.tag, x.tag, s[p].tag);
                } else {
                    lemma_lex_transitive(sj.tag, x.tag, sj.tag);
                    lemma_lex_irreflexive(sj.tag);
                }
            }
        } else if i < p && j > p {
            assert(r[i] == s[i] && r[j] == s[j - 1]);
        } else if j < p {
            assert(r[i] == s[i] && r[j] == s[j]);
        } else {
            assert(r[i] == s[i - 1] && r[j] == s[j - 1]);
        }
    }
}

/// Sorting by tag yields ascending tags.
pub proof fn lemma_sorted_by_tag_ascending(s: Seq<ItemView>)
    ensures
        tags_ascending(sorted_by_tag(s)),
    decreases s.len(),
{
    if s.len() > 0 {
        lemma_sorted_by_tag_ascending(s.drop_last());
        lemma_insert_keeps_tags_ascending(sorted_by_tag(s.drop_last()), s.last());
    }
}

/// Sorting by tag only reorders: every item keeps its multiplicity.
pub proof fn lemma_sorted_by_tag_permutes(s: Seq<ItemView>)
    ensures
        sorted_by_tag(s).to_multiset() == s.to_multiset(),
    decreases s.len(),
{
    broadcast use vstd::seq_lib::group_to_multiset_ensures;

    if s.len() > 0 {
        lemma_sorted_by_tag_permutes(s.drop_last());
        let prev = sorted_by_tag(s.drop_last());
        lemma_tag_pos_bounds(prev, s.last().tag, 0);
        assert(s.drop_last().push(s.last()) == s);
    }
}

/// `v` stably sorted by tag.
pub fn sort_items_by_tag(v: Vec<LobsterItem>) -> (r: Vec<LobsterItem>)
    ensures
        item_views(r@) == sorted_by_tag(item_views(v@)),
{
    let ghost orig = item_views(v@);
    let mut rest = v;
    let mut out: Vec<LobsterItem> = Vec::new();
    let ghost mut k: int = 0;
    while rest.len() > 0
        invariant
            0 <= k <= orig.len(),
            item_views(rest@) == orig.subrange(k, orig.len() as int),
            item_views(out@) == sorted_by_tag(orig.subrange(0, k)),
        decreases rest@.len(),
    {
        let ghost rest_before = rest@;
        let x = rest.remove(0);
        proof {
            assert(item_views(rest_before)[0] == x@);
            assert(item_views(rest_before).len() == rest_before.len());
            assert(k < orig.len());
            assert(orig.subrange(0, k + 1).drop_last() == orig.subrange(0, k));
            assert(orig.subrange(0, k + 1).last() == orig[k]);
            assert(item_views(rest@) == item_views(rest_before).drop_first());
        }
        let mut j: usize = 0;
        while j < out.len() && !id_less(&x.tag, &out[j].tag)
            invariant
                j <= out@.len(),
                tag_pos(item_views(out@), x.tag@, 0) == tag_pos(item_views(out@), x.tag@, j as int),
            decreases out@.len() - j,
        {
            j = j + 1;
        }
        let ghost out_before = out@;
        out.insert(j, x);
        proof {
            assert(item_views(out@) == item_views(out_before).insert(j as int, out@[j as int]@));
            k = k + 1;
            assert(item_views(rest@) == orig.subrange(k, orig.len() as int));
        }
    }
    assert(orig.subrange(0, orig.len() as int) == orig);
    out
}

/// The content of a document.
pub struct DocView {
    pub schema: Seq<char>,
    pub version: u32,
    pub generator: Seq<char>,
    pub data: Seq<ItemView>,
}

impl View for LobsterDocument {
    type V = DocView;

    open spec fn view(&self) -> DocView {
        DocView { schema: self.schema@, version: self.version, generator: self.generator@, data: item_views(self.data@) }
    }
}

/// The item tracing architecture element `name`, declared in `file` at `line`.
pub open spec fn arch_item(name: Seq<char>, file: Seq<char>, line: Option<usize>, kind: Seq<char>) -> ItemView {
    ItemView {
        tag: "req "@ + name,
        file,
        line,
        name,
        refs: Seq::empty(),
        framework: None,
        language: Some("Architecture"@),
        kind,
    }
}

/// An implementation-trace document of `items`, sorted by tag.
pub open spec fn imp_document(items: Seq<ItemView>) -> DocView {
    DocView {
        schema: "lobster-imp-trace"@,
        version: 3,
        generator: "puml_lobster"@,
        data: sorted_by_tag(items),
    }
}

/// The items of the interfaces among the components `cs`, declared in `file`.
pub open spec fn comp_items(cs: Seq<LogicComponent>, file: Seq<char>) -> Seq<ItemView>
    decreases cs.len(),
{
    if cs.len() == 0 {
        Seq::empty()
    } else {
        let prev = comp_items(cs.drop_last(), file);
        let c = cs.last();
        if c.element_type == ComponentType::Interface {
            prev.push(arch_item(c.id@, file, None, "Interface"@))
        } else {
            prev
        }
    }
}

/// The kind an entity's item carries.
pub open spec fn entity_kind(t: EntityType) -> Seq<char> {
    match t {
        EntityType::Class => "Class"@,
        EntityType::Struct => "Struct"@,
        EntityType::Interface => "Interface"@,
        EntityType::Enum => "Enum"@,
        EntityType::AbstractClass => "AbstractClass"@,
    }
}

/// A non-interface entity gives one item, tagged `req <id>`, whose kind names
/// its entity type: a class `Class`, a struct `Struct`, an enum `Enum`, an
/// abstract class `AbstractClass`; entities of different types give items of
/// different kinds.
pub proof fn lemma_entity_item_kind(e: SimpleEntity, f: SimpleEntity)
    ensures
        e.entity_type != EntityType::Interface ==> entity_items(e).len() == 1 && entity_items(e)[0].tag == "req "@
            + e.id@,
        e.entity_type == EntityType::Class ==> entity_items(e)[0].kind == "Class"@,
        e.entity_type == EntityType::Struct ==> entity_items(e)[0].kind == "Struct"@,
        e.entity_type == EntityType::Enum ==> entity_items(e)[0].kind == "Enum"@,
        e.entity_type == EntityType::AbstractClass ==> entity_items(e)[0].kind == "AbstractClass"@,
        e.entity_type != EntityType::Interface && f.entity_type != EntityType::Interface && e.entity_type
            != f.entity_type ==> entity_items(e)[0].kind != entity_items(f)[0].kind,
{
    reveal_strlit("Class");
    reveal_strlit("Struct");
    reveal_strlit("Interface");
    reveal_strlit("Enum");
    reveal_strlit("AbstractClass");
    assert("Class"@ != "Struct"@) by {
        assert("Class"@.len() == 5 && "Struct"@.len() == 6);
    }
    assert("Class"@ != "Interface"@) by {
        assert("Class"@.len() == 5 && "Interface"@.len() == 9);
    }
    assert("Class"@ != "Enum"@) by {
        assert("Class"@.len() == 5 && "Enum"@.len() == 4);
    }
    assert("Class"@ != "AbstractClass"@) by {
        assert("Class"@.len() == 5 && "AbstractClass"@.len() == 13);
    }
    assert("Struct"@ != "Interface"@) by {
        assert("Struct"@.len() == 6 && "Interface"@.len() == 9);
    }
    assert("Struct"@ != "Enum"@) by {
        assert("Struct"@.len() == 6 && "Enum"@.len() == 4);
    }
    assert("Struct"@ != "AbstractClass"@) by {
        assert("Struct"@.len() == 6 && "AbstractClass"@.len() == 13);
    }
    assert("Interface"@ != "Enum"@) by {
        assert("Interface"@.len() == 9 && "Enum"@.len() == 4);
    }
    assert("Interface"@ != "AbstractClass"@) by {
        assert("Interface"@.len() == 9 && "AbstractClass"@.len() == 13);
    }
    assert("Enum"@ != "AbstractClass"@) by {
        assert("Enum"@.len() == 4 && "AbstractClass"@.len() == 13);
    }
}

/// The declaration line of an entity; line 0 stands for none.
pub open spec fn entity_line(e: SimpleEntity) -> Option<usize> {
    if e.source_location.line != 0 {
        Some(e.source_location.line as usize)
    } else {
        None
    }
}

/// The items of the first `n` methods of interface `e`: `<id>.<method>`.
pub open spec fn method_items(e: SimpleEntity, n: int) -> Seq<ItemView>
    decreases n,
{
    if n <= 0 {
        Seq::empty()
    } else {
        method_items(e, n - 1).push(
            arch_item(e.id@ + "."@ + e.methods@[n - 1].name@, e.source_location.file@, entity_line(e), "Method"@),
        )
    }
}

/// The items of one entity: one per method of an interface, else one for the entity.
pub open spec fn entity_items(e: SimpleEntity) -> Seq<ItemView> {
    if e.entity_type == EntityType::Interface {
        method_items(e, e.methods@.len() as int)
    } else {
        seq![arch_item(e.id@, e.source_location.file@, entity_line(e), entity_kind(e.entity_type))]
    }
}

/// The items of the entities `es`, entity by entity.
pub open spec fn class_items(es: Seq<SimpleEntity>) -> Seq<ItemView>
    decreases es.len(),
{
    if es.len() == 0 {
        Seq::empty()
    } else {
        class_items(es.drop_last()) + entity_items(es.last())
    }
}

/// The item tracing architecture element `name` (see `arch_item`).
fn build_lobster_item(name: &str, source_file: &str, source_line: Option<u32>, kind: &str) -> (r: LobsterItem)
    ensures
        r@ == arch_item(
            name@,
            source_file@,
            match source_line {
                Some(l) => Some(l as usize),
                None => None,
            },
            kind@,
        ),
{
    let nv = chars_of(name);
    let tag = concat_text("req ", nv.as_slice());
    let line: Option<usize> = match source_line {
        Some(l) => Some(l as usize),
        None => None,
    };
    let r = LobsterItem {
        tag,
        file: source_file.to_owned(),
        line,
        name: name.to_owned(),
        refs: Vec::new(),
        framework: None,
        language: Some("Architecture".to_owned()),
        kind: kind.to_owned(),
    };
    assert(views(r.refs@) == Seq::<Seq<char>>::empty());
    r
}

/// The kind an entity's item carries (see `entity_kind`).
fn map_entity_type_to_kind(entity_type: EntityType) -> (r: &'static str)
    ensures
        r@ == entity_kind(entity_type),
{
    match entity_type {
        EntityType::Class => "Class",
        EntityType::Struct => "Struct",
        EntityType::Interface => "Interface",
        EntityType::Enum => "Enum",
        EntityType::AbstractClass => "AbstractClass",
    }
}

/// An implementation-trace document of `items`, sorted by tag.
fn lobster_document_from_items(items: Vec<LobsterItem>) -> (r: LobsterDocument)
    ensures
        r@ == imp_document(item_views(items@)),
{
    let data = sort_items_by_tag(items);
    LobsterDocument {
        schema: "lobster-imp-trace".to_owned(),
        version: 3,
        generator: "puml_lobster".to_owned(),
        data,
    }
}

/// An implementation-trace document without items.
pub fn empty_lobster_document() -> (r: LobsterDocument)
    ensures
        r@ == imp_document(Seq::empty()),
{
    let r = lobster_document_from_items(Vec::new());
    assert(item_views(Seq::<LobsterItem>::empty()) == Seq::<ItemView>::empty());
    r
}

/// The implementation trace of a component model: one item per interface,
/// located in `source_path`.
pub fn comp_model_to_lobster(model: &Vec<LogicComponent>, source_path: &str) -> (r: LobsterDocument)
    ensures
        r@ == imp_document(comp_items(model@, source_path@)),
{
    let mut items: Vec<LobsterItem> = Vec::new();
    let mut i: usize = 0;
    while i < model.len()
        invariant
            i <= model@.len(),
            item_views(items@) == comp_items(model@.subrange(0, i as int), source_path@),
        decreases model@.len() - i,
    {
        let c = &model[i];
        proof {
            let s = model@.subrange(0, i + 1);
            assert(s.drop_last() == model@.subrange(0, i as int));
            assert(s.last() == *c);
        }
        if c.element_type == ComponentType::Interface {
            let item = build_lobster_item(c.id.as_str(), source_path, None, "Interface");
            let ghost before = items@;
            items.push(item);
            assert(item_views(items@) == item_views(before).push(items@.last()@));
        }
        i = i + 1;
    }
    assert(model@.subrange(0, model@.len() as int) == model@);
    lobster_document_from_items(items)
}

/// The implementation trace of a class model: one item per method of an
/// interface, one per other entity, each located where its entity is declared.
pub fn class_model_to_lobster(model: &ClassDiagram) -> (r: LobsterDocument)
    ensures
        r@ == imp_document(class_items(model.entities@)),
{
    let mut items: Vec<LobsterItem> = Vec::new();
    let mut i: usize = 0;
    while i < model.entities.len()
        invariant
            i <= model.entities@.len(),
            item_views(items@) == class_items(model.entities@.subrange(0, i as int)),
        decreases model.entities@.len() - i,
    {
        let e = &model.entities[i];
        let ghost before = item_views(items@);
        let source_file = e.source_location.file.as_str();
        let line = e.source_location.line;
        let source_line: Option<u32> = if line != 0 {
            Some(line)
        } else {
            None
        };
        if e.entity_type == EntityType::Interface {
            let mut k: usize = 0;
            while k < e.methods.len()
                invariant
                    k <= e.methods@.len(),
                    *e == model.entities@[i as int],
                    i < model.entities@.len(),
                    source_file@ == e.source_location.file@,
                    source_line == (if e.source_location.line != 0 { Some(e.source_location.line) } else { None::<u32> }),
                    item_views(items@) == before + method_items(*e, k as int),
                decreases e.methods@.len() - k,
            {
                let mut id = chars_of(e.id.as_str());
                id.push('.');
                let mv = chars_of(e.methods[k].name.as_str());
                push_all(&mut id, &mv);
                let method_id = string_of(id.as_slice());
                proof {
                    reveal_strlit(".");
                    assert(method_id@ == e.id@ + "."@ + e.methods@[k as int].name@);
                }
                let item = build_lobster_item(method_id.as_str(), source_file, source_line, "Method");
                let ghost mid = items@;
                items.push(item);
                assert(item_views(items@) == item_views(mid).push(items@.last()@));
                k = k + 1;
            }
        } else {
            let item = build_lobster_item(e.id.as_str(), source_file, source_line, map_entity_type_to_kind(e.entity_type));
            let ghost mid = items@;
            items.push(item);
            assert(item_views(items@) == item_views(mid).push(items@.last()@));
        }
        proof {
            let s = model.entities@.subrange(0, i + 1);
            assert(s.drop_last() == model.entities@.subrange(0, i as int));
            assert(s.last() == *e);
        }
        i = i + 1;
    }
    assert(model.entities@.subrange(0, model.entities@.len() as int) == model.entities@);
    lobster_document_from_items(items)
}

} // verus!

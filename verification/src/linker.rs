//! Cross-diagram links: a component that is drawn at the top level of another
//! diagram links to that diagram.
use vstd::prelude::*;
use crate::idmap::{lex_lt, opt_is, id_less, opt_equals, lemma_lex_irreflexive, lemma_lex_transitive, lemma_lex_total};
use crate::text::views;

verus! {

/// A component read from a diagram.
#[derive(Debug, Clone, PartialEq)]
pub struct DiagramComponent {
    pub alias: String,
    /// Fully qualified identifier (e.g. `package.Component`), registered as
    /// an additional key so other diagrams can match by FQN.
    pub id: Option<String>,
    pub parent_id: Option<String>,
}

/// All components of one diagram file.
#[derive(Debug, Clone, PartialEq)]
pub struct DiagramInfo {
    pub source_file: String,
    /// The `@startuml` name, registered as an additional top-level alias.
    pub diagram_name: Option<String>,
    pub components: Vec<DiagramComponent>,
}

/// One link: component `source_id` of `source_file` opens `target_file`.
#[derive(Debug, PartialEq)]
pub struct LinkEntry {
    pub source_file: String,
    pub source_id: String,
    pub target_file: String,
}

/// A link by its content.
pub type Link = (Seq<char>, Seq<char>, Seq<char>);

impl View for LinkEntry {
    type V = Link;

    open spec fn view(&self) -> Link {
        (self.source_file@, self.source_id@, self.target_file@)
    }
}

impl Clone for LinkEntry {
    fn clone(&self) -> (r: Self)
        ensures
            r == *self,
    {
        LinkEntry {
            source_file: self.source_file.clone(),
            source_id: self.source_id.clone(),
            target_file: self.target_file.clone(),
        }
    }
}

/// The diagrams registering `key` at the top level, in registration order.
fn find_targets(ds: &Vec<DiagramInfo>, key: &String) -> (r: Vec<String>)
    ensures
        views(r@) == targets(ds@, key@),
{
    let mut r: Vec<String> = Vec::new();
    let mut i: usize = 0;
    while i < ds.len()
        invariant
            i <= ds@.len(),
            views(r@) == targets(ds@.subrange(0, i as int), key@),
        decreases ds@.len() - i,
    {
        let d = &ds[i];
        let ghost before = views(r@);
        let mut j: usize = 0;
        while j < d.components.len()
            invariant
                i < ds@.len(),
                *d == ds@[i as int],
                j <= d.components@.len(),
                views(r@) == before + comp_regs(d.components@.subrange(0, j as int), d.source_file@, key@),
            decreases d.components@.len() - j,
        {
            let c = &d.components[j];
            let ghost mid = views(r@);
            let ghost f = d.source_file@;
            if c.parent_id.is_none() {
                if c.alias == *key {
                    r.push(d.source_file.clone());
                }
                let ghost mid2 = views(r@);
                assert(mid2 == mid + (if c.alias@ == key@ { seq![f] } else { Seq::empty() }));
                if opt_equals(&c.id, key) {
                    r.push(d.source_file.clone());
                }
                assert(views(r@) == mid2 + (if opt_is(c.id, key@) { seq![f] } else { Seq::empty() }));
            }
            proof {
                let cs = d.components@.subrange(0, j + 1);
                assert(cs.drop_last() == d.components@.subrange(0, j as int));
                assert(cs.last() == *c);
                assert(views(r@) == before + comp_regs(cs, d.source_file@, key@));
            }
            j = j + 1;
        }
        if opt_equals(&d.diagram_name, key) {
            r.push(d.source_file.clone());
        }
        proof {
            let s = ds@.subrange(0, i + 1);
            assert(s.drop_last() == ds@.subrange(0, i as int));
            assert(s.last() == *d);
            assert(d.components@.subrange(0, d.components@.len() as int) == d.components@);
        }
        i = i + 1;
    }
    assert(ds@.subrange(0, ds@.len() as int) == ds@);
    r
}

/// The contents of a sequence of links.
pub open spec fn links_view(v: Seq<LinkEntry>) -> Seq<Link> {
    v.map_values(|l: LinkEntry| l@)
}

/// How often the components `cs` of diagram `file` register `key` at the top
/// level (by alias, then by id), as the diagram's file repeated.
pub open spec fn comp_regs(cs: Seq<DiagramComponent>, file: Seq<char>, key: Seq<char>) -> Seq<Seq<char>>
    decreases cs.len(),
{
    if cs.len() == 0 {
        Seq::empty()
    } else {
        let c = cs.last();
        comp_regs(cs.drop_last(), file, key) + if c.parent_id is None {
            (if c.alias@ == key {
                seq![file]
            } else {
                Seq::empty()
            }) + (if opt_is(c.id, key) {
                seq![file]
            } else {
                Seq::empty()
            })
        } else {
            Seq::empty()
        }
    }
}

/// The diagrams registering `key` at the top level, in registration order:
/// diagram by diagram, its components first, then its name.
pub open spec fn targets(ds: Seq<DiagramInfo>, key: Seq<char>) -> Seq<Seq<char>>
    decreases ds.len(),
{
    if ds.len() == 0 {
        Seq::empty()
    } else {
        let d = ds.last();
        targets(ds.drop_last(), key) + comp_regs(d.components@, d.source_file@, key) + if opt_is(d.diagram_name, key) {
            seq![d.source_file@]
        } else {
            Seq::empty()
        }
    }
}

/// The links of one component of diagram `file` to the targets `ts`, except its own diagram.
pub open spec fn links_to(file: Seq<char>, alias: Seq<char>, ts: Seq<Seq<char>>) -> Seq<Link>
    decreases ts.len(),
{
    if ts.len() == 0 {
        Seq::empty()
    } else {
        links_to(file, alias, ts.drop_last()) + if ts.last() == file {
            Seq::empty()
        } else {
            seq![(file, alias, ts.last())]
        }
    }
}

/// The candidate links of the components `cs` of diagram `file`.
pub open spec fn comp_links(all: Seq<DiagramInfo>, file: Seq<char>, cs: Seq<DiagramComponent>) -> Seq<Link>
    decreases cs.len(),
{
    if cs.len() == 0 {
        Seq::empty()
    } else {
        comp_links(all, file, cs.drop_last()) + links_to(file, cs.last().alias@, targets(all, cs.last().alias@))
    }
}

/// All candidate links of the diagrams `ds` (looked up among `all`), in order.
pub open spec fn candidate_links(all: Seq<DiagramInfo>, ds: Seq<DiagramInfo>) -> Seq<Link>
    decreases ds.len(),
{
    if ds.len() == 0 {
        Seq::empty()
    } else {
        candidate_links(all, ds.drop_last()) + comp_links(all, ds.last().source_file@, ds.last().components@)
    }
}

/// Lexicographic order on links: source file, then source id, then target.
pub open spec fn link_lt(a: Link, b: Link) -> bool {
    lex_lt(a.0, b.0) || (a.0 == b.0 && (lex_lt(a.1, b.1) || (a.1 == b.1 && lex_lt(a.2, b.2))))
}

/// Where `x` goes in `s`: after every link not greater than it.
pub open spec fn link_pos(s: Seq<Link>, x: Link, i: int) -> int
    decreases s.len() - i,
{
    if i < 0 || i >= s.len() {
        s.len() as int
    } else if link_lt(x, s[i]) {
        i
    } else {
        link_pos(s, x, i + 1)
    }
}

/// `s` stably sorted by `link_lt`.
pub open spec fn sorted_links(s: Seq<Link>) -> Seq<Link>
    decreases s.len(),
{
    if s.len() == 0 {
        Seq::empty()
    } else {
        let p = sorted_links(s.drop_last());
        p.insert(link_pos(p, s.last(), 0), s.last())
    }
}

/// `s` without the links equal to the link kept just before them.
pub open spec fn dedup_same(s: Seq<Link>) -> Seq<Link>
    decreases s.len(),
{
    if s.len() == 0 {
        Seq::empty()
    } else {
        let p = dedup_same(s.drop_last());
        if p.len() > 0 && p.last() == s.last() {
            p
        } else {
            p.push(s.last())
        }
    }
}

/// `s` without the links whose source equals the source of the link kept just before them.
pub open spec fn dedup_source(s: Seq<Link>) -> Seq<Link>
    decreases s.len(),
{
    if s.len() == 0 {
        Seq::empty()
    } else {
        let p = dedup_source(s.drop_last());
        if p.len() > 0 && p.last().0 == s.last().0 && p.last().1 == s.last().1 {
            p
        } else {
            p.push(s.last())
        }
    }
}

/// The links of a set of diagrams: every candidate, sorted, without
/// repetitions, keeping one target (the first in order) per component.
pub open spec fn links_spec(ds: Seq<DiagramInfo>) -> Seq<Link> {
    dedup_source(dedup_same(sorted_links(candidate_links(ds, ds))))
}

/// Every candidate link of the diagrams, in order: diagram by diagram,
/// component by component, target by target.
fn collect_candidates(ds: &Vec<DiagramInfo>) -> (r: Vec<LinkEntry>)
    ensures
        links_view(r@) == candidate_links(ds@, ds@),
{
    let mut r: Vec<LinkEntry> = Vec::new();
    let mut i: usize = 0;
    while i < ds.len()
        invariant
            i <= ds@.len(),
            links_view(r@) == candidate_links(ds@, ds@.subrange(0, i as int)),
        decreases ds@.len() - i,
    {
        let d = &ds[i];
        let ghost before = links_view(r@);
        let mut j: usize = 0;
        while j < d.components.len()
            invariant
                i < ds@.len(),
                *d == ds@[i as int],
                j <= d.components@.len(),
                links_view(r@) == before + comp_links(ds@, d.source_file@, d.components@.subrange(0, j as int)),
            decreases d.components@.len() - j,
        {
            let c = &d.components[j];
            let ts = find_targets(ds, &c.alias);
            let ghost mid = links_view(r@);
            let mut k: usize = 0;
            while k < ts.len()
                invariant
                    k <= ts@.len(),
                    links_view(r@) == mid + links_to(d.source_file@, c.alias@, views(ts@).subrange(0, k as int)),
                decreases ts@.len() - k,
            {
                let ghost prev = links_view(r@);
                if ts[k] != d.source_file {
                    r.push(LinkEntry {
                        source_file: d.source_file.clone(),
                        source_id: c.alias.clone(),
                        target_file: ts[k].clone(),
                    });
                }
                proof {
                    let t = views(ts@).subrange(0, k + 1);
                    assert(t.drop_last() == views(ts@).subrange(0, k as int));
                    assert(t.last() == ts@[k as int]@);
                    assert(links_view(r@) == prev + (if ts@[k as int]@ == d.source_file@ { Seq::empty() } else { seq![(d.source_file@, c.alias@, ts@[k as int]@)] }));
                }
                k = k + 1;
            }
            proof {
                assert(views(ts@).subrange(0, ts@.len() as int) == views(ts@));
                let cs = d.components@.subrange(0, j + 1);
                assert(cs.drop_last() == d.components@.subrange(0, j as int));
                assert(cs.last() == *c);
            }
            j = j + 1;
        }
        proof {
            let s = ds@.subrange(0, i + 1);
            assert(s.drop_last() == ds@.subrange(0, i as int));
            assert(s.last() == *d);
            assert(d.components@.subrange(0, d.components@.len() as int) == d.components@);
        }
        i = i + 1;
    }
    assert(ds@.subrange(0, ds@.len() as int) == ds@);
    r
}

/// Whether link `a` comes strictly before link `b` (see `link_lt`).
fn link_less(a: &LinkEntry, b: &LinkEntry) -> (r: bool)
    ensures
        r == link_lt(a@, b@),
{
    if id_less(&a.source_file, &b.source_file) {
        true
    } else if a.source_file != b.source_file {
        false
    } else if id_less(&a.source_id, &b.source_id) {
        true
    } else if a.source_id != b.source_id {
        false
    } else {
        id_less(&a.target_file, &b.target_file)
    }
}

/// `v` stably sorted by `link_lt`.
fn sort_links(v: Vec<LinkEntry>) -> (r: Vec<LinkEntry>)
    ensures
        links_view(r@) == sorted_links(links_view(v@)),
{
    let ghost orig = links_view(v@);
    let mut rest = v;
    let mut out: Vec<LinkEntry> = Vec::new();
    let ghost mut k: int = 0;
    while rest.len() > 0
        invariant
            0 <= k <= orig.len(),
            links_view(rest@) == orig.subrange(k, orig.len() as int),
            links_view(out@) == sorted_links(orig.subrange(0, k)),
        decreases rest@.len(),
    {
        let ghost rest_before = rest@;
        let x = rest.remove(0);
        proof {
            assert(links_view(rest_before)[0] == x@);
            assert(links_view(rest_before).len() == rest_before.len());
            assert(orig.subrange(0, k + 1).drop_last() == orig.subrange(0, k));
            assert(orig.subrange(0, k + 1).last() == orig[k]);
            assert(links_view(rest@) == links_view(rest_before).drop_first());
        }
        let mut j: usize = 0;
        while j < out.len() && !link_less(&x, &out[j])
            invariant
                j <= out@.len(),
                link_pos(links_view(out@), x@, 0) == link_pos(links_view(out@), x@, j as int),
            decreases out@.len() - j,
        {
            j = j + 1;
        }
        let ghost out_before = out@;
        out.insert(j, x);
        proof {
            assert(links_view(out@) == links_view(out_before).insert(j as int, out@[j as int]@));
            k = k + 1;
            assert(links_view(rest@) == orig.subrange(k, orig.len() as int));
        }
    }
    assert(orig.subrange(0, orig.len() as int) == orig);
    out
}

/// Whether two links have the same source (`same_target` too: the same target).
fn same_link(a: &LinkEntry, b: &LinkEntry, same_target: bool) -> (r: bool)
    ensures
        r == (a@.0 == b@.0 && a@.1 == b@.1 && (same_target ==> a@.2 == b@.2)),
{
    a.source_file == b.source_file && a.source_id == b.source_id && (!same_target || a.target_file == b.target_file)
}

/// `v` without the links that repeat the link kept just before them: the
/// whole link (`by_target`) or only its source.
fn dedup_links(v: &Vec<LinkEntry>, by_target: bool) -> (r: Vec<LinkEntry>)
    ensures
        by_target ==> links_view(r@) == dedup_same(links_view(v@)),
        !by_target ==> links_view(r@) == dedup_source(links_view(v@)),
{
    let ghost s = links_view(v@);
    let mut out: Vec<LinkEntry> = Vec::new();
    let mut i: usize = 0;
    while i < v.len()
        invariant
            i <= v@.len(),
            s == links_view(v@),
            by_target ==> links_view(out@) == dedup_same(s.subrange(0, i as int)),
            !by_target ==> links_view(out@) == dedup_source(s.subrange(0, i as int)),
        decreases v@.len() - i,
    {
        let n = out.len();
        let keep = n == 0 || !same_link(&out[n - 1], &v[i], by_target);
        proof {
            let t = s.subrange(0, i + 1);
            assert(t.drop_last() == s.subrange(0, i as int));
            assert(t.last() == v@[i as int]@);
            if n > 0 {
                assert(links_view(out@).last() == out@[n - 1]@);
            }
        }
        if keep {
            out.push(v[i].clone());
        }
        i = i + 1;
    }
    assert(s.subrange(0, s.len() as int) == s);
    out
}

/// The links between diagrams: a component links to every other diagram
/// that draws a component of the same alias (or fully qualified id) at its
/// top level, or is named by it. The links are sorted by source file,
/// source id and target; each component keeps only its first target.
pub fn generate_links(diagrams: &Vec<DiagramInfo>) -> (r: Vec<LinkEntry>)
    ensures
        links_view(r@) == links_spec(diagrams@),
{
    let candidates = collect_candidates(diagrams);
    let sorted = sort_links(candidates);
    let unique = dedup_links(&sorted, true);
    dedup_links(&unique, false)
}

/// Whether the links of `s` are in ascending order.
pub open spec fn links_ascending(s: Seq<Link>) -> bool {
    forall|i: int, j: int| 0 <= i < j < s.len() ==> !link_lt(#[trigger] s[j], #[trigger] s[i])
}

/// Whether no two links of `s` leave the same component of the same diagram.
pub open spec fn one_link_per_source(s: Seq<Link>) -> bool {
    forall|i: int, j: int|
        0 <= i < j < s.len() ==> !(#[trigger] s[i].0 == #[trigger] s[j].0 && s[i].1 == s[j].1)
}

proof fn lemma_link_irreflexive(a: Link)
    ensures
        !link_lt(a, a),
{
    lemma_lex_irreflexive(a.0);
    lemma_lex_irreflexive(a.1);
    lemma_lex_irreflexive(a.2);
}

proof fn lemma_link_transitive(a: Link, b: Link, c: Link)
    requires
        link_lt(a, b),
        link_lt(b, c),
    ensures
        link_lt(a, c),
{
    if lex_lt(a.0, b.0) && lex_lt(b.0, c.0) {
        lemma_lex_transitive(a.0, b.0, c.0);
    } else if a.0 == b.0 && b.0 == c.0 {
        if lex_lt(a.1, b.1) && lex_lt(b.1, c.1) {
            lemma_lex_transitive(a.1, b.1, c.1);
        } else if a.1 == b.1 && b.1 == c.1 {
            lemma_lex_transitive(a.2, b.2, c.2);
        }
    }
}

proof fn lemma_link_total(a: Link, b: Link)
    ensures
        a == b || link_lt(a, b) || link_lt(b, a),
{
    lemma_lex_total(a.0, b.0);
    lemma_lex_total(a.1, b.1);
    lemma_lex_total(a.2, b.2);
}

/// Two links ordered `a <= b <= c` where `a` and `c` share their source
/// share it with `b` too.
proof fn lemma_source_between(a: Link, b: Link, c: Link)
    requires
        !link_lt(b, a),
        !link_lt(c, b),
        a.0 == c.0,
        a.1 == c.1,
    ensures
        b.0 == a.0,
        b.1 == a.1,
{
    lemma_link_total(a, b);
    lemma_link_total(b, c);
    lemma_lex_irreflexive(a.0);
    lemma_lex_irreflexive(a.1);
    if b.0 != a.0 {
        // a.0 < b.0 < c.0 == a.0
        lemma_lex_transitive(a.0, b.0, c.0);
    } else if b.1 != a.1 {
        lemma_lex_transitive(a.1, b.1, c.1);
    }
}

proof fn lemma_link_pos_bounds(s: Seq<Link>, x: Link, i: int)
    requires
        0 <= i <= s.len(),
    ensures
        i <= link_pos(s, x, i) <= s.len(),
        forall|k: int| i <= k < link_pos(s, x, i) ==> !link_lt(x, #[trigger] s[k]),
        link_pos(s, x, i) < s.len() ==> link_lt(x, s[link_pos(s, x, i)]),
    decreases s.len() - i,
{
    if i < s.len() && !link_lt(x, s[i]) {
        lemma_link_pos_bounds(s, x, i + 1);
    }
}

proof fn lemma_insert_keeps_links_ascending(s: Seq<Link>, x: Link)
    requires
        links_ascending(s),
    ensures
        links_ascending(s.insert(link_pos(s, x, 0), x)),
{
    let p = link_pos(s, x, 0);
    lemma_link_pos_bounds(s, x, 0);
    let r = s.insert(p, x);
    assert forall|i: int, j: int| 0 <= i < j < r.len() implies !link_lt(#[trigger] r[j], #[trigger] r[i]) by {
        if i < p && j == p {
            lemma_link_total(x, s[i]);
            lemma_link_irreflexive(x);
        } else if i == p && j > p {
            let sj = s[j - 1];
            if link_lt(sj, x) {
                if j - 1 > p {
                    lemma_link_transitive(sj, x, s[p]);
                } else {
                    lemma_link_transitive(sj, x, sj);
                    lemma_link_irreflexive(sj);
                }
            }
        } else if i < p && j > p {
            assert(r[i] == s[i] && r[j] == s[j - 1]);
        } else if j < p {
            assert(r[i] == s[i] && r[j] == s[j]);
        } else {
            assert(r[i] == s[i - 1] && r[j] == s[j - 1]);
        }
    }
}

proof fn lemma_sorted_links_ascending(s: Seq<Link>)
    ensures
        links_ascending(sorted_links(s)),
    decreases s.len(),
{
    if s.len() > 0 {
        lemma_sorted_links_ascending(s.drop_last());
        lemma_insert_keeps_links_ascending(sorted_links(s.drop_last()), s.last());
    }
}

proof fn lemma_sorted_links_from(s: Seq<Link>)
    ensures
        sorted_links(s).len() == s.len(),
        forall|k: int| 0 <= k < s.len() ==> s.contains(#[trigger] sorted_links(s)[k]),
    decreases s.len(),
{
    if s.len() > 0 {
        let q = s.drop_last();
        lemma_sorted_links_from(q);
        let p = sorted_links(q);
        lemma_link_pos_bounds(p, s.last(), 0);
        let pos = link_pos(p, s.last(), 0);
        assert forall|k: int| 0 <= k < s.len() implies s.contains(#[trigger] sorted_links(s)[k]) by {
            if k < pos {
                assert(q.contains(p[k]));
                let w = choose|w: int| 0 <= w < q.len() && q[w] == p[k];
                assert(s[w] == p[k]);
            } else if k == pos {
                assert(s[s.len() - 1] == s.last());
            } else {
                assert(q.contains(p[k - 1]));
                let w = choose|w: int| 0 <= w < q.len() && q[w] == p[k - 1];
                assert(s[w] == p[k - 1]);
            }
        }
    }
}

proof fn lemma_dedup_same_from(s: Seq<Link>)
    requires
        links_ascending(s),
    ensures
        links_ascending(dedup_same(s)),
        forall|k: int| 0 <= k < dedup_same(s).len() ==> s.contains(#[trigger] dedup_same(s)[k]),
    decreases s.len(),
{
    if s.len() > 0 {
        let q = s.drop_last();
        assert(links_ascending(q));
        lemma_dedup_same_from(q);
        let p = dedup_same(q);
        assert forall|k: int| 0 <= k < p.len() implies s.contains(#[trigger] p[k]) by {
            let w = choose|w: int| 0 <= w < q.len() && q[w] == p[k];
            assert(s[w] == p[k]);
        }
        assert(s[s.len() - 1] == s.last());
        if !(p.len() > 0 && p.last() == s.last()) {
            let r = p.push(s.last());
            assert forall|i: int, j: int| 0 <= i < j < r.len() implies !link_lt(#[trigger] r[j], #[trigger] r[i]) by {
                if j == p.len() {
                    let w = choose|w: int| 0 <= w < q.len() && q[w] == p[i];
                    assert(s[w] == r[i]);
                    assert(s[s.len() - 1] == r[j]);
                } else {
                    assert(r[i] == p[i] && r[j] == p[j]);
                }
            }
        }
    }
}

proof fn lemma_dedup_source_from(s: Seq<Link>)
    requires
        links_ascending(s),
    ensures
        links_ascending(dedup_source(s)),
        one_link_per_source(dedup_source(s)),
        forall|k: int| 0 <= k < dedup_source(s).len() ==> s.contains(#[trigger] dedup_source(s)[k]),
    decreases s.len(),
{
    if s.len() > 0 {
        let q = s.drop_last();
        assert(links_ascending(q));
        lemma_dedup_source_from(q);
        let p = dedup_source(q);
        assert forall|k: int| 0 <= k < p.len() implies s.contains(#[trigger] p[k]) by {
            let w = choose|w: int| 0 <= w < q.len() && q[w] == p[k];
            assert(s[w] == p[k]);
        }
        assert(s[s.len() - 1] == s.last());
        if !(p.len() > 0 && p.last().0 == s.last().0 && p.last().1 == s.last().1) {
            let r = p.push(s.last());
            let x = s.last();
            assert forall|i: int| 0 <= i < p.len() implies !link_lt(x, #[trigger] p[i]) by {
                let w = choose|w: int| 0 <= w < q.len() && q[w] == p[i];
                assert(s[w] == p[i]);
                assert(s[s.len() - 1] == x);
            }
            assert forall|i: int, j: int| 0 <= i < j < r.len() implies !link_lt(#[trigger] r[j], #[trigger] r[i]) by {
                if j == p.len() {
                    assert(r[j] == x);
                } else {
                    assert(r[i] == p[i] && r[j] == p[j]);
                }
            }
            assert forall|i: int, j: int| 0 <= i < j < r.len() implies !(#[trigger] r[i].0 == #[trigger] r[j].0
                && r[i].1 == r[j].1) by {
                if j == p.len() {
                    assert(r[j] == x);
                    assert(r[i] == p[i]);
                    if r[i].0 == x.0 && r[i].1 == x.1 {
                        let last = p.last();
                        if i < p.len() - 1 {
                            assert(!link_lt(p[p.len() - 1], p[i]));
                        }
                        assert(!link_lt(x, last));
                        lemma_source_between(p[i], last, x);
                    }
                } else {
                    assert(r[i] == p[i] && r[j] == p[j]);
                }
            }
        }
    }
}

proof fn lemma_candidates_leave_own_diagram(all: Seq<DiagramInfo>, ds: Seq<DiagramInfo>)
    ensures
        forall|k: int| 0 <= k < candidate_links(all, ds).len() ==> {
            let l = #[trigger] candidate_links(all, ds)[k];
            l.0 != l.2 && targets(all, l.1).contains(l.2)
        },
    decreases ds.len(),
{
    if ds.len() > 0 {
        lemma_candidates_leave_own_diagram(all, ds.drop_last());
        lemma_comp_links_leave(all, ds.last().source_file@, ds.last().components@);
        let a = candidate_links(all, ds.drop_last());
        let b = comp_links(all, ds.last().source_file@, ds.last().components@);
        assert forall|k: int| 0 <= k < candidate_links(all, ds).len() implies {
            let l = #[trigger] candidate_links(all, ds)[k];
            l.0 != l.2 && targets(all, l.1).contains(l.2)
        } by {
            if k < a.len() {
                assert(candidate_links(all, ds)[k] == a[k]);
            } else {
                assert(candidate_links(all, ds)[k] == b[k - a.len()]);
            }
        }
    }
}

proof fn lemma_comp_links_leave(all: Seq<DiagramInfo>, file: Seq<char>, cs: Seq<DiagramComponent>)
    ensures
        forall|k: int| 0 <= k < comp_links(all, file, cs).len() ==> {
            let l = #[trigger] comp_links(all, file, cs)[k];
            l.0 != l.2 && targets(all, l.1).contains(l.2)
        },
    decreases cs.len(),
{
    if cs.len() > 0 {
        lemma_comp_links_leave(all, file, cs.drop_last());
        let alias = cs.last().alias@;
        lemma_links_to_leave(file, alias, targets(all, alias));
        let a = comp_links(all, file, cs.drop_last());
        let b = links_to(file, alias, targets(all, alias));
        assert forall|k: int| 0 <= k < comp_links(all, file, cs).len() implies {
            let l = #[trigger] comp_links(all, file, cs)[k];
            l.0 != l.2 && targets(all, l.1).contains(l.2)
        } by {
            if k < a.len() {
                assert(comp_links(all, file, cs)[k] == a[k]);
            } else {
                assert(comp_links(all, file, cs)[k] == b[k - a.len()]);
            }
        }
    }
}

proof fn lemma_links_to_leave(file: Seq<char>, alias: Seq<char>, ts: Seq<Seq<char>>)
    ensures
        forall|k: int| 0 <= k < links_to(file, alias, ts).len() ==> {
            let l = #[trigger] links_to(file, alias, ts)[k];
            l.0 == file && l.1 == alias && l.0 != l.2 && ts.contains(l.2)
        },
    decreases ts.len(),
{
    if ts.len() > 0 {
        let q = ts.drop_last();
        lemma_links_to_leave(file, alias, q);
        let a = links_to(file, alias, q);
        assert forall|k: int| 0 <= k < links_to(file, alias, ts).len() implies {
            let l = #[trigger] links_to(file, alias, ts)[k];
            l.0 == file && l.1 == alias && l.0 != l.2 && ts.contains(l.2)
        } by {
            let l = links_to(file, alias, ts)[k];
            if k < a.len() {
                assert(l == a[k]);
                let w = choose|w: int| 0 <= w < q.len() && q[w] == l.2;
                assert(ts[w] == l.2);
            } else {
                assert(ts[ts.len() - 1] == l.2);
            }
        }
    }
}

/// The links come out sorted by source file, source id and target; no two
/// leave the same component of the same diagram; and each leads from a
/// component to another diagram that registers the component's alias at its
/// top level.
pub proof fn lemma_links_well_formed(ds: Seq<DiagramInfo>)
    ensures
        links_ascending(links_spec(ds)),
        one_link_per_source(links_spec(ds)),
        forall|k: int| 0 <= k < links_spec(ds).len() ==> {
            let l = #[trigger] links_spec(ds)[k];
            l.0 != l.2 && targets(ds, l.1).contains(l.2)
        },
{
    let c = candidate_links(ds, ds);
    let s = sorted_links(c);
    let u = dedup_same(s);
    lemma_sorted_links_ascending(c);
    lemma_sorted_links_from(c);
    lemma_dedup_same_from(s);
    lemma_dedup_source_from(u);
    lemma_candidates_leave_own_diagram(ds, ds);
    assert forall|k: int| 0 <= k < links_spec(ds).len() implies {
        let l = #[trigger] links_spec(ds)[k];
        l.0 != l.2 && targets(ds, l.1).contains(l.2)
    } by {
        let l = links_spec(ds)[k];
        assert(u.contains(l));
        let a = choose|a: int| 0 <= a < u.len() && u[a] == l;
        assert(s.contains(u[a]));
        let b = choose|b: int| 0 <= b < s.len() && s[b] == l;
        assert(c.contains(s[b]));
        let d = choose|d: int| 0 <= d < c.len() && c[d] == l;
        assert(c[d] == l);
    }
}

} // verus!

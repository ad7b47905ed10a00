//! Notes whose aliases are excluded from relations.
use vstd::prelude::*;
use crate::parser_core::parse_tree::{ParseNode, Rule};

verus! {

/// Whether `rule` declares a note.
pub fn is_note_rule(rule: Rule) -> (r: bool)
    ensures
        r == (rule == Rule::note_single_line || rule == Rule::note_multiline || rule
            == Rule::note_declaration),
{
    match rule {
        Rule::note_single_line | Rule::note_multiline | Rule::note_declaration => true,
        _ => false,
    }
}

/// The alias a note match declares: its own text when it is the alias, else
/// the first alias found in its parts, in order.
pub open spec fn note_alias_of(n: ParseNode) -> Option<Seq<char>>
    decreases n,
{
    if n.rule == Rule::note_alias {
        Some(n.text@)
    } else {
        note_alias_in(n.children@)
    }
}

/// The first alias found in the matches `cs`, in order.
pub open spec fn note_alias_in(cs: Seq<ParseNode>) -> Option<Seq<char>>
    decreases cs,
{
    if cs.len() == 0 {
        None
    } else {
        match note_alias_in(cs.drop_last()) {
            Some(a) => Some(a),
            None => note_alias_of(cs.last()),
        }
    }
}

/// The alias a note declares, if any.
pub fn find_note_alias(node: &ParseNode) -> (r: Option<String>)
    ensures
        match r {
            Some(a) => note_alias_of(*node) == Some(a@),
            None => note_alias_of(*node) is None,
        },
    decreases node,
{
    if node.rule == Rule::note_alias {
        return Some(node.text.clone());
    }
    let cs = &node.children;
    let mut i: usize = 0;
    while i < cs.len()
        invariant
            i <= cs@.len(),
            cs == node.children,
            node.rule != Rule::note_alias,
            note_alias_in(cs@.take(i as int)) is None,
        decreases cs@.len() - i,
    {
        proof {
            assert(cs@.take(i + 1).drop_last() =~= cs@.take(i as int));
        }
        match find_note_alias(&cs[i]) {
            Some(a) => {
                proof {
                    assert(note_alias_in(cs@.take(i + 1)) == Some(a@));
                    lemma_note_alias_prefix(cs@, i + 1);
                }
                return Some(a);
            },
            None => {},
        }
        i = i + 1;
    }
    assert(cs@.take(cs@.len() as int) =~= cs@);
    None
}

/// An alias found in a prefix is the first one found in the whole.
proof fn lemma_note_alias_prefix(cs: Seq<ParseNode>, k: int)
    requires
        0 <= k <= cs.len(),
    ensures
        note_alias_in(cs.take(k)) matches Some(a) ==> note_alias_in(cs) == Some(a),
    decreases cs.len(),
{
    if k < cs.len() {
        assert(cs.drop_last().take(k) =~= cs.take(k));
        lemma_note_alias_prefix(cs.drop_last(), k);
    } else {
        assert(cs.take(k) =~= cs);
    }
}

/// The aliases of notes that were skipped, so that relations touching them
/// can be skipped too.
#[derive(Debug)]
pub struct IgnoredNoteRegistry {
    aliases: Vec<String>,
}

impl View for IgnoredNoteRegistry {
    type V = Set<Seq<char>>;

    closed spec fn view(&self) -> Set<Seq<char>> {
        Set::new(|a: Seq<char>| exists|i: int| 0 <= i < self.aliases@.len() && self.aliases@[i]@ == a)
    }
}

impl IgnoredNoteRegistry {
    /// An empty registry.
    pub fn new() -> (r: Self)
        ensures
            r@ == Set::<Seq<char>>::empty(),
    {
        let r = IgnoredNoteRegistry { aliases: Vec::new() };
        assert(r@ =~= Set::<Seq<char>>::empty());
        r
    }

    /// Records `alias` as the alias of an ignored note.
    pub fn register(&mut self, alias: &str)
        ensures
            final(self)@ == old(self)@.insert(alias@),
    {
        let a = alias.to_owned();
        let ghost before = self.aliases@;
        self.aliases.push(a);
        assert forall|x: Seq<char>| #[trigger] self@.contains(x) == old(self)@.insert(alias@).contains(x) by {
            if old(self)@.contains(x) {
                let i = choose|i: int| 0 <= i < before.len() && before[i]@ == x;
                assert(self.aliases@[i] == before[i]);
            }
            if self@.contains(x) && x != alias@ {
                let i = choose|i: int| 0 <= i < self.aliases@.len() && self.aliases@[i]@ == x;
                assert(i < before.len());
                assert(before[i] == self.aliases@[i]);
            }
            if x == alias@ {
                assert(self.aliases@[before.len() as int]@ == x);
            }
        }
        assert(self@ =~= old(self)@.insert(alias@));
    }

    /// Whether `alias` belongs to an ignored note.
    pub fn contains(&self, alias: &str) -> (r: bool)
        ensures
            r == self@.contains(alias@),
    {
        let a = alias.to_owned();
        let mut i: usize = 0;
        while i < self.aliases.len()
            invariant
                i <= self.aliases@.len(),
                a@ == alias@,
                forall|k: int| 0 <= k < i ==> self.aliases@[k]@ != alias@,
            decreases self.aliases@.len() - i,
        {
            if self.aliases[i] == a {
                return true;
            }
            i = i + 1;
        }
        false
    }

    /// Whether a relation between `left` and `right` touches an ignored note.
    pub fn filters_endpoints(&self, left: &str, right: &str) -> (r: bool)
        ensures
            r == (self@.contains(left@) || self@.contains(right@)),
    {
        self.contains(left) || self.contains(right)
    }
}

/// A registered note alias filters every relation that touches it, from
/// either side, and registering leaves earlier aliases registered.
pub proof fn lemma_registered_alias_filters(notes: Set<Seq<char>>, alias: Seq<char>, other: Seq<char>, old_alias: Seq<char>)
    requires
        notes.contains(old_alias),
    ensures
        notes.insert(alias).contains(alias),
        notes.insert(alias).contains(alias) || notes.insert(alias).contains(other),
        notes.insert(alias).contains(other) || notes.insert(alias).contains(alias),
        notes.insert(alias).contains(old_alias),
{
}

/// The aliases an empty registry holds after registering `aliases` in order.
pub open spec fn registered(aliases: Seq<Seq<char>>) -> Set<Seq<char>>
    decreases aliases.len(),
{
    if aliases.len() == 0 {
        Set::empty()
    } else {
        registered(aliases.drop_last()).insert(aliases.last())
    }
}

/// After a sequence of registrations on a new registry (each registration
/// inserts, so the registry holds `registered(aliases)`), an alias is held
/// exactly when it was registered, and a relation is filtered exactly when
/// one of its endpoints was registered.
pub proof fn lemma_registrations_decide_filtering(aliases: Seq<Seq<char>>, left: Seq<char>, right: Seq<char>)
    ensures
        forall|x: Seq<char>| #[trigger] registered(aliases).contains(x) <==> aliases.contains(x),
        (registered(aliases).contains(left) || registered(aliases).contains(right)) <==> (aliases.contains(left)
            || aliases.contains(right)),
    decreases aliases.len(),
{
    if aliases.len() > 0 {
        let rest = aliases.drop_last();
        lemma_registrations_decide_filtering(rest, left, right);
        assert forall|x: Seq<char>| #[trigger] registered(aliases).contains(x) <==> aliases.contains(x) by {
            if rest.contains(x) {
                let i = choose|i: int| 0 <= i < rest.len() && rest[i] == x;
                assert(aliases[i] == x);
            }
            if aliases.contains(x) && x != aliases.last() {
                let i = choose|i: int| 0 <= i < aliases.len() && aliases[i] == x;
                assert(i < rest.len());
                assert(rest[i] == x);
            }
            if x == aliases.last() {
                assert(aliases[aliases.len() - 1] == x);
            }
        }
        assert(registered(aliases).contains(left) <==> aliases.contains(left));
        assert(registered(aliases).contains(right) <==> aliases.contains(right));
    } else {
        assert(registered(aliases).contains(left) <==> aliases.contains(left));
        assert(registered(aliases).contains(right) <==> aliases.contains(right));
    }
}

} // verus!

//! Expansion of `!include`, `!include_once`, `!include_many` and
//! `!includesub` directives over a set of diagram files.
//!
//! Files are `/`-separated path strings.  The syntax tree of each file is
//! supplied by the caller (`IncludeExpander::add_ast`); when an expansion
//! reaches a file whose tree has not been supplied it stops with
//! `IncludeExpandError::NotLoaded`, so that the caller can parse that file and
//! run the expansion again.
use vstd::prelude::*;
use crate::preprocessor::include_ast::{
    IncludeFile, IncludeKind, IncludeStmt, IncludeSuffix, SubBlock, rendered, rendered_list,
};
use crate::preprocessor::utils::{normalized, kept_lines, normalize_path, strip_start_end};
use crate::text::{text_lines, decimal, chars_of, string_of, copy_range, push_all, push_decimal_u64};

verus! {

/// A suffix by its content.
pub enum SuffixView {
    Label(Seq<char>),
    Index(u32),
}

/// The content of a suffix.
pub open spec fn suffix_view(s: IncludeSuffix) -> SuffixView {
    match s {
        IncludeSuffix::Label(l) => SuffixView::Label(l@),
        IncludeSuffix::Index(i) => SuffixView::Index(i),
    }
}

/// The text naming a suffix in messages.
pub open spec fn suffix_text(s: IncludeSuffix) -> Seq<char> {
    match s {
        IncludeSuffix::Label(l) => l@,
        IncludeSuffix::Index(i) => decimal(i as nat),
    }
}

/// Why an expansion failed.
#[derive(Debug, Clone, PartialEq)]
pub enum IncludeExpandError {
    /// A file is not among the diagram files, or has no directory.
    FileNotFound { file: String },
    /// A file could not be read or parsed.
    ParseFailed { file: String, error: String },
    /// A file includes itself, directly or through others (or a sub block
    /// includes itself); the chain ends with the repeated file.
    CycleInclude { chain: Vec<String> },
    /// A file was `!include_once`d a second time.
    IncludeOnceViolated { file: String, conflict: String },
    /// `!includesub` names a sub block the file does not have.
    UnknownSub { file: String, suffix: String },
    /// The syntax tree of a file has not been supplied yet.
    NotLoaded { file: String },
}

/// The content of an expansion error.
pub enum IncErr {
    FileNotFound(Seq<char>),
    ParseFailed(Seq<char>, Seq<char>),
    CycleInclude(Seq<Seq<char>>),
    IncludeOnceViolated(Seq<char>, Seq<char>),
    UnknownSub(Seq<char>, Seq<char>),
    NotLoaded(Seq<char>),
}

/// The character views of a sequence of strings.
pub open spec fn paths_view(v: Seq<String>) -> Seq<Seq<char>> {
    v.map_values(|s: String| s@)
}

impl View for IncludeExpandError {
    type V = IncErr;

    open spec fn view(&self) -> IncErr {
        match self {
            IncludeExpandError::FileNotFound { file } => IncErr::FileNotFound(file@),
            IncludeExpandError::ParseFailed { file, error } => IncErr::ParseFailed(file@, error@),
            IncludeExpandError::CycleInclude { chain } => IncErr::CycleInclude(paths_view(chain@)),
            IncludeExpandError::IncludeOnceViolated { file, conflict } => IncErr::IncludeOnceViolated(
                file@,
                conflict@,
            ),
            IncludeExpandError::UnknownSub { file, suffix } => IncErr::UnknownSub(file@, suffix@),
            IncludeExpandError::NotLoaded { file } => IncErr::NotLoaded(file@),
        }
    }
}

/// Supplied syntax trees, by path; a later entry for a path wins.
pub type AstCache = Seq<(Seq<char>, Seq<IncludeFile>)>;

/// The supplied tree of `p`, if any.
pub open spec fn cached(c: AstCache, p: Seq<char>) -> Option<Seq<IncludeFile>>
    decreases c.len(),
{
    if c.len() == 0 {
        None
    } else if c.last().0 == p {
        Some(c.last().1)
    } else {
        cached(c.drop_last(), p)
    }
}

/// A sub block key: the file and the block's name.
pub type SubKey = (Seq<char>, SuffixView);

/// The keys of the top-level sub blocks of `items` in file `p`.
pub open spec fn sub_keys_of(p: Seq<char>, items: Seq<IncludeFile>) -> Seq<SubKey>
    decreases items.len(),
{
    if items.len() == 0 {
        Seq::empty()
    } else {
        sub_keys_of(p, items.drop_last()) + match items.last() {
            IncludeFile::SubBlock(sub) => seq![(p, suffix_view(sub.name))],
            _ => Seq::empty(),
        }
    }
}

/// The keys of all top-level sub blocks of all supplied trees.
pub open spec fn all_sub_keys(c: AstCache) -> Seq<SubKey>
    decreases c.len(),
{
    if c.len() == 0 {
        Seq::empty()
    } else {
        all_sub_keys(c.drop_last()) + sub_keys_of(c.last().0, c.last().1)
    }
}

/// How many entries of `universe` are not in `used`.
pub open spec fn free_count<A>(universe: Seq<A>, used: Seq<A>) -> nat
    decreases universe.len(),
{
    if universe.len() == 0 {
        0
    } else {
        free_count(universe.drop_last(), used) + if used.contains(universe.last()) {
            0nat
        } else {
            1nat
        }
    }
}

/// Using one more entry of the universe lowers the count.
pub proof fn lemma_free_count_drops<A>(universe: Seq<A>, used: Seq<A>, x: A)
    requires
        universe.contains(x),
        !used.contains(x),
    ensures
        free_count(universe, used.push(x)) < free_count(universe, used),
    decreases universe.len(),
{
    lemma_free_count_mono(universe.drop_last(), used, x);
    if universe.last() != x {
        assert(universe.drop_last().contains(x)) by {
            let i = choose|i: int| 0 <= i < universe.len() && universe[i] == x;
            assert(universe.drop_last()[i] == x);
        }
        lemma_free_count_drops(universe.drop_last(), used, x);
        assert(used.push(x).contains(universe.last()) == used.contains(universe.last())) by {
            if used.push(x).contains(universe.last()) {
                let j = choose|j: int| 0 <= j < used.push(x).len() && used.push(x)[j] == universe.last();
                if j < used.len() {
                    assert(used[j] == universe.last());
                }
            }
            if used.contains(universe.last()) {
                let j = choose|j: int| 0 <= j < used.len() && used[j] == universe.last();
                assert(used.push(x)[j] == universe.last());
            }
        }
    } else {
        assert(used.push(x)[used.len() as int] == x);
    }
}

/// Using one more element never raises the count.
pub proof fn lemma_free_count_mono<A>(universe: Seq<A>, used: Seq<A>, x: A)
    ensures
        free_count(universe, used.push(x)) <= free_count(universe, used),
    decreases universe.len(),
{
    if universe.len() > 0 {
        lemma_free_count_mono(universe.drop_last(), used, x);
        if used.contains(universe.last()) {
            let j = choose|j: int| 0 <= j < used.len() && used[j] == universe.last();
            assert(used.push(x)[j] == universe.last());
        }
    }
}

/// The number of nodes of a tree.
pub open spec fn node_count(f: IncludeFile) -> nat
    decreases f,
{
    match f {
        IncludeFile::SubBlock(sub) => 1 + nodes_count(sub.content@),
        _ => 1,
    }
}

/// The number of nodes of a sequence of trees.
pub open spec fn nodes_count(items: Seq<IncludeFile>) -> nat
    decreases items,
{
    if items.len() == 0 {
        0
    } else {
        nodes_count(items.drop_last()) + node_count(items.last())
    }
}

/// The number of nodes inside a sequence of sub blocks, plus one per block.
pub open spec fn subs_count(subs: Seq<SubBlock>) -> nat
    decreases subs.len(),
{
    if subs.len() == 0 {
        0
    } else {
        subs_count(subs.drop_last()) + nodes_count(subs.last().content@) + 1
    }
}

/// The top-level sub blocks of `items` named `suffix`, in order.
pub open spec fn subs_named(items: Seq<IncludeFile>, suffix: SuffixView) -> Seq<SubBlock>
    decreases items.len(),
{
    if items.len() == 0 {
        Seq::empty()
    } else {
        subs_named(items.drop_last(), suffix) + match items.last() {
            IncludeFile::SubBlock(sub) => if suffix_view(sub.name) == suffix {
                seq![sub]
            } else {
                Seq::empty()
            },
            _ => Seq::empty(),
        }
    }
}

/// The directory of a path: what precedes its last `/` (the root for a
/// top-level absolute path, empty for a bare name); none for `""` and `"/"`.
pub open spec fn parent_of(p: Seq<char>) -> Option<Seq<char>>
    decreases p.len(),
{
    last_slash_parent(p, p.len() as int)
}

/// `parent_of`, searching for the last `/` before position `i`.
pub open spec fn last_slash_parent(p: Seq<char>, i: int) -> Option<Seq<char>>
    decreases i,
{
    if p.len() == 0 || p == seq!['/'] {
        None
    } else if i <= 0 {
        Some(Seq::empty())
    } else if p[i - 1] == '/' {
        if i - 1 == 0 {
            Some(seq!['/'])
        } else {
            Some(p.subrange(0, i - 1))
        }
    } else {
        last_slash_parent(p, i - 1)
    }
}

/// `rel` resolved against the directory `base`.
pub open spec fn join_path(base: Seq<char>, rel: Seq<char>) -> Seq<char> {
    if rel.len() > 0 && rel[0] == '/' {
        rel
    } else if base.len() == 0 {
        rel
    } else if base.last() == '/' {
        base + rel
    } else {
        base + seq!['/'] + rel
    }
}

/// The include state that persists across the whole expansion: files
/// included once, and files included by default.
pub struct IncState {
    pub once: Set<Seq<char>>,
    pub dflt: Set<Seq<char>>,
}

/// The outcome of a step: the text or the failure, and the state after it.
pub type Outcome = (Result<Seq<char>, IncErr>, IncState);

/// Expands file `f` from the list `l`: it must be listed and not already
/// being expanded.
pub open spec fn exp_target(
    c: AstCache,
    l: Seq<Seq<char>>,
    f: Seq<char>,
    stack: Seq<Seq<char>>,
    active: Seq<SubKey>,
    st: IncState,
) -> Outcome
    decreases free_count(l, stack), free_count(all_sub_keys(c), active), 0nat, 1nat,
{
    if !l.contains(f) {
        (Err(IncErr::FileNotFound(f)), st)
    } else if stack.contains(f) {
        (Err(IncErr::CycleInclude(stack.push(f))), st)
    } else {
        proof {
            lemma_free_count_drops(l, stack, f);
        }
        match cached(c, f) {
            None => (Err(IncErr::NotLoaded(f)), st),
            Some(ast) => exp_items(c, l, ast, f, stack.push(f), active, st),
        }
    }
}

/// Expands a sequence of nodes of file `cur`, in order.
pub open spec fn exp_items(
    c: AstCache,
    l: Seq<Seq<char>>,
    items: Seq<IncludeFile>,
    cur: Seq<char>,
    stack: Seq<Seq<char>>,
    active: Seq<SubKey>,
    st: IncState,
) -> Outcome
    decreases free_count(l, stack), free_count(all_sub_keys(c), active), nodes_count(items), 2nat,
{
    if items.len() == 0 {
        (Ok(Seq::empty()), st)
    } else {
        proof {
            assert(node_count(items.last()) >= 1);
        }
        let (r1, s1) = exp_items(c, l, items.drop_last(), cur, stack, active, st);
        match r1 {
            Err(e) => (Err(e), s1),
            Ok(t1) => {
                let (r2, s2) = exp_item(c, l, items.last(), cur, stack, active, s1);
                match r2 {
                    Err(e) => (Err(e), s2),
                    Ok(t2) => (Ok(t1 + t2), s2),
                }
            },
        }
    }
}

/// Expands one node: text is kept, sub blocks are expanded in place,
/// directives are replaced by what they include.
pub open spec fn exp_item(
    c: AstCache,
    l: Seq<Seq<char>>,
    item: IncludeFile,
    cur: Seq<char>,
    stack: Seq<Seq<char>>,
    active: Seq<SubKey>,
    st: IncState,
) -> Outcome
    decreases free_count(l, stack), free_count(all_sub_keys(c), active), node_count(item), 1nat,
{
    match item {
        IncludeFile::Text(t) => (Ok(t@), st),
        IncludeFile::SubBlock(sub) => exp_items(c, l, sub.content@, cur, stack, active, st),
        IncludeFile::Include(inc) => exp_include(c, l, inc, cur, stack, active, st),
    }
}

/// What an include of `target` by `kind` does to the include state: whether
/// the target is expanded, and the new state; `None` for a second
/// `!include_once` of it.
pub open spec fn mark_include(st: IncState, kind: IncludeKind, target: Seq<char>) -> Option<(bool, IncState)> {
    match kind {
        IncludeKind::Include => if st.dflt.contains(target) {
            Some((false, st))
        } else {
            Some((true, IncState { once: st.once, dflt: st.dflt.insert(target) }))
        },
        IncludeKind::IncludeOnce => if st.once.contains(target) {
            None
        } else {
            Some((true, IncState { once: st.once.insert(target), dflt: st.dflt.insert(target) }))
        },
        IncludeKind::IncludeMany => Some((true, IncState { once: st.once, dflt: st.dflt.insert(target) })),
    }
}

/// Expands one directive of file `cur`.
pub open spec fn exp_include(
    c: AstCache,
    l: Seq<Seq<char>>,
    inc: IncludeStmt,
    cur: Seq<char>,
    stack: Seq<Seq<char>>,
    active: Seq<SubKey>,
    st: IncState,
) -> Outcome
    decreases free_count(l, stack), free_count(all_sub_keys(c), active), 0nat, 2nat,
{
    match parent_of(cur) {
        None => (Err(IncErr::FileNotFound(cur)), st),
        Some(base) => match inc {
            IncludeStmt::Include { kind, path } => {
                let target = normalized(join_path(base, path@));
                match kind {
                    IncludeKind::Include => if st.dflt.contains(target) {
                        (Ok(Seq::empty()), st)
                    } else {
                        include_text(
                            exp_target(
                                c,
                                l,
                                target,
                                stack,
                                active,
                                IncState { once: st.once, dflt: st.dflt.insert(target) },
                            ),
                        )
                    },
                    IncludeKind::IncludeOnce => if st.once.contains(target) {
                        (Err(IncErr::IncludeOnceViolated(cur, target)), st)
                    } else {
                        include_text(
                            exp_target(
                                c,
                                l,
                                target,
                                stack,
                                active,
                                IncState { once: st.once.insert(target), dflt: st.dflt.insert(target) },
                            ),
                        )
                    },
                    IncludeKind::IncludeMany => include_text(
                        exp_target(
                            c,
                            l,
                            target,
                            stack,
                            active,
                            IncState { once: st.once, dflt: st.dflt.insert(target) },
                        ),
                    ),
                }
            },
            IncludeStmt::IncludeSub { path, suffix } => {
                let target = normalized(join_path(base, path@));
                let key = (target, suffix_view(suffix));
                match cached(c, target) {
                    None => (Err(IncErr::NotLoaded(target)), st),
                    Some(ast) => {
                        let subs = subs_named(ast, suffix_view(suffix));
                        if subs.len() == 0 {
                            (Err(IncErr::UnknownSub(target, suffix_text(suffix))), st)
                        } else if active.contains(key) {
                            (Err(IncErr::CycleInclude(stack.push(target))), st)
                        } else {
                            proof {
                                lemma_found_sub_is_key(c, target, ast, suffix_view(suffix));
                                lemma_free_count_drops(all_sub_keys(c), active, key);
                            }
                            exp_subs(c, l, subs, target, stack, active.push(key), st)
                        }
                    },
                }
            },
        },
    }
}

/// The text an included file contributes: its frame lines removed.
pub open spec fn include_text(o: Outcome) -> Outcome {
    match o.0 {
        Ok(t) => (Ok(kept_lines(text_lines(t))), o.1),
        Err(e) => (Err(e), o.1),
    }
}

/// Expands the contents of the sub blocks `subs` of file `cur`, concatenated.
pub open spec fn exp_subs(
    c: AstCache,
    l: Seq<Seq<char>>,
    subs: Seq<SubBlock>,
    cur: Seq<char>,
    stack: Seq<Seq<char>>,
    active: Seq<SubKey>,
    st: IncState,
) -> Outcome
    decreases free_count(l, stack), free_count(all_sub_keys(c), active), subs_count(subs), 3nat,
{
    if subs.len() == 0 {
        (Ok(Seq::empty()), st)
    } else {
        let (r1, s1) = exp_subs(c, l, subs.drop_last(), cur, stack, active, st);
        match r1 {
            Err(e) => (Err(e), s1),
            Ok(t1) => {
                let (r2, s2) = exp_items(c, l, subs.last().content@, cur, stack, active, s1);
                match r2 {
                    Err(e) => (Err(e), s2),
                    Ok(t2) => (Ok(t1 + t2), s2),
                }
            },
        }
    }
}

/// A sub block found in a supplied tree has its key among all keys.
pub proof fn lemma_found_sub_is_key(c: AstCache, p: Seq<char>, ast: Seq<IncludeFile>, s: SuffixView)
    requires
        cached(c, p) == Some(ast),
        subs_named(ast, s).len() > 0,
    ensures
        all_sub_keys(c).contains((p, s)),
    decreases c.len(),
{
    if c.last().0 == p {
        lemma_named_sub_key(p, ast, s);
        let k = all_sub_keys(c.drop_last());
        let m = sub_keys_of(c.last().0, c.last().1);
        let i = choose|i: int| 0 <= i < m.len() && m[i] == (p, s);
        assert((k + m)[k.len() + i] == (p, s));
    } else {
        lemma_found_sub_is_key(c.drop_last(), p, ast, s);
        let k = all_sub_keys(c.drop_last());
        let m = sub_keys_of(c.last().0, c.last().1);
        let i = choose|i: int| 0 <= i < k.len() && k[i] == (p, s);
        assert((k + m)[i] == (p, s));
    }
}

/// A named sub block contributes its key.
pub proof fn lemma_named_sub_key(p: Seq<char>, items: Seq<IncludeFile>, s: SuffixView)
    requires
        subs_named(items, s).len() > 0,
    ensures
        sub_keys_of(p, items).contains((p, s)),
    decreases items.len(),
{
    let prev = sub_keys_of(p, items.drop_last());
    if subs_named(items.drop_last(), s).len() > 0 {
        lemma_named_sub_key(p, items.drop_last(), s);
        let i = choose|i: int| 0 <= i < prev.len() && prev[i] == (p, s);
        match items.last() {
            IncludeFile::SubBlock(sub) => {
                assert((prev + seq![(p, suffix_view(sub.name))])[i] == (p, s));
            },
            _ => {
                assert((prev + Seq::<SubKey>::empty())[i] == (p, s));
            },
        }
    } else {
        match items.last() {
            IncludeFile::SubBlock(sub) => {
                assert((prev + seq![(p, suffix_view(sub.name))])[prev.len() as int] == (p, s));
            },
            _ => {},
        }
    }
}

/// The set of paths held in a list.
pub open spec fn path_set(v: Seq<String>) -> Set<Seq<char>> {
    Set::new(|x: Seq<char>| paths_view(v).contains(x))
}

/// Pushing a path adds it to the set.
pub proof fn lemma_path_set_push(v: Seq<String>, s: String)
    ensures
        path_set(v.push(s)) == path_set(v).insert(s@),
{
    assert(paths_view(v.push(s)) == paths_view(v).push(s@));
    assert forall|x: Seq<char>| #[trigger] path_set(v.push(s)).contains(x) == path_set(v).insert(s@).contains(x) by {
        let pv = paths_view(v);
        if pv.push(s@).contains(x) && x != s@ {
            let i = choose|i: int| 0 <= i < pv.push(s@).len() && pv.push(s@)[i] == x;
            assert(i < pv.len());
            assert(pv[i] == x);
        }
        if pv.contains(x) {
            let i = choose|i: int| 0 <= i < pv.len() && pv[i] == x;
            assert(pv.push(s@)[i] == x);
        }
        if x == s@ {
            assert(pv.push(s@)[pv.len() as int] == x);
        }
    }
    assert(path_set(v.push(s)) =~= path_set(v).insert(s@));
}

/// The content of the keys of the sub blocks being expanded.
pub open spec fn keys_view(v: Seq<(String, IncludeSuffix)>) -> Seq<SubKey> {
    v.map_values(|k: (String, IncludeSuffix)| (k.0@, suffix_view(k.1)))
}

/// The per-expansion state: the files and sub blocks being expanded, and the
/// files included once and by default so far.
pub struct IncludeContext {
    include_stack: Vec<String>,
    active_subs: Vec<(String, IncludeSuffix)>,
    included_once: Vec<String>,
    included_default: Vec<String>,
}

impl IncludeContext {
    /// The files being expanded, outermost first.
    pub closed spec fn stack(&self) -> Seq<Seq<char>> {
        paths_view(self.include_stack@)
    }

    /// The sub blocks being expanded.
    pub closed spec fn active(&self) -> Seq<SubKey> {
        keys_view(self.active_subs@)
    }

    /// The include state.
    pub closed spec fn state(&self) -> IncState {
        IncState { once: path_set(self.included_once@), dflt: path_set(self.included_default@) }
    }

    /// A fresh context.
    pub fn new() -> (r: Self)
        ensures
            r.stack() == Seq::<Seq<char>>::empty(),
            r.active() == Seq::<SubKey>::empty(),
            r.state() == (IncState { once: Set::empty(), dflt: Set::empty() }),
    {
        let r = IncludeContext {
            include_stack: Vec::new(),
            active_subs: Vec::new(),
            included_once: Vec::new(),
            included_default: Vec::new(),
        };
        assert(r.stack() =~= Seq::<Seq<char>>::empty());
        assert(r.active() =~= Seq::<SubKey>::empty());
        assert(path_set(r.included_once@) =~= Set::<Seq<char>>::empty());
        assert(path_set(r.included_default@) =~= Set::<Seq<char>>::empty());
        r
    }

    /// Enters `file`: an include cycle if it is being expanded already.
    fn push_stack(&mut self, file: &String) -> (r: Result<(), IncludeExpandError>)
        ensures
            old(self).stack().contains(file@) ==> (r matches Err(e) && e@ == IncErr::CycleInclude(
                old(self).stack().push(file@),
            ) && *final(self) == *old(self)),
            !old(self).stack().contains(file@) ==> (r is Ok && final(self).stack() == old(self).stack().push(
                file@,
            ) && final(self).active() == old(self).active() && final(self).state() == old(self).state()),
    {
        if list_contains(&self.include_stack, file) {
            let mut chain = copy_paths(&self.include_stack);
            let ghost before = chain@;
            chain.push(file.clone());
            assert(paths_view(chain@) == paths_view(before).push(file@));
            return Err(IncludeExpandError::CycleInclude { chain });
        }
        let ghost before = self.include_stack@;
        self.include_stack.push(file.clone());
        assert(paths_view(self.include_stack@) == paths_view(before).push(file@));
        Ok(())
    }

    /// Leaves the innermost file, if any.
    fn pop_stack(&mut self)
        ensures
            old(self).stack().len() > 0 ==> final(self).stack() == old(self).stack().drop_last(),
            old(self).stack().len() == 0 ==> final(self).stack() == old(self).stack(),
            final(self).active() == old(self).active(),
            final(self).state() == old(self).state(),
    {
        let ghost before = self.include_stack@;
        self.include_stack.pop();
        assert(before.len() > 0 ==> paths_view(before.drop_last()) == paths_view(before).drop_last());
    }

    /// Records an include of `target` from `current_file` by `kind`: whether
    /// the target is to be expanded (a plain include of a file included
    /// before is not), or the violation of an `!include_once`.
    fn check_and_mark_include(&mut self, kind: &IncludeKind, current_file: &String, target: &String) -> (r:
        Result<bool, IncludeExpandError>)
        ensures
            final(self).stack() == old(self).stack(),
            final(self).active() == old(self).active(),
            match mark_include(old(self).state(), *kind, target@) {
                Some(st) => r == Ok::<bool, IncludeExpandError>(st.0) && final(self).state() == st.1,
                None => r matches Err(e) && e@ == IncErr::IncludeOnceViolated(current_file@, target@)
                    && final(self).state() == old(self).state(),
            },
    {
        match kind {
            IncludeKind::Include => {
                if list_contains(&self.included_default, target) {
                    return Ok(false);
                }
                proof {
                    lemma_path_set_push(self.included_default@, *target);
                }
                self.included_default.push(target.clone());
                Ok(true)
            },
            IncludeKind::IncludeOnce => {
                if list_contains(&self.included_once, target) {
                    return Err(
                        IncludeExpandError::IncludeOnceViolated { file: current_file.clone(), conflict: target.clone() },
                    );
                }
                proof {
                    lemma_path_set_push(self.included_once@, *target);
                    lemma_path_set_push(self.included_default@, *target);
                }
                self.included_once.push(target.clone());
                self.included_default.push(target.clone());
                Ok(true)
            },
            IncludeKind::IncludeMany => {
                proof {
                    lemma_path_set_push(self.included_default@, *target);
                }
                self.included_default.push(target.clone());
                Ok(true)
            },
        }
    }
}

/// Whether `x` is in the list `v`.
pub(crate) fn list_contains(v: &Vec<String>, x: &String) -> (r: bool)
    ensures
        r == paths_view(v@).contains(x@),
{
    let mut i: usize = 0;
    while i < v.len()
        invariant
            i <= v@.len(),
            forall|m: int| 0 <= m < i ==> v@[m]@ != x@,
        decreases v@.len() - i,
    {
        if v[i] == *x {
            assert(paths_view(v@)[i as int] == x@);
            return true;
        }
        i = i + 1;
    }
    assert forall|m: int| 0 <= m < paths_view(v@).len() implies paths_view(v@)[m] != x@ by {
        assert(paths_view(v@)[m] == v@[m]@);
    }
    false
}

/// A copy of a list of paths.
pub(crate) fn copy_paths(v: &Vec<String>) -> (r: Vec<String>)
    ensures
        paths_view(r@) == paths_view(v@),
{
    let mut out: Vec<String> = Vec::new();
    let mut i: usize = 0;
    while i < v.len()
        invariant
            i <= v@.len(),
            paths_view(out@) == paths_view(v@.subrange(0, i as int)),
        decreases v@.len() - i,
    {
        let ghost before = out@;
        out.push(v[i].clone());
        assert(paths_view(out@) == paths_view(before).push(v@[i as int]@));
        assert(paths_view(v@.subrange(0, i + 1)) == paths_view(v@.subrange(0, i as int)).push(
            v@[i as int]@,
        ));
        i = i + 1;
    }
    assert(v@.subrange(0, v@.len() as int) == v@);
    out
}

/// A copy of a suffix.
fn copy_suffix(s: &IncludeSuffix) -> (r: IncludeSuffix)
    ensures
        suffix_view(r) == suffix_view(*s),
{
    match s {
        IncludeSuffix::Label(l) => IncludeSuffix::Label(l.clone()),
        IncludeSuffix::Index(i) => IncludeSuffix::Index(*i),
    }
}

/// Whether two suffixes name the same sub block.
fn same_suffix(a: &IncludeSuffix, b: &IncludeSuffix) -> (r: bool)
    ensures
        r == (suffix_view(*a) == suffix_view(*b)),
{
    match (a, b) {
        (IncludeSuffix::Label(x), IncludeSuffix::Label(y)) => *x == *y,
        (IncludeSuffix::Index(x), IncludeSuffix::Index(y)) => *x == *y,
        _ => false,
    }
}

/// The text naming a suffix in messages.
fn suffix_string(s: &IncludeSuffix) -> (r: String)
    ensures
        r@ == suffix_text(*s),
{
    match s {
        IncludeSuffix::Label(l) => l.clone(),
        IncludeSuffix::Index(i) => {
            let mut out: Vec<char> = Vec::new();
            push_decimal_u64(*i as u64, &mut out);
            string_of(out.as_slice())
        },
    }
}

/// Whether the sub block `key` is being expanded.
fn keys_contain(v: &Vec<(String, IncludeSuffix)>, p: &String, s: &IncludeSuffix) -> (r: bool)
    ensures
        r == keys_view(v@).contains((p@, suffix_view(*s))),
{
    let mut i: usize = 0;
    while i < v.len()
        invariant
            i <= v@.len(),
            forall|m: int| 0 <= m < i ==> keys_view(v@)[m] != (p@, suffix_view(*s)),
        decreases v@.len() - i,
    {
        if v[i].0 == *p && same_suffix(&v[i].1, s) {
            assert(keys_view(v@)[i as int] == (p@, suffix_view(*s)));
            return true;
        }
        i = i + 1;
    }
    false
}

/// The directory of a path (see `parent_of`).
fn parent_dir(p: &[char]) -> (r: Option<Vec<char>>)
    ensures
        match parent_of(p@) {
            Some(d) => r matches Some(v) && v@ == d,
            None => r is None,
        },
{
    let n = p.len();
    if n == 0 {
        return None;
    }
    if n == 1 && p[0] == '/' {
        assert(p@ == seq!['/']);
        return None;
    }
    assert(p@ != seq!['/']) by {
        if p@ == seq!['/'] {
            assert(p@.len() == 1 && p@[0] == '/');
        }
    }
    let mut i = n;
    while i > 0
        invariant
            i <= n == p@.len(),
            n > 0,
            p@ != seq!['/'],
            last_slash_parent(p@, n as int) == last_slash_parent(p@, i as int),
        decreases i,
    {
        if p[i - 1] == '/' {
            if i - 1 == 0 {
                let mut v: Vec<char> = Vec::new();
                v.push('/');
                return Some(v);
            } else {
                return Some(copy_range(p, 0, i - 1));
            }
        }
        i = i - 1;
    }
    Some(Vec::new())
}

/// `rel` resolved against `base` (see `join_path`).
fn join_dir(base: &[char], rel: &[char]) -> (r: Vec<char>)
    ensures
        r@ == join_path(base@, rel@),
{
    if rel.len() > 0 && rel[0] == '/' {
        return copy_range(rel, 0, rel.len());
    }
    let mut out: Vec<char> = Vec::new();
    if base.len() == 0 {
        push_all(&mut out, rel);
        return out;
    }
    push_all(&mut out, base);
    if base[base.len() - 1] != '/' {
        out.push('/');
    }
    push_all(&mut out, rel);
    out
}

/// The normalised target of a directive's path written in a file of directory `base`.
fn resolve_target(base: &[char], rel: &String) -> (r: String)
    ensures
        r@ == normalized(join_path(base@, rel@)),
{
    let rv = chars_of(rel.as_str());
    let joined = join_dir(base, rv.as_slice());
    let js = string_of(joined.as_slice());
    normalize_path(js.as_str())
}

/// Whether node `i` of `items` is the sub block `sub`.
pub open spec fn is_sub_at(items: Seq<IncludeFile>, i: int, sub: SubBlock) -> bool {
    items[i] matches IncludeFile::SubBlock(x) && x == sub
}

/// The positions of the top-level sub blocks of `items` named `s`.
fn find_subs(items: &Vec<IncludeFile>, s: &IncludeSuffix) -> (r: Vec<usize>)
    ensures
        r@.len() == subs_named(items@, suffix_view(*s)).len(),
        forall|j: int|
            #![trigger r@[j]]
            0 <= j < r@.len() ==> r@[j] < items@.len() && is_sub_at(
                items@,
                r@[j] as int,
                subs_named(items@, suffix_view(*s))[j],
            ),
{
    let mut out: Vec<usize> = Vec::new();
    let mut k: usize = 0;
    while k < items.len()
        invariant
            k <= items@.len(),
            out@.len() == subs_named(items@.subrange(0, k as int), suffix_view(*s)).len(),
            forall|j: int|
                #![trigger out@[j]]
                0 <= j < out@.len() ==> out@[j] < items@.len() && is_sub_at(
                    items@,
                    out@[j] as int,
                    subs_named(items@.subrange(0, k as int), suffix_view(*s))[j],
                ),
        decreases items@.len() - k,
    {
        let ghost pre = items@.subrange(0, k as int);
        let ghost post = items@.subrange(0, k + 1);
        proof {
            assert(post.drop_last() == pre);
            assert(post.last() == items@[k as int]);
        }
        let ghost before = out@;
        match &items[k] {
            IncludeFile::SubBlock(sub) => {
                if same_suffix(&sub.name, s) {
                    out.push(k);
                    proof {
                        let sp = subs_named(pre, suffix_view(*s));
                        assert(subs_named(post, suffix_view(*s)) == sp + seq![*sub]);
                        assert forall|j: int| #![trigger out@[j]] 0 <= j < out@.len() implies out@[j]
                            < items@.len() && is_sub_at(
                            items@,
                            out@[j] as int,
                            subs_named(post, suffix_view(*s))[j],
                        ) by {
                            if j < before.len() {
                                assert(out@[j] == before[j]);
                                assert((sp + seq![*sub])[j] == sp[j]);
                            }
                        }
                    }
                } else {
                    proof {
                        let sp = subs_named(pre, suffix_view(*s));
                        assert(subs_named(post, suffix_view(*s)) == sp + Seq::<SubBlock>::empty());
                        assert(sp + Seq::<SubBlock>::empty() == sp);
                    }
                }
            },
            _ => {
                proof {
                    let sp = subs_named(pre, suffix_view(*s));
                    assert(subs_named(post, suffix_view(*s)) == sp + Seq::<SubBlock>::empty());
                    assert(sp + Seq::<SubBlock>::empty() == sp);
                }
            },
        }
        k = k + 1;
    }
    assert(items@.subrange(0, items@.len() as int) == items@);
    out
}

/// Expands the directives of diagram files over the syntax trees supplied so far.
pub struct IncludeExpander {
    ast_cache: Vec<(String, Vec<IncludeFile>)>,
}

/// The content of supplied trees.
pub open spec fn cache_view(v: Seq<(String, Vec<IncludeFile>)>) -> AstCache {
    v.map_values(|e: (String, Vec<IncludeFile>)| (e.0@, e.1@))
}

impl IncludeExpander {
    /// The syntax trees supplied so far.
    pub closed spec fn trees(&self) -> AstCache {
        cache_view(self.ast_cache@)
    }

    /// An expander with no syntax trees.
    pub fn new() -> (r: Self)
        ensures
            r.trees() == Seq::<(Seq<char>, Seq<IncludeFile>)>::empty(),
    {
        let r = IncludeExpander { ast_cache: Vec::new() };
        assert(r.trees() =~= Seq::<(Seq<char>, Seq<IncludeFile>)>::empty());
        r
    }

    /// Supplies the syntax tree of file `path`.
    pub fn add_ast(&mut self, path: String, ast: Vec<IncludeFile>)
        ensures
            final(self).trees() == old(self).trees().push((path@, ast@)),
    {
        let ghost before = self.ast_cache@;
        self.ast_cache.push((path, ast));
        assert(cache_view(self.ast_cache@) == cache_view(before).push(
            (self.ast_cache@.last().0@, self.ast_cache@.last().1@),
        ));
    }

    /// The supplied tree of `p`.
    fn load_ast(&self, p: &String) -> (r: Option<&Vec<IncludeFile>>)
        ensures
            match cached(self.trees(), p@) {
                Some(a) => r matches Some(x) && x@ == a,
                None => r is None,
            },
    {
        let mut j = self.ast_cache.len();
        assert(self.ast_cache@.subrange(0, j as int) == self.ast_cache@);
        while j > 0
            invariant
                j <= self.ast_cache@.len(),
                cached(self.trees(), p@) == cached(cache_view(self.ast_cache@.subrange(0, j as int)), p@),
            decreases j,
        {
            proof {
                let c = cache_view(self.ast_cache@.subrange(0, j as int));
                assert(c.drop_last() == cache_view(self.ast_cache@.subrange(0, j - 1)));
                assert(c.last() == (self.ast_cache@[j - 1].0@, self.ast_cache@[j - 1].1@));
            }
            if self.ast_cache[j - 1].0 == *p {
                return Some(&self.ast_cache[j - 1].1);
            }
            j = j - 1;
        }
        None
    }
}

/// Whether `r` and the context after a step agree with the outcome `o`
/// of that step from context `c0`.
pub open spec fn agrees(o: Outcome, r: Result<Vec<char>, IncludeExpandError>, c0: IncludeContext, c1: IncludeContext) -> bool {
    match o.0 {
        Ok(t) => r matches Ok(x) && x@ == t && c1.stack() == c0.stack() && c1.active() == c0.active()
            && c1.state() == o.1,
        Err(e) => r matches Err(x) && x@ == e,
    }
}

/// A node counts no more than the sequence it is in.
proof fn lemma_node_count_le(items: Seq<IncludeFile>, k: int)
    requires
        0 <= k < items.len(),
    ensures
        node_count(items[k]) <= nodes_count(items),
    decreases items.len(),
{
    if k < items.len() - 1 {
        lemma_node_count_le(items.drop_last(), k);
        assert(items.drop_last()[k] == items[k]);
    }
}

/// A sub block's content counts less than the sequence of sub blocks it is in.
proof fn lemma_sub_count_lt(subs: Seq<SubBlock>, j: int)
    requires
        0 <= j < subs.len(),
    ensures
        nodes_count(subs[j].content@) < subs_count(subs),
    decreases subs.len(),
{
    if j < subs.len() - 1 {
        lemma_sub_count_lt(subs.drop_last(), j);
        assert(subs.drop_last()[j] == subs[j]);
    }
}

impl IncludeExpander {
    /// Expands file `f` (see `exp_target`).
    fn expand_file(&self, f: &String, list: &Vec<String>, ctx: &mut IncludeContext) -> (r: Result<
        Vec<char>,
        IncludeExpandError,
    >)
        ensures
            agrees(
                exp_target(
                    self.trees(),
                    paths_view(list@),
                    f@,
                    old(ctx).stack(),
                    old(ctx).active(),
                    old(ctx).state(),
                ),
                r,
                *old(ctx),
                *final(ctx),
            ),
        decreases
            free_count(paths_view(list@), old(ctx).stack()),
            free_count(all_sub_keys(self.trees()), old(ctx).active()),
            0nat,
            1nat,
    {
        if !list_contains(list, f) {
            return Err(IncludeExpandError::FileNotFound { file: f.clone() });
        }
        let ghost c0 = *ctx;
        match ctx.push_stack(f) {
            Err(e) => {
                return Err(e);
            },
            Ok(()) => {},
        }
        proof {
            lemma_free_count_drops(paths_view(list@), c0.stack(), f@);
        }
        let ast = match self.load_ast(f) {
            None => {
                return Err(IncludeExpandError::NotLoaded { file: f.clone() });
            },
            Some(a) => a,
        };
        match self.expand_stmts(ast, f, list, ctx) {
            Err(e) => Err(e),
            Ok(t) => {
                ctx.pop_stack();
                assert(c0.stack().push(f@).drop_last() == c0.stack());
                Ok(t)
            },
        }
    }

    /// Expands the nodes `items` of file `cur` (see `exp_items`).
    fn expand_stmts(
        &self,
        items: &Vec<IncludeFile>,
        cur: &String,
        list: &Vec<String>,
        ctx: &mut IncludeContext,
    ) -> (r: Result<Vec<char>, IncludeExpandError>)
        ensures
            agrees(
                exp_items(
                    self.trees(),
                    paths_view(list@),
                    items@,
                    cur@,
                    old(ctx).stack(),
                    old(ctx).active(),
                    old(ctx).state(),
                ),
                r,
                *old(ctx),
                *final(ctx),
            ),
        decreases
            free_count(paths_view(list@), old(ctx).stack()),
            free_count(all_sub_keys(self.trees()), old(ctx).active()),
            nodes_count(items@),
            2nat,
    {
        let ghost c0 = *ctx;
        let mut out: Vec<char> = Vec::new();
        let mut k: usize = 0;
        while k < items.len()
            invariant
                k <= items@.len(),
                ctx.stack() == c0.stack(),
                ctx.active() == c0.active(),
                c0 == *old(ctx),
                ({
                    let o = exp_items(
                        self.trees(),
                        paths_view(list@),
                        items@.subrange(0, k as int),
                        cur@,
                        c0.stack(),
                        c0.active(),
                        c0.state(),
                    );
                    o.0 == Ok::<Seq<char>, IncErr>(out@) && ctx.state() == o.1
                }),
            decreases items@.len() - k,
        {
            proof {
                assert(items@.subrange(0, k + 1).drop_last() == items@.subrange(0, k as int));
                assert(items@.subrange(0, k + 1).last() == items@[k as int]);
                lemma_node_count_le(items@, k as int);
            }
            match self.expand_item(&items[k], cur, list, ctx) {
                Err(e) => {
                    proof {
                        assert(exp_items(
                            self.trees(),
                            paths_view(list@),
                            items@.subrange(0, k + 1),
                            cur@,
                            c0.stack(),
                            c0.active(),
                            c0.state(),
                        ).0 == Err::<Seq<char>, IncErr>(e@));
                        lemma_items_error_sticks(
                            self.trees(),
                            paths_view(list@),
                            items@,
                            cur@,
                            c0.stack(),
                            c0.active(),
                            c0.state(),
                            k as int + 1,
                        );
                    }
                    return Err(e);
                },
                Ok(t) => {
                    push_all(&mut out, t.as_slice());
                },
            }
            k = k + 1;
        }
        assert(items@.subrange(0, items@.len() as int) == items@);
        Ok(out)
    }

    /// Expands one node of file `cur` (see `exp_item`).
    fn expand_item(
        &self,
        item: &IncludeFile,
        cur: &String,
        list: &Vec<String>,
        ctx: &mut IncludeContext,
    ) -> (r: Result<Vec<char>, IncludeExpandError>)
        ensures
            agrees(
                exp_item(
                    self.trees(),
                    paths_view(list@),
                    *item,
                    cur@,
                    old(ctx).stack(),
                    old(ctx).active(),
                    old(ctx).state(),
                ),
                r,
                *old(ctx),
                *final(ctx),
            ),
        decreases
            free_count(paths_view(list@), old(ctx).stack()),
            free_count(all_sub_keys(self.trees()), old(ctx).active()),
            node_count(*item),
            1nat,
    {
        match item {
            IncludeFile::Text(t) => Ok(chars_of(t.as_str())),
            IncludeFile::SubBlock(sub) => self.expand_stmts(&sub.content, cur, list, ctx),
            IncludeFile::Include(inc) => self.expand_include(inc, cur, list, ctx),
        }
    }

    /// Expands one directive of file `cur` (see `exp_include`).
    fn expand_include(
        &self,
        inc: &IncludeStmt,
        cur: &String,
        list: &Vec<String>,
        ctx: &mut IncludeContext,
    ) -> (r: Result<Vec<char>, IncludeExpandError>)
        ensures
            agrees(
                exp_include(
                    self.trees(),
                    paths_view(list@),
                    *inc,
                    cur@,
                    old(ctx).stack(),
                    old(ctx).active(),
                    old(ctx).state(),
                ),
                r,
                *old(ctx),
                *final(ctx),
            ),
        decreases
            free_count(paths_view(list@), old(ctx).stack()),
            free_count(all_sub_keys(self.trees()), old(ctx).active()),
            0nat,
            2nat,
    {
        let cv = chars_of(cur.as_str());
        let base = match parent_dir(cv.as_slice()) {
            None => {
                return Err(IncludeExpandError::FileNotFound { file: cur.clone() });
            },
            Some(b) => b,
        };
        match inc {
            IncludeStmt::Include { kind, path } => {
                let target = resolve_target(base.as_slice(), path);
                match ctx.check_and_mark_include(kind, cur, &target) {
                    Err(e) => {
                        return Err(e);
                    },
                    Ok(false) => {
                        return Ok(Vec::new());
                    },
                    Ok(true) => {},
                }
                match self.expand_file(&target, list, ctx) {
                    Err(e) => Err(e),
                    Ok(full) => {
                        let fs = string_of(full.as_slice());
                        let stripped = strip_start_end(fs.as_str());
                        Ok(chars_of(stripped.as_str()))
                    },
                }
            },
            IncludeStmt::IncludeSub { path, suffix } => {
                let target = resolve_target(base.as_slice(), path);
                let ast = match self.load_ast(&target) {
                    None => {
                        return Err(IncludeExpandError::NotLoaded { file: target });
                    },
                    Some(a) => a,
                };
                let idx = find_subs(ast, suffix);
                if idx.len() == 0 {
                    return Err(
                        IncludeExpandError::UnknownSub { file: target, suffix: suffix_string(suffix) },
                    );
                }
                if keys_contain(&ctx.active_subs, &target, suffix) {
                    let mut chain = copy_paths(&ctx.include_stack);
                    let ghost before = chain@;
                    chain.push(target.clone());
                    assert(paths_view(chain@) == paths_view(before).push(target@));
                    return Err(IncludeExpandError::CycleInclude { chain });
                }
                let ghost key = (target@, suffix_view(*suffix));
                let ghost subs = subs_named(ast@, suffix_view(*suffix));
                proof {
                    lemma_found_sub_is_key(self.trees(), target@, ast@, suffix_view(*suffix));
                    lemma_free_count_drops(all_sub_keys(self.trees()), ctx.active(), key);
                }
                let ghost c0 = *ctx;
                let ghost before_active = ctx.active_subs@;
                ctx.active_subs.push((target.clone(), copy_suffix(suffix)));
                assert(keys_view(ctx.active_subs@) == keys_view(before_active).push(key));
                let ghost c1 = *ctx;
                let mut out: Vec<char> = Vec::new();
                let mut j: usize = 0;
                while j < idx.len()
                    invariant
                        j <= idx@.len() == subs.len(),
                        forall|q: int|
                            #![trigger idx@[q]]
                            0 <= q < idx@.len() ==> idx@[q] < ast@.len() && is_sub_at(ast@, idx@[q] as int, subs[q]),
                        ctx.stack() == c1.stack(),
                        ctx.active() == c1.active(),
                        c1.stack() == c0.stack(),
                        c1.active() == c0.active().push(key),
                        c1.state() == c0.state(),
                        c0 == *old(ctx),
                        exp_include(
                            self.trees(),
                            paths_view(list@),
                            *inc,
                            cur@,
                            c0.stack(),
                            c0.active(),
                            c0.state(),
                        ) == exp_subs(
                            self.trees(),
                            paths_view(list@),
                            subs,
                            target@,
                            c1.stack(),
                            c1.active(),
                            c1.state(),
                        ),
                        free_count(all_sub_keys(self.trees()), c1.active()) < free_count(
                            all_sub_keys(self.trees()),
                            c0.active(),
                        ),
                        ({
                            let o = exp_subs(
                                self.trees(),
                                paths_view(list@),
                                subs.subrange(0, j as int),
                                target@,
                                c1.stack(),
                                c1.active(),
                                c1.state(),
                            );
                            o.0 == Ok::<Seq<char>, IncErr>(out@) && ctx.state() == o.1
                        }),
                    decreases idx@.len() - j,
                {
                    proof {
                        assert(subs.subrange(0, j + 1).drop_last() == subs.subrange(0, j as int));
                        assert(subs.subrange(0, j + 1).last() == subs[j as int]);
                    }
                    let pos = idx[j];
                    match &ast[pos] {
                        IncludeFile::SubBlock(sub) => {
                            match self.expand_stmts(&sub.content, &target, list, ctx) {
                                Err(e) => {
                                    proof {
                                        assert(exp_subs(
                                            self.trees(),
                                            paths_view(list@),
                                            subs.subrange(0, j + 1),
                                            target@,
                                            c1.stack(),
                                            c1.active(),
                                            c1.state(),
                                        ).0 == Err::<Seq<char>, IncErr>(e@));
                                        lemma_subs_error_sticks(
                                            self.trees(),
                                            paths_view(list@),
                                            subs,
                                            target@,
                                            c1.stack(),
                                            c1.active(),
                                            c1.state(),
                                            j as int + 1,
                                        );
                                    }
                                    return Err(e);
                                },
                                Ok(t) => {
                                    push_all(&mut out, t.as_slice());
                                },
                            }
                        },
                        _ => {
                            proof {
                                assert(false);
                            }
                        },
                    }
                    j = j + 1;
                }
                assert(subs.subrange(0, subs.len() as int) == subs);
                let ghost mid = ctx.active_subs@;
                ctx.active_subs.pop();
                assert(keys_view(mid.drop_last()) == keys_view(mid).drop_last());
                assert(keys_view(mid) == c0.active().push(key));
                assert(c0.active().push(key).drop_last() == c0.active());
                assert(ctx.active() == c0.active());
                Ok(out)
            },
        }
    }

    /// Expands diagram file `file` of the list `file_list`, replacing each
    /// directive by what it includes (see `exp_target`, started with nothing
    /// being expanded and nothing included yet).
    pub fn expand(&self, file: &String, file_list: &Vec<String>) -> (r: Result<String, IncludeExpandError>)
        ensures
            match exp_target(
                self.trees(),
                paths_view(file_list@),
                file@,
                Seq::empty(),
                Seq::empty(),
                IncState { once: Set::empty(), dflt: Set::empty() },
            ).0 {
                Ok(t) => r matches Ok(x) && x@ == t,
                Err(e) => r matches Err(x) && x@ == e,
            },
    {
        let mut ctx = IncludeContext::new();
        match self.expand_file(file, file_list, &mut ctx) {
            Ok(t) => Ok(string_of(t.as_slice())),
            Err(e) => Err(e),
        }
    }
}

/// Whether no include directive occurs in a node, sub blocks included.
pub open spec fn node_without_includes(f: IncludeFile) -> bool
    decreases f,
{
    match f {
        IncludeFile::Text(_) => true,
        IncludeFile::SubBlock(sub) => without_includes(sub.content@),
        IncludeFile::Include(_) => false,
    }
}

/// Whether no include directive occurs in `items`, sub blocks included.
pub open spec fn without_includes(items: Seq<IncludeFile>) -> bool
    decreases items,
{
    if items.len() == 0 {
        true
    } else {
        without_includes(items.drop_last()) && node_without_includes(items.last())
    }
}

/// Nodes without directives expand to their rendering and leave the state as it was.
proof fn lemma_items_without_includes(
    c: AstCache,
    l: Seq<Seq<char>>,
    items: Seq<IncludeFile>,
    cur: Seq<char>,
    stack: Seq<Seq<char>>,
    active: Seq<SubKey>,
    st: IncState,
)
    requires
        without_includes(items),
    ensures
        exp_items(c, l, items, cur, stack, active, st) == (Ok::<Seq<char>, IncErr>(rendered_list(items)), st),
    decreases nodes_count(items),
{
    if items.len() > 0 {
        assert(node_count(items.last()) >= 1);
        assert(node_without_includes(items.last()));
        lemma_items_without_includes(c, l, items.drop_last(), cur, stack, active, st);
        match items.last() {
            IncludeFile::SubBlock(sub) => {
                assert(without_includes(sub.content@));
                lemma_items_without_includes(c, l, sub.content@, cur, stack, active, st);
                assert(exp_item(c, l, items.last(), cur, stack, active, st) == (Ok::<Seq<char>, IncErr>(
                    rendered(items.last()),
                ), st));
            },
            IncludeFile::Text(t) => {
                assert(exp_item(c, l, items.last(), cur, stack, active, st) == (Ok::<Seq<char>, IncErr>(
                    rendered(items.last()),
                ), st));
            },
            IncludeFile::Include(_) => {},
        }
    }
}

/// A listed file whose tree holds no include directive expands to the
/// rendering of its tree.
pub proof fn lemma_expand_without_includes(c: AstCache, l: Seq<Seq<char>>, f: Seq<char>, ast: Seq<IncludeFile>)
    requires
        l.contains(f),
        cached(c, f) == Some(ast),
        without_includes(ast),
    ensures
        exp_target(c, l, f, Seq::empty(), Seq::empty(), IncState { once: Set::empty(), dflt: Set::empty() }).0
            == Ok::<Seq<char>, IncErr>(rendered_list(ast)),
{
    let st = IncState { once: Set::empty(), dflt: Set::empty() };
    lemma_items_without_includes(c, l, ast, f, seq![f], Seq::empty(), st);
    assert(Seq::<Seq<char>>::empty().push(f) == seq![f]);
}

/// A plain `!include` of a file that was included before contributes
/// nothing and changes nothing.
pub proof fn lemma_repeated_include_is_empty(
    c: AstCache,
    l: Seq<Seq<char>>,
    path: String,
    cur: Seq<char>,
    stack: Seq<Seq<char>>,
    active: Seq<SubKey>,
    st: IncState,
)
    requires
        parent_of(cur) is Some,
        st.dflt.contains(normalized(join_path(parent_of(cur)->Some_0, path@))),
    ensures
        exp_include(c, l, IncludeStmt::Include { kind: IncludeKind::Include, path }, cur, stack, active, st)
            == (Ok::<Seq<char>, IncErr>(Seq::empty()), st),
{
}

/// A second `!include_once` of a file is refused, naming the including file
/// and the file included.
pub proof fn lemma_second_include_once_fails(
    c: AstCache,
    l: Seq<Seq<char>>,
    path: String,
    cur: Seq<char>,
    stack: Seq<Seq<char>>,
    active: Seq<SubKey>,
    st: IncState,
)
    requires
        parent_of(cur) is Some,
        st.once.contains(normalized(join_path(parent_of(cur)->Some_0, path@))),
    ensures
        exp_include(c, l, IncludeStmt::Include { kind: IncludeKind::IncludeOnce, path }, cur, stack, active, st)
            == (Err::<Seq<char>, IncErr>(
            IncErr::IncludeOnceViolated(cur, normalized(join_path(parent_of(cur)->Some_0, path@))),
        ), st),
{
}

/// A file being expanded that is reached again is a cycle, reported with the
/// chain of files that leads back to it.
pub proof fn lemma_reentry_is_cycle(
    c: AstCache,
    l: Seq<Seq<char>>,
    f: Seq<char>,
    stack: Seq<Seq<char>>,
    active: Seq<SubKey>,
    st: IncState,
)
    requires
        l.contains(f),
        stack.contains(f),
    ensures
        exp_target(c, l, f, stack, active, st) == (Err::<Seq<char>, IncErr>(IncErr::CycleInclude(stack.push(f))), st),
{
}

/// Once a prefix of the nodes fails, the whole sequence fails the same way.
proof fn lemma_items_error_sticks(
    c: AstCache,
    l: Seq<Seq<char>>,
    items: Seq<IncludeFile>,
    cur: Seq<char>,
    stack: Seq<Seq<char>>,
    active: Seq<SubKey>,
    st: IncState,
    k: int,
)
    requires
        0 <= k <= items.len(),
        exp_items(c, l, items.subrange(0, k), cur, stack, active, st).0 is Err,
    ensures
        exp_items(c, l, items, cur, stack, active, st).0 == exp_items(
            c,
            l,
            items.subrange(0, k),
            cur,
            stack,
            active,
            st,
        ).0,
    decreases items.len(),
{
    if items.len() > k {
        assert(items.drop_last().subrange(0, k) == items.subrange(0, k));
        lemma_items_error_sticks(c, l, items.drop_last(), cur, stack, active, st, k);
    } else {
        assert(items.subrange(0, k) == items);
    }
}

/// Once a prefix of the sub blocks fails, the whole sequence fails the same way.
proof fn lemma_subs_error_sticks(
    c: AstCache,
    l: Seq<Seq<char>>,
    subs: Seq<SubBlock>,
    cur: Seq<char>,
    stack: Seq<Seq<char>>,
    active: Seq<SubKey>,
    st: IncState,
    k: int,
)
    requires
        0 <= k <= subs.len(),
        exp_subs(c, l, subs.subrange(0, k), cur, stack, active, st).0 is Err,
    ensures
        exp_subs(c, l, subs, cur, stack, active, st).0 == exp_subs(
            c,
            l,
            subs.subrange(0, k),
            cur,
            stack,
            active,
            st,
        ).0,
    decreases subs.len(),
{
    if subs.len() > k {
        assert(subs.drop_last().subrange(0, k) == subs.subrange(0, k));
        lemma_subs_error_sticks(c, l, subs.drop_last(), cur, stack, active, st, k);
    } else {
        assert(subs.subrange(0, k) == subs);
    }
}

/// Renders expanded nodes (see `rendered_list`).
pub fn render_stmts(stmts: Vec<IncludeFile>) -> (r: String)
    ensures
        r@ == rendered_list(stmts@),
{
    let mut out = String::new();
    let mut i: usize = 0;
    while i < stmts.len()
        invariant
            i <= stmts@.len(),
            out@ == rendered_list(stmts@.subrange(0, i as int)),
        decreases stmts@.len() - i,
    {
        proof {
            assert(stmts@.subrange(0, i + 1).drop_last() == stmts@.subrange(0, i as int));
        }
        stmts[i].render(&mut out);
        i = i + 1;
    }
    assert(stmts@.subrange(0, stmts@.len() as int) == stmts@);
    out
}

} // verus!

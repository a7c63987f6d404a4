//! The symbol table of the symbol-table model: a flat arena of symbols
//! indexed by fully qualified name, simple name, package, kind, file and
//! parent. Removal by file marks the file's symbols removed; their ids
//! are never reused, and every lookup skips removed symbols.
use vstd::prelude::*;

use crate::primitives::location::Location;
use crate::symbol::Symbol;
use crate::symbol_id::SymbolId;
use crate::symbol_kind::SymbolKind;
use crate::text::{segment_start, segment_start_of, str_eq};

verus! {

/// What the indices recorded of a symbol when it was inserted: its
/// package (the FQN before its last dot, when it has one), its file, kind,
/// simple name and parent.
pub struct Filed {
    pub package: Option<Seq<char>>,
    pub file: Option<Seq<char>>,
    pub kind: SymbolKind,
    pub name: Seq<char>,
    pub parent: Option<SymbolId>,
}

/// The package of a dotted FQN: everything before its last dot, or none
/// when it has no dot.
pub open spec fn package_of(fqn: Seq<char>) -> Option<Seq<char>> {
    if segment_start(fqn) == 0 {
        None
    } else {
        Some(fqn.subrange(0, segment_start(fqn) - 1))
    }
}

/// The file of an optional location.
pub open spec fn file_of(l: Option<Location>) -> Option<Seq<char>> {
    match l {
        Some(loc) => Some(loc.file@),
        None => None,
    }
}

/// What the indices record of `s`.
pub open spec fn filed_of(s: Symbol) -> Filed {
    Filed {
        package: package_of(s.fqn@),
        file: file_of(s.location),
        kind: s.kind,
        name: s.name@,
        parent: s.parent,
    }
}

/// `s` with its id replaced by `id`.
pub open spec fn with_id(s: Symbol, id: SymbolId) -> Symbol {
    Symbol {
        id,
        fqn: s.fqn,
        name: s.name,
        kind: s.kind,
        location: s.location,
        modifiers: s.modifiers,
        annotations: s.annotations,
        parent: s.parent,
        children: s.children,
        relations: s.relations,
        signature: s.signature,
    }
}

/// The ids `0 .. n` that `keep` accepts, in increasing order.
pub open spec fn select_ids(n: nat, keep: spec_fn(int) -> bool) -> Seq<SymbolId>
    decreases n,
{
    if n == 0 {
        Seq::empty()
    } else {
        let r = select_ids((n - 1) as nat, keep);
        if keep(n - 1) {
            r.push(SymbolId((n - 1) as usize))
        } else {
            r
        }
    }
}

/// Number of `true` flags.
pub open spec fn count_true(s: Seq<bool>) -> nat
    decreases s.len(),
{
    if s.len() == 0 {
        0
    } else {
        count_true(s.drop_last()) + if s.last() {
            1nat
        } else {
            0nat
        }
    }
}

proof fn lemma_count_true(s: Seq<bool>)
    ensures
        count_true(s) <= s.len(),
        count_true(s) == s.len() <==> forall|i: int| 0 <= i < s.len() ==> s[i],
    decreases s.len(),
{
    if s.len() > 0 {
        lemma_count_true(s.drop_last());
        if count_true(s) == s.len() {
            assert forall|i: int| 0 <= i < s.len() implies s[i] by {
                if i < s.len() - 1 {
                    assert(s.drop_last()[i] == s[i]);
                }
            }
        }
        if forall|i: int| 0 <= i < s.len() ==> s[i] {
            assert forall|i: int| 0 <= i < s.drop_last().len() implies s.drop_last()[i] by {
                assert(s[i]);
            }
        }
    }
}

proof fn lemma_count_true_set(s: Seq<bool>, i: int)
    requires
        0 <= i < s.len(),
        !s[i],
    ensures
        count_true(s.update(i, true)) == count_true(s) + 1,
    decreases s.len(),
{
    if i < s.len() - 1 {
        lemma_count_true_set(s.drop_last(), i);
        assert(s.update(i, true).drop_last() =~= s.drop_last().update(i, true));
    } else {
        assert(s.update(i, true).drop_last() =~= s.drop_last());
    }
}

/// The parent a batch symbol gets: the id of the batch symbol its local
/// parent index names, when that one came earlier in the batch.
pub open spec fn parsed_parent(syms: Seq<Symbol>, k: int, base: nat) -> Option<SymbolId> {
    match syms[k].parent {
        Some(p) => if p.0 < k {
            Some(SymbolId((base + p.0) as usize))
        } else {
            None
        },
        None => None,
    }
}

/// The children a batch symbol collects from the first `upto` batch
/// symbols: each one at or after it whose local parent index names it.
pub open spec fn parsed_children(syms: Seq<Symbol>, k: int, upto: nat, base: nat) -> Seq<SymbolId>
    decreases upto,
{
    if upto == 0 {
        Seq::empty()
    } else {
        let r = parsed_children(syms, k, (upto - 1) as nat, base);
        let j = upto - 1;
        if syms[j].parent == Some(SymbolId(k as usize)) && k <= j {
            r.push(SymbolId((base + j) as usize))
        } else {
            r
        }
    }
}

proof fn lemma_parsed_children_early(syms: Seq<Symbol>, k: int, upto: nat, base: nat)
    requires
        upto <= k,
    ensures
        parsed_children(syms, k, upto, base) == Seq::<SymbolId>::empty(),
    decreases upto,
{
    if upto > 0 {
        lemma_parsed_children_early(syms, k, (upto - 1) as nat, base);
    }
}

/// `stored` is `s` filed under `id`, with `parent` and `children`.
pub open spec fn stored_as(
    stored: Symbol,
    s: Symbol,
    id: SymbolId,
    parent: Option<SymbolId>,
    children: Seq<SymbolId>,
) -> bool {
    &&& stored.id == id
    &&& stored.fqn == s.fqn
    &&& stored.name == s.name
    &&& stored.kind == s.kind
    &&& stored.location == s.location
    &&& stored.modifiers == s.modifiers
    &&& stored.annotations == s.annotations
    &&& stored.parent == parent
    &&& stored.children@ == children
    &&& stored.relations == s.relations
    &&& stored.signature == s.signature
}

/// What the indices record of batch symbol `k`.
pub open spec fn parsed_entry(syms: Seq<Symbol>, k: int, base: nat) -> Filed {
    Filed {
        package: package_of(syms[k].fqn@),
        file: file_of(syms[k].location),
        kind: syms[k].kind,
        name: syms[k].name@,
        parent: parsed_parent(syms, k, base),
    }
}

/// The FQN index after inserting the first `upto` batch symbols.
pub open spec fn fqns_after(
    m: Map<Seq<char>, SymbolId>,
    syms: Seq<Symbol>,
    upto: nat,
    base: nat,
) -> Map<Seq<char>, SymbolId>
    decreases upto,
{
    if upto == 0 {
        m
    } else {
        fqns_after(m, syms, (upto - 1) as nat, base).insert(
            syms[upto - 1].fqn@,
            SymbolId((base + upto - 1) as usize),
        )
    }
}

/// One recorded index entry of a symbol.
struct Entry {
    package: Option<String>,
    file: Option<String>,
    kind: SymbolKind,
    name: String,
    parent: Option<SymbolId>,
}

impl Entry {
    spec fn view(&self) -> Filed {
        Filed {
            package: match self.package {
                Some(p) => Some(p@),
                None => None,
            },
            file: match self.file {
                Some(f) => Some(f@),
                None => None,
            },
            kind: self.kind,
            name: self.name@,
            parent: self.parent,
        }
    }
}

/// One lookup index of the table.
enum IndexQuery<'a> {
    Name(&'a str),
    Package(&'a str),
    File(&'a str),
    Kind(SymbolKind),
    Parent(SymbolId),
}

impl<'a> IndexQuery<'a> {
    spec fn keeps(&self, e: Filed) -> bool {
        match self {
            IndexQuery::Name(n) => e.name == n@,
            IndexQuery::Package(p) => e.package == Some(p@),
            IndexQuery::File(f) => e.file == Some(f@),
            IndexQuery::Kind(k) => e.kind == *k,
            IndexQuery::Parent(p) => e.parent == Some(*p),
        }
    }

    fn keeps_entry(&self, e: &Entry) -> (b: bool)
        ensures
            b == self.keeps(e.view()),
    {
        match self {
            IndexQuery::Name(n) => str_eq(e.name.as_str(), n),
            IndexQuery::Package(p) => match &e.package {
                Some(q) => str_eq(q.as_str(), p),
                None => false,
            },
            IndexQuery::File(f) => match &e.file {
                Some(g) => str_eq(g.as_str(), f),
                None => false,
            },
            IndexQuery::Kind(k) => e.kind == *k,
            IndexQuery::Parent(p) => match e.parent {
                Some(q) => q == *p,
                None => false,
            },
        }
    }
}

/// The package of `fqn`, see [`package_of`].
fn package_of_fqn(fqn: &str) -> (r: Option<String>)
    ensures
        match r {
            Some(p) => package_of(fqn@) == Some(p@),
            None => package_of(fqn@) is None,
        },
{
    let start = segment_start_of(fqn);
    if start == 0 {
        None
    } else {
        Some(fqn.substring_char(0, start - 1).to_string())
    }
}

/// A copy of a string.
fn copy_text(s: &String) -> (r: String)
    ensures
        r@ == s@,
{
    s.as_str().to_string()
}

/// The flat symbol arena and its indices.
pub struct SymbolTable {
    arena: Vec<Symbol>,
    entries: Vec<Entry>,
    removed: Vec<bool>,
    n_removed: usize,
    fqn_index: Vec<(String, SymbolId)>,
}

impl Default for SymbolTable {
    fn default() -> (t: Self)
        ensures
            t.wf(),
            t.len_spec() == 0,
            t.fqn_map() == Map::<Seq<char>, SymbolId>::empty(),
    {
        Self::new()
    }
}

impl SymbolTable {
    /// Number of symbols ever inserted, removed ones included.
    pub closed spec fn len_spec(&self) -> nat {
        self.arena@.len()
    }

    /// The symbol stored under id `i`.
    pub closed spec fn symbol_at(&self, i: int) -> Symbol {
        self.arena@[i]
    }

    /// What the indices recorded of symbol `i` at its insertion.
    pub closed spec fn entry(&self, i: int) -> Filed {
        self.entries@[i].view()
    }

    /// Symbol `i` exists and has not been removed.
    pub closed spec fn is_live(&self, i: int) -> bool {
        0 <= i < self.arena@.len() && !self.removed@[i]
    }

    /// The FQN index: each FQN to the id last inserted under it, as long
    /// as no removal took the FQN out.
    pub closed spec fn fqn_map(&self) -> Map<Seq<char>, SymbolId> {
        Map::new(
            |f: Seq<char>| exists|j: int| 0 <= j < self.fqn_index@.len() && self.fqn_index@[j].0@ == f,
            |f: Seq<char>|
                self.fqn_index@[choose|j: int|
                    0 <= j < self.fqn_index@.len() && self.fqn_index@[j].0@ == f].1,
        )
    }

    pub closed spec fn wf(&self) -> bool {
        &&& self.entries@.len() == self.arena@.len()
        &&& self.removed@.len() == self.arena@.len()
        &&& self.n_removed == count_true(self.removed@)
        &&& forall|a: int, b: int|
            0 <= a < b < self.fqn_index@.len() ==> self.fqn_index@[a].0@ != self.fqn_index@[b].0@
        &&& forall|j: int|
            0 <= j < self.fqn_index@.len() ==> (#[trigger] self.fqn_index@[j]).1.0 < self.arena@.len()
    }

    /// The live ids whose recorded entry `keep` accepts, in id order.
    pub open spec fn select_live(&self, keep: spec_fn(Filed) -> bool) -> Seq<SymbolId> {
        select_ids(self.len_spec(), |i: int| self.is_live(i) && keep(self.entry(i)))
    }

    /// What a lookup of `fqn` finds: the id the FQN index holds for it,
    /// unless that symbol has been removed.
    pub open spec fn fqn_lookup(&self, fqn: Seq<char>) -> Option<SymbolId> {
        if self.fqn_map().contains_key(fqn) && self.is_live(self.fqn_map()[fqn].0 as int) {
            Some(self.fqn_map()[fqn])
        } else {
            None
        }
    }

    pub fn new() -> (t: Self)
        ensures
            t.wf(),
            t.len_spec() == 0,
            t.fqn_map() == Map::<Seq<char>, SymbolId>::empty(),
    {
        let t = SymbolTable {
            arena: Vec::new(),
            entries: Vec::new(),
            removed: Vec::new(),
            n_removed: 0,
            fqn_index: Vec::new(),
        };
        assert(t.fqn_map() =~= Map::<Seq<char>, SymbolId>::empty());
        t
    }

    /// Where `fqn` stands in the FQN index.
    fn fqn_position(&self, fqn: &str) -> (r: Option<usize>)
        ensures
            match r {
                Some(j) => j < self.fqn_index@.len() && self.fqn_index@[j as int].0@ == fqn@,
                None => forall|j: int|
                    0 <= j < self.fqn_index@.len() ==> self.fqn_index@[j].0@ != fqn@,
            },
    {
        let mut j: usize = 0;
        while j < self.fqn_index.len()
            invariant
                j <= self.fqn_index@.len(),
                forall|k: int| 0 <= k < j ==> self.fqn_index@[k].0@ != fqn@,
            decreases self.fqn_index.len() - j,
        {
            if str_eq(self.fqn_index[j].0.as_str(), fqn) {
                return Some(j);
            }
            j += 1;
        }
        None
    }

    proof fn lemma_fqn_map_at(&self, j: int)
        requires
            self.wf(),
            0 <= j < self.fqn_index@.len(),
        ensures
            self.fqn_map().contains_key(self.fqn_index@[j].0@),
            self.fqn_map()[self.fqn_index@[j].0@] == self.fqn_index@[j].1,
    {
        let f = self.fqn_index@[j].0@;
        let k = choose|k: int| 0 <= k < self.fqn_index@.len() && self.fqn_index@[k].0@ == f;
        assert(k == j);
    }

    /// Insert `symbol` under the next id (its `id` field is overwritten)
    /// and file it in every index; a symbol with the same FQN as an
    /// earlier one takes over its FQN index entry.
    pub fn insert(&mut self, symbol: Symbol) -> (id: SymbolId)
        requires
            old(self).wf(),
            old(self).len_spec() < usize::MAX,
        ensures
            final(self).wf(),
            id.0 == old(self).len_spec(),
            final(self).len_spec() == old(self).len_spec() + 1,
            final(self).symbol_at(id.0 as int) == with_id(symbol, id),
            final(self).entry(id.0 as int) == filed_of(symbol),
            final(self).is_live(id.0 as int),
            forall|i: int|
                0 <= i < old(self).len_spec() ==> #[trigger] final(self).symbol_at(i)
                    == old(self).symbol_at(i) && final(self).entry(i) == old(self).entry(i)
                    && final(self).is_live(i) == old(self).is_live(i),
            final(self).fqn_map() == old(self).fqn_map().insert(symbol.fqn@, id),
    {
        let id = SymbolId(self.arena.len());
        let ghost old_map = self.fqn_map();
        let package = package_of_fqn(symbol.fqn.as_str());
        let file = match &symbol.location {
            Some(loc) => Some(copy_text(&loc.file)),
            None => None,
        };
        let entry = Entry {
            package,
            file,
            kind: symbol.kind,
            name: copy_text(&symbol.name),
            parent: symbol.parent,
        };
        let ghost mut kpos: int = 0;
        match self.fqn_position(symbol.fqn.as_str()) {
            Some(j) => {
                let key = copy_text(&self.fqn_index[j].0);
                self.fqn_index.set(j, (key, id));
                proof {
                    kpos = j as int;
                }
            },
            None => {
                self.fqn_index.push((copy_text(&symbol.fqn), id));
                proof {
                    kpos = self.fqn_index@.len() - 1;
                }
            },
        }
        assert(0 <= kpos < self.fqn_index@.len() && self.fqn_index@[kpos].0@ == symbol.fqn@);
        let Symbol {
            id: _,
            fqn,
            name,
            kind,
            location,
            modifiers,
            annotations,
            parent,
            children,
            relations,
            signature,
        } = symbol;
        let stored = Symbol {
            id,
            fqn,
            name,
            kind,
            location,
            modifiers,
            annotations,
            parent,
            children,
            relations,
            signature,
        };
        self.arena.push(stored);
        self.entries.push(entry);
        self.removed.push(false);
        proof {
            assert(self.removed@.drop_last() == old(self).removed@);
            assert(self.fqn_map() =~= old_map.insert(symbol.fqn@, id)) by {
                assert forall|f: Seq<char>| #[trigger] self.fqn_map().contains_key(f) == old_map.insert(
                    symbol.fqn@,
                    id,
                ).contains_key(f) by {
                    if old_map.contains_key(f) {
                        let k = choose|k: int|
                            0 <= k < old(self).fqn_index@.len() && old(self).fqn_index@[k].0@ == f;
                        assert(self.fqn_index@[k].0@ == f);
                    }
                    if self.fqn_map().contains_key(f) && f != symbol.fqn@ {
                        let k = choose|k: int|
                            0 <= k < self.fqn_index@.len() && self.fqn_index@[k].0@ == f;
                        assert(old(self).fqn_index@[k].0@ == f);
                    }
                    if f == symbol.fqn@ {
                        assert(self.fqn_index@[kpos].0@ == f);
                    }
                }
                assert forall|f: Seq<char>| #[trigger] self.fqn_map().contains_key(f) implies self.fqn_map()[f]
                    == old_map.insert(symbol.fqn@, id)[f] by {
                    let k = choose|k: int|
                        0 <= k < self.fqn_index@.len() && self.fqn_index@[k].0@ == f;
                    self.lemma_fqn_map_at(k);
                    if f != symbol.fqn@ {
                        assert(old(self).fqn_index@[k] == self.fqn_index@[k]);
                        old(self).lemma_fqn_map_at(k);
                    }
                }
            }
        }
        id
    }

    /// Take `fqn` out of the FQN index.
    fn remove_fqn(&mut self, fqn: &str)
        requires
            old(self).wf(),
        ensures
            final(self).wf(),
            final(self).fqn_map() == old(self).fqn_map().remove(fqn@),
            final(self).arena == old(self).arena,
            final(self).entries == old(self).entries,
            final(self).removed == old(self).removed,
            final(self).n_removed == old(self).n_removed,
    {
        let ghost old_map = self.fqn_map();
        match self.fqn_position(fqn) {
            None => {
                assert(self.fqn_map() =~= old_map.remove(fqn@));
            },
            Some(j) => {
                let ghost before = self.fqn_index@;
                self.fqn_index.remove(j);
                proof {
                    assert(self.fqn_index@ == before.remove(j as int));
                    assert forall|f: Seq<char>| #[trigger] self.fqn_map().contains_key(f)
                        == old_map.remove(fqn@).contains_key(f) by {
                        if old_map.remove(fqn@).contains_key(f) {
                            let k = choose|k: int| 0 <= k < before.len() && before[k].0@ == f;
                            assert(k != j);
                            if k < j {
                                assert(self.fqn_index@[k] == before[k]);
                            } else {
                                assert(self.fqn_index@[k - 1] == before[k]);
                            }
                        }
                        if self.fqn_map().contains_key(f) {
                            let k = choose|k: int|
                                0 <= k < self.fqn_index@.len() && self.fqn_index@[k].0@ == f;
                            let k0 = if k < j { k } else { k + 1 };
                            assert(before[k0] == self.fqn_index@[k]);
                            assert(k0 != j);
                        }
                    }
                    assert forall|f: Seq<char>| #[trigger] self.fqn_map().contains_key(f) implies self.fqn_map()[f]
                        == old_map.remove(fqn@)[f] by {
                        let k = choose|k: int|
                            0 <= k < self.fqn_index@.len() && self.fqn_index@[k].0@ == f;
                        self.lemma_fqn_map_at(k);
                        let k0 = if k < j { k } else { k + 1 };
                        assert(before[k0] == self.fqn_index@[k]);
                        old(self).lemma_fqn_map_at(k0);
                    }
                    assert(self.fqn_map() =~= old_map.remove(fqn@));
                }
            },
        }
    }

    /// Remove every live symbol declared in `file`: each is marked removed
    /// (its id is never reused) and its current FQN leaves the FQN index.
    /// Nothing changes when no live symbol is declared there.
    pub fn remove_by_file(&mut self, file: &str)
        requires
            old(self).wf(),
        ensures
            final(self).wf(),
            final(self).len_spec() == old(self).len_spec(),
            forall|i: int| #[trigger] final(self).symbol_at(i) == old(self).symbol_at(i),
            forall|i: int| #[trigger] final(self).entry(i) == old(self).entry(i),
            forall|i: int|
                #[trigger] final(self).is_live(i) == (old(self).is_live(i) && old(self).entry(i).file
                    != Some(file@)),
            final(self).fqn_map() == old(self).fqn_map().remove_keys(
                Set::new(
                    |f: Seq<char>|
                        exists|i: int|
                            old(self).is_live(i) && old(self).entry(i).file == Some(file@)
                                && #[trigger] old(self).symbol_at(i).fqn@ == f,
                ),
            ),
    {
        let ghost gone = |i: int, f: Seq<char>| old(self).is_live(i) && old(self).entry(i).file == Some(file@)
            && old(self).symbol_at(i).fqn@ == f;
        let mut i: usize = 0;
        while i < self.arena.len()
            invariant
                self.wf(),
                i <= self.arena@.len(),
                self.arena == old(self).arena,
                self.entries == old(self).entries,
                forall|k: int|
                    #[trigger] self.is_live(k) == (old(self).is_live(k) && !(k < i
                        && old(self).entry(k).file == Some(file@))),
                self.fqn_map() == old(self).fqn_map().remove_keys(
                    Set::new(
                        |f: Seq<char>|
                            exists|k: int|
                                0 <= k < i && old(self).is_live(k) && old(self).entry(k).file == Some(
                                    file@,
                                ) && #[trigger] old(self).symbol_at(k).fqn@ == f,
                    ),
                ),
            decreases self.arena.len() - i,
        {
            proof {
                assert(self.is_live(i as int) == old(self).is_live(i as int));
                assert(self.entry(i as int) == old(self).entry(i as int));
            }
            let ghost removed_before = self.removed@;
            let ghost pre = *self;
            let hit = !self.removed[i] && match &self.entries[i].file {
                Some(g) => str_eq(g.as_str(), file),
                None => false,
            };
            let ghost map_before = self.fqn_map();
            if hit {
                proof {
                    lemma_count_true_set(self.removed@, i as int);
                    lemma_count_true(self.removed@);
                }
                self.removed.set(i, true);
                self.n_removed = self.n_removed + 1;
                let fqn = copy_text(&self.arena[i].fqn);
                self.remove_fqn(fqn.as_str());
            }
            proof {
                let s_old = Set::new(
                    |f: Seq<char>|
                        exists|k: int|
                            0 <= k < i && old(self).is_live(k) && old(self).entry(k).file == Some(
                                file@,
                            ) && #[trigger] old(self).symbol_at(k).fqn@ == f,
                );
                let s_new = Set::new(
                    |f: Seq<char>|
                        exists|k: int|
                            0 <= k < i + 1 && old(self).is_live(k) && old(self).entry(k).file
                                == Some(file@) && #[trigger] old(self).symbol_at(k).fqn@ == f,
                );
                assert(hit == (old(self).is_live(i as int) && old(self).entry(i as int).file == Some(file@)));
                assert forall|k: int|
                    #[trigger] self.is_live(k) == (old(self).is_live(k) && !(k < i + 1
                        && old(self).entry(k).file == Some(file@))) by {
                    assert(pre.is_live(k) == (old(self).is_live(k) && !(k < i && old(self).entry(k).file
                        == Some(file@))));
                    if k != i {
                        if 0 <= k < self.removed@.len() {
                            assert(self.removed@[k] == removed_before[k]);
                        }
                    }
                }
                if hit {
                    assert(s_new =~= s_old.insert(old(self).symbol_at(i as int).fqn@)) by {
                        assert forall|f: Seq<char>| s_new.contains(f) implies s_old.insert(
                            old(self).symbol_at(i as int).fqn@,
                        ).contains(f) by {
                            let k = choose|k: int|
                                0 <= k < i + 1 && old(self).is_live(k) && old(self).entry(k).file
                                    == Some(file@) && #[trigger] old(self).symbol_at(k).fqn@ == f;
                            if k < i {
                                assert(s_old.contains(f));
                            }
                        }
                    }
                    assert(self.fqn_map() =~= old(self).fqn_map().remove_keys(s_new));
                } else {
                    assert(s_new =~= s_old) by {
                        assert forall|f: Seq<char>| s_new.contains(f) implies s_old.contains(f) by {
                            let k = choose|k: int|
                                0 <= k < i + 1 && old(self).is_live(k) && old(self).entry(k).file
                                    == Some(file@) && #[trigger] old(self).symbol_at(k).fqn@ == f;
                            assert(k < i);
                        }
                    }
                }
            }
            i += 1;
        }
        proof {
            assert(Set::new(
                |f: Seq<char>|
                    exists|k: int|
                        0 <= k < i && old(self).is_live(k) && old(self).entry(k).file == Some(file@)
                            && #[trigger] old(self).symbol_at(k).fqn@ == f,
            ) =~= Set::new(
                |f: Seq<char>|
                    exists|k: int|
                        old(self).is_live(k) && old(self).entry(k).file == Some(file@)
                            && #[trigger] old(self).symbol_at(k).fqn@ == f,
            ));
        }
    }

    /// Insert a parser's batch, whose parent references are local indices
    /// into the batch. Batch symbol `k` gets id `len + k`; a local parent
    /// index that names an earlier batch symbol becomes that symbol's id
    /// (any other becomes no parent), and every batch symbol is added to
    /// the children of the batch symbol its local index names, when that
    /// one is not later in the batch. Incoming children lists are dropped.
    pub fn insert_parsed_symbols(&mut self, symbols: Vec<Symbol>)
        requires
            old(self).wf(),
            old(self).len_spec() + symbols@.len() <= usize::MAX,
        ensures
            final(self).wf(),
            final(self).len_spec() == old(self).len_spec() + symbols@.len(),
            forall|i: int|
                0 <= i < old(self).len_spec() ==> #[trigger] final(self).symbol_at(i)
                    == old(self).symbol_at(i) && final(self).entry(i) == old(self).entry(i)
                    && final(self).is_live(i) == old(self).is_live(i),
            forall|k: int|
                0 <= k < symbols@.len() ==> {
                    &&& stored_as(
                        #[trigger] final(self).symbol_at(old(self).len_spec() + k),
                        symbols@[k],
                        SymbolId((old(self).len_spec() + k) as usize),
                        parsed_parent(symbols@, k, old(self).len_spec()),
                        parsed_children(symbols@, k, symbols@.len(), old(self).len_spec()),
                    )
                    &&& final(self).entry(old(self).len_spec() + k) == parsed_entry(
                        symbols@,
                        k,
                        old(self).len_spec(),
                    )
                    &&& final(self).is_live(old(self).len_spec() + k)
                },
            final(self).fqn_map() == fqns_after(
                old(self).fqn_map(),
                symbols@,
                symbols@.len(),
                old(self).len_spec(),
            ),
    {
        let ghost syms = symbols@;
        let ghost base = self.len_spec();
        let mut id_map: Vec<SymbolId> = Vec::new();
        for symbol in it: symbols.into_iter()
            invariant
                it.seq() == syms,
                self.wf(),
                base == old(self).len_spec(),
                base + syms.len() <= usize::MAX,
                self.len_spec() == base + it.index(),
                id_map@.len() == it.index(),
                forall|j: int| 0 <= j < id_map@.len() ==> #[trigger] id_map@[j] == SymbolId((base + j) as usize),
                forall|i: int|
                    0 <= i < base ==> #[trigger] self.symbol_at(i) == old(self).symbol_at(i)
                        && self.entry(i) == old(self).entry(i) && self.is_live(i) == old(
                        self,
                    ).is_live(i),
                forall|k: int|
                    0 <= k < it.index() ==> {
                        &&& stored_as(
                            #[trigger] self.symbol_at(base + k),
                            syms[k],
                            SymbolId((base + k) as usize),
                            parsed_parent(syms, k, base),
                            parsed_children(syms, k, it.index() as nat, base),
                        )
                        &&& self.entry(base + k) == parsed_entry(syms, k, base)
                        &&& self.is_live(base + k)
                    },
                self.fqn_map() == fqns_after(old(self).fqn_map(), syms, it.index() as nat, base),
        {
            let ghost i = it.index();
            let ghost pre = *self;
            let local_parent = symbol.parent;
            let mapped = match local_parent {
                Some(p) => if p.0 < id_map.len() {
                    Some(id_map[p.0])
                } else {
                    None
                },
                None => None,
            };
            let Symbol {
                id,
                fqn,
                name,
                kind,
                location,
                modifiers,
                annotations,
                parent: _,
                children: _,
                relations,
                signature,
            } = symbol;
            let fresh = Symbol {
                id,
                fqn,
                name,
                kind,
                location,
                modifiers,
                annotations,
                parent: mapped,
                children: Vec::new(),
                relations,
                signature,
            };
            let real_id = self.insert(fresh);
            id_map.push(real_id);
            let ghost mid = *self;
            let ghost mut target: int = -1;
            if let Some(p) = local_parent {
                if p.0 < id_map.len() {
                    let real_parent = id_map[p.0];
                    proof {
                        assert(mid.is_live(real_parent.0 as int)) by {
                            if p.0 < i {
                                let _ = pre.symbol_at(base + p.0);
                                let _ = mid.symbol_at(base + p.0);
                                assert(pre.is_live(base + p.0));
                            }
                        }
                    }
                    match self.get_mut(real_parent) {
                        Some(ps) => {
                            ps.children.push(real_id);
                            proof {
                                target = real_parent.0 as int;
                            }
                        },
                        None => {},
                    }
                }
            }
            proof {
                assert(mapped == parsed_parent(syms, i, base));
                assert(target == -1 ==> *self == mid);
                assert(target != -1 ==> {
                    &&& syms[i].parent == Some(SymbolId((target - base) as usize))
                    &&& base <= target <= base + i
                    &&& self.symbol_at(target).children@ == mid.symbol_at(target).children@.push(real_id)
                });
                assert forall|k: int| 0 <= k < i + 1 implies {
                    &&& stored_as(
                        #[trigger] self.symbol_at(base + k),
                        syms[k],
                        SymbolId((base + k) as usize),
                        parsed_parent(syms, k, base),
                        parsed_children(syms, k, (i + 1) as nat, base),
                    )
                    &&& self.entry(base + k) == parsed_entry(syms, k, base)
                    &&& self.is_live(base + k)
                } by {
                    if k < i {
                        let _ = pre.symbol_at(base + k);
                        assert(pre.is_live(base + k));
                        assert(mid.symbol_at(base + k) == pre.symbol_at(base + k));
                    } else {
                        lemma_parsed_children_early(syms, k, i as nat, base);
                    }
                    if target != base + k {
                        assert(self.symbol_at(base + k) == mid.symbol_at(base + k));
                    }
                }
            }
        }
    }

    /// Number of symbols ever inserted, removed ones included.
    pub fn len(&self) -> (n: usize)
        ensures
            n == self.len_spec(),
    {
        self.arena.len()
    }

    /// True iff every symbol ever inserted has been removed.
    pub fn is_empty(&self) -> (b: bool)
        requires
            self.wf(),
        ensures
            b == forall|i: int| 0 <= i < self.len_spec() ==> !self.is_live(i),
    {
        proof {
            lemma_count_true(self.removed@);
            if forall|i: int| 0 <= i < self.len_spec() ==> !self.is_live(i) {
                assert forall|i: int| 0 <= i < self.removed@.len() implies self.removed@[i] by {
                    assert(!self.is_live(i));
                }
            }
            if forall|i: int| 0 <= i < self.removed@.len() ==> self.removed@[i] {
                assert forall|i: int| 0 <= i < self.len_spec() implies !self.is_live(i) by {
                    assert(self.removed@[i]);
                }
            }
        }
        self.arena.len() == self.n_removed
    }

    /// The live symbol with id `id`.
    pub fn get(&self, id: SymbolId) -> (r: Option<&Symbol>)
        requires
            self.wf(),
        ensures
            match r {
                Some(s) => self.is_live(id.0 as int) && *s == self.symbol_at(id.0 as int),
                None => !self.is_live(id.0 as int),
            },
    {
        if id.0 < self.arena.len() && !self.removed[id.0] {
            Some(&self.arena[id.0])
        } else {
            None
        }
    }

    /// The live symbol with id `id`, for editing in place. Edits reach the
    /// stored symbol only: the indices keep what they recorded at
    /// insertion.
    pub fn get_mut(&mut self, id: SymbolId) -> (r: Option<&mut Symbol>)
        requires
            old(self).wf(),
        ensures
            match r {
                Some(s) => {
                    &&& old(self).is_live(id.0 as int)
                    &&& *s == old(self).symbol_at(id.0 as int)
                    &&& final(self).symbol_at(id.0 as int) == *final(s)
                    &&& final(self).wf()
                    &&& final(self).len_spec() == old(self).len_spec()
                    &&& forall|i: int|
                        0 <= i < old(self).len_spec() && i != id.0 ==> #[trigger] final(self).symbol_at(i)
                            == old(self).symbol_at(i)
                    &&& forall|i: int| #[trigger] final(self).entry(i) == old(self).entry(i)
                    &&& forall|i: int| #[trigger] final(self).is_live(i) == old(self).is_live(i)
                    &&& final(self).fqn_map() == old(self).fqn_map()
                },
                None => !old(self).is_live(id.0 as int) && *final(self) == *old(self),
            },
    {
        if id.0 < self.arena.len() && !self.removed[id.0] {
            Some(&mut self.arena[id.0])
        } else {
            None
        }
    }

    /// The id the FQN index holds for `fqn`, unless that symbol has been
    /// removed.
    pub fn lookup_by_fqn(&self, fqn: &str) -> (r: Option<SymbolId>)
        requires
            self.wf(),
        ensures
            r == self.fqn_lookup(fqn@),
    {
        match self.fqn_position(fqn) {
            Some(j) => {
                proof {
                    self.lemma_fqn_map_at(j as int);
                }
                let id = self.fqn_index[j].1;
                if !self.removed[id.0] {
                    Some(id)
                } else {
                    None
                }
            },
            None => {
                assert(!self.fqn_map().contains_key(fqn@));
                None
            },
        }
    }

    /// The live ids whose recorded entry the query accepts, in id order.
    fn select(&self, q: &IndexQuery) -> (r: Vec<SymbolId>)
        requires
            self.wf(),
        ensures
            r@ == self.select_live(|e: Filed| q.keeps(e)),
    {
        let ghost keep = |i: int| self.is_live(i) && q.keeps(self.entry(i));
        let mut out: Vec<SymbolId> = Vec::new();
        let mut i: usize = 0;
        while i < self.arena.len()
            invariant
                self.wf(),
                i <= self.arena@.len(),
                keep == (|i: int| self.is_live(i) && q.keeps(self.entry(i))),
                out@ == select_ids(i as nat, keep),
            decreases self.arena.len() - i,
        {
            if !self.removed[i] && q.keeps_entry(&self.entries[i]) {
                out.push(SymbolId(i));
            }
            i += 1;
        }
        proof {
            assert(keep =~= (|i: int| self.is_live(i) && (|e: Filed| q.keeps(e))(self.entry(i))));
        }
        out
    }

    /// The live symbols with simple name `name`, in insertion order.
    pub fn lookup_by_name(&self, name: &str) -> (r: Vec<SymbolId>)
        requires
            self.wf(),
        ensures
            r@ == self.select_live(|e: Filed| e.name == name@),
    {
        let q = IndexQuery::Name(name);
        let r = self.select(&q);
        proof {
            assert((|e: Filed| q.keeps(e)) =~= (|e: Filed| e.name == name@));
        }
        r
    }

    /// The live symbols whose FQN lies directly in `package`.
    pub fn lookup_by_package(&self, package: &str) -> (r: Vec<SymbolId>)
        requires
            self.wf(),
        ensures
            r@ == self.select_live(|e: Filed| e.package == Some(package@)),
    {
        let q = IndexQuery::Package(package);
        let r = self.select(&q);
        proof {
            assert((|e: Filed| q.keeps(e)) =~= (|e: Filed| e.package == Some(package@)));
        }
        r
    }

    /// The live symbols inserted with parent `parent`.
    pub fn lookup_children(&self, parent: SymbolId) -> (r: Vec<SymbolId>)
        requires
            self.wf(),
        ensures
            r@ == self.select_live(|e: Filed| e.parent == Some(parent)),
    {
        let q = IndexQuery::Parent(parent);
        let r = self.select(&q);
        proof {
            assert((|e: Filed| q.keeps(e)) =~= (|e: Filed| e.parent == Some(parent)));
        }
        r
    }

    /// The live symbols of kind `kind`.
    pub fn lookup_by_kind(&self, kind: SymbolKind) -> (r: Vec<SymbolId>)
        requires
            self.wf(),
        ensures
            r@ == self.select_live(|e: Filed| e.kind == kind),
    {
        let q = IndexQuery::Kind(kind);
        let r = self.select(&q);
        proof {
            assert((|e: Filed| q.keeps(e)) =~= (|e: Filed| e.kind == kind));
        }
        r
    }

    /// The live symbols declared in `file`.
    pub fn lookup_by_file(&self, file: &str) -> (r: Vec<SymbolId>)
        requires
            self.wf(),
        ensures
            r@ == self.select_live(|e: Filed| e.file == Some(file@)),
    {
        let q = IndexQuery::File(file);
        let r = self.select(&q);
        proof {
            assert((|e: Filed| q.keeps(e)) =~= (|e: Filed| e.file == Some(file@)));
        }
        r
    }
}

} // verus!

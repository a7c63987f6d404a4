//! Completion items: the symbols offered at a cursor position, with the
//! lookups tests and the LSP run over them.
use vstd::prelude::*;

use crate::modifier::Modifier;
use crate::symbol_kind::SymbolKind;
use crate::text::str_eq;

verus! {

/// A symbol that is visible and relevant at a cursor position.
#[derive(Debug, Clone)]
pub struct CompletionItem {
    pub name: String,
    pub kind: SymbolKind,
    pub return_type: String,
    pub params: Vec<(String, String)>,
    pub modifiers: Vec<Modifier>,
    pub fqn: String,
    pub detail: String,
}

/// A list of completion items.
pub struct CompletionItems(pub Vec<CompletionItem>);

/// Item `it` has name `name` and kind `kind`.
pub open spec fn is_item(it: CompletionItem, name: Seq<char>, kind: SymbolKind) -> bool {
    it.name@ == name && it.kind == kind
}

/// How many of `items` have kind `kind`.
pub open spec fn kind_count(items: Seq<CompletionItem>, kind: SymbolKind) -> nat
    decreases items.len(),
{
    if items.len() == 0 {
        0
    } else {
        kind_count(items.drop_last(), kind) + if items.last().kind == kind {
            1nat
        } else {
            0nat
        }
    }
}

/// The names of the items of kind `kind`, in list order.
pub open spec fn kind_names(items: Seq<CompletionItem>, kind: SymbolKind) -> Seq<Seq<char>>
    decreases items.len(),
{
    if items.len() == 0 {
        Seq::empty()
    } else {
        let before = kind_names(items.drop_last(), kind);
        if items.last().kind == kind {
            before.push(items.last().name@)
        } else {
            before
        }
    }
}

/// `a` comes strictly before `b` in lexicographic (code point) order.
pub open spec fn text_lt(a: Seq<char>, b: Seq<char>) -> bool
    decreases a.len(),
{
    if b.len() == 0 {
        false
    } else if a.len() == 0 {
        true
    } else if a[0] != b[0] {
        (a[0] as u32) < (b[0] as u32)
    } else {
        text_lt(a.skip(1), b.skip(1))
    }
}

/// `s` (sorted) with `x` inserted after every element not greater than it.
pub open spec fn insert_sorted(s: Seq<Seq<char>>, x: Seq<char>) -> Seq<Seq<char>>
    decreases s.len(),
{
    if s.len() == 0 {
        seq![x]
    } else if text_lt(x, s.last()) {
        insert_sorted(s.drop_last(), x).push(s.last())
    } else {
        s.push(x)
    }
}

/// Insertion sort of `s` by [`text_lt`].
pub open spec fn sorted_texts(s: Seq<Seq<char>>) -> Seq<Seq<char>>
    decreases s.len(),
{
    if s.len() == 0 {
        Seq::empty()
    } else {
        insert_sorted(sorted_texts(s.drop_last()), s.last())
    }
}

/// True iff `a` comes strictly before `b` in lexicographic order.
fn str_lt(a: &str, b: &str) -> (r: bool)
    ensures
        r == text_lt(a@, b@),
{
    let ac = crate::text::chars_of(a);
    let bc = crate::text::chars_of(b);
    let mut i: usize = 0;
    proof {
        assert(a@.skip(0) =~= a@);
        assert(b@.skip(0) =~= b@);
    }
    while i < ac.len() && i < bc.len() && ac[i] == bc[i]
        invariant
            ac@ == a@,
            bc@ == b@,
            i <= ac@.len(),
            i <= bc@.len(),
            text_lt(a@, b@) == text_lt(a@.skip(i as int), b@.skip(i as int)),
        decreases ac.len() - i,
    {
        proof {
            assert(a@.skip(i as int)[0] == a@[i as int]);
            assert(b@.skip(i as int)[0] == b@[i as int]);
            assert(a@.skip(i as int).skip(1) =~= a@.skip(i + 1));
            assert(b@.skip(i as int).skip(1) =~= b@.skip(i + 1));
        }
        i += 1;
    }
    proof {
        assert(a@.skip(0) =~= a@);
        assert(b@.skip(0) =~= b@);
    }
    if i >= bc.len() {
        false
    } else if i >= ac.len() {
        true
    } else {
        proof {
            assert(a@.skip(i as int)[0] == a@[i as int]);
            assert(b@.skip(i as int)[0] == b@[i as int]);
        }
        (ac[i] as u32) < (bc[i] as u32)
    }
}

/// The texts of a list of string slices.
pub open spec fn strs_texts(v: Seq<&str>) -> Seq<Seq<char>> {
    v.map_values(|x: &str| x@)
}

impl CompletionItems {
    /// Is an item with this name and kind offered?
    pub fn has(&self, name: &str, kind: SymbolKind) -> (b: bool)
        ensures
            b == exists|i: int| 0 <= i < self.0@.len() && is_item(#[trigger] self.0@[i], name@, kind),
    {
        let mut i: usize = 0;
        while i < self.0.len()
            invariant
                i <= self.0@.len(),
                forall|j: int| 0 <= j < i ==> !is_item(#[trigger] self.0@[j], name@, kind),
            decreases self.0.len() - i,
        {
            if str_eq(self.0[i].name.as_str(), name) && self.0[i].kind == kind {
                return true;
            }
            i += 1;
        }
        false
    }

    /// The first item with this name and kind; there must be one.
    pub fn get(&self, name: &str, kind: SymbolKind) -> (r: &CompletionItem)
        requires
            exists|i: int| 0 <= i < self.0@.len() && is_item(#[trigger] self.0@[i], name@, kind),
        ensures
            exists|i: int|
                0 <= i < self.0@.len() && *r == self.0@[i] && is_item(self.0@[i], name@, kind) && (
                forall|j: int| 0 <= j < i ==> !is_item(#[trigger] self.0@[j], name@, kind)),
    {
        let mut i: usize = 0;
        while i < self.0.len()
            invariant
                i <= self.0@.len(),
                exists|k: int| 0 <= k < self.0@.len() && is_item(#[trigger] self.0@[k], name@, kind),
                forall|j: int| 0 <= j < i ==> !is_item(#[trigger] self.0@[j], name@, kind),
            decreases self.0.len() - i,
        {
            if str_eq(self.0[i].name.as_str(), name) && self.0[i].kind == kind {
                return &self.0[i];
            }
            i += 1;
        }
        proof {
            let k = choose|k: int| 0 <= k < self.0@.len() && is_item(#[trigger] self.0@[k], name@, kind);
            assert(!is_item(self.0@[k], name@, kind));
        }
        &self.0[0]
    }

    /// How many items of this kind?
    pub fn count(&self, kind: SymbolKind) -> (n: usize)
        ensures
            n == kind_count(self.0@, kind),
    {
        let mut n: usize = 0;
        let mut i: usize = 0;
        while i < self.0.len()
            invariant
                i <= self.0@.len(),
                n == kind_count(self.0@.take(i as int), kind),
                n <= i,
            decreases self.0.len() - i,
        {
            proof {
                assert(self.0@.take(i + 1).drop_last() =~= self.0@.take(i as int));
            }
            if self.0[i].kind == kind {
                n += 1;
            }
            i += 1;
        }
        proof {
            assert(self.0@.take(self.0@.len() as int) =~= self.0@);
        }
        n
    }

    /// The names of all items of a given kind, sorted.
    pub fn names(&self, kind: SymbolKind) -> (r: Vec<&str>)
        ensures
            strs_texts(r@) == sorted_texts(kind_names(self.0@, kind)),
    {
        let mut out: Vec<&str> = Vec::new();
        let mut i: usize = 0;
        while i < self.0.len()
            invariant
                i <= self.0@.len(),
                strs_texts(out@) == sorted_texts(kind_names(self.0@.take(i as int), kind)),
            decreases self.0.len() - i,
        {
            proof {
                assert(self.0@.take(i + 1).drop_last() =~= self.0@.take(i as int));
                assert(self.0@.take(i + 1).last() == self.0@[i as int]);
            }
            let ghost prev = kind_names(self.0@.take(i as int), kind);
            if self.0[i].kind == kind {
                let x: &str = self.0[i].name.as_str();
                insert_name(&mut out, x);
                proof {
                    assert(prev.push(x@).drop_last() =~= prev);
                    assert(kind_names(self.0@.take(i + 1), kind) == prev.push(x@));
                }
            }
            i += 1;
        }
        proof {
            assert(self.0@.take(self.0@.len() as int) =~= self.0@);
        }
        out
    }

    /// The items, in order.
    pub fn iter(&self) -> (r: &[CompletionItem])
        ensures
            r@ == self.0@,
    {
        self.0.as_slice()
    }
}

/// Insert `x` into the sorted list `out` (see [`insert_sorted`]).
fn insert_name<'a>(out: &mut Vec<&'a str>, x: &'a str)
    ensures
        strs_texts(final(out)@) == insert_sorted(strs_texts(old(out)@), x@),
{
    let ghost s = strs_texts(out@);
    let mut p = out.len();
    proof {
        assert(strs_texts(out@).take(p as int) =~= s);
        assert(s.skip(p as int) =~= Seq::<Seq<char>>::empty());
    }
    while p > 0 && str_lt(x, out[p - 1])
        invariant
            p <= out@.len(),
            s == strs_texts(out@),
            insert_sorted(s, x@) == insert_sorted(s.take(p as int), x@) + s.skip(p as int),
        decreases p,
    {
        proof {
            let t = s.take(p as int);
            assert(t.last() == out@[p - 1]@);
            assert(t.drop_last() =~= s.take(p - 1));
            assert(insert_sorted(t, x@) == insert_sorted(s.take(p - 1), x@).push(t.last()));
            assert(insert_sorted(s.take(p - 1), x@).push(t.last()) + s.skip(p as int)
                =~= insert_sorted(s.take(p - 1), x@) + s.skip(p - 1));
        }
        p -= 1;
    }
    proof {
        let t = s.take(p as int);
        if p > 0 {
            assert(t.last() == out@[p - 1]@);
            assert(insert_sorted(t, x@) == t.push(x@));
        } else {
            assert(insert_sorted(t, x@) == seq![x@]);
        }
    }
    out.insert(p, x);
    proof {
        assert(strs_texts(out@) =~= s.take(p as int).push(x@) + s.skip(p as int));
    }
}

} // verus!

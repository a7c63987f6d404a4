//! String interner — one shared buffer per distinct string. Equal texts
//! interned twice come back as clones of one shared buffer.
use std::sync::Arc;
use vstd::prelude::*;

use crate::text::str_eq;

verus! {

/// The characters of a shared string.
pub open spec fn shared_text(a: &Arc<str>) -> Seq<char> {
    (**a)@
}

/// The characters of each shared string in `v`.
pub open spec fn shared_texts(v: Seq<Arc<str>>) -> Seq<Seq<char>> {
    v.map_values(|a: Arc<str>| shared_text(&a))
}

/// A new shared buffer holding `s` (`Arc::from`).
#[verifier::external_body]
fn share(s: &str) -> (r: Arc<str>)
    ensures
        shared_text(&r) == s@,
{
    Arc::from(s)
}

/// The distinct texts after interning `x` into contents `c`.
pub open spec fn intern_step(c: Seq<Seq<char>>, x: Seq<char>) -> Seq<Seq<char>> {
    if c.contains(x) {
        c
    } else {
        c.push(x)
    }
}

/// The distinct texts after interning each of `xs`, in order, into
/// contents `c`.
pub open spec fn interned_all(c: Seq<Seq<char>>, xs: Seq<Seq<char>>) -> Seq<Seq<char>>
    decreases xs.len(),
{
    if xs.len() == 0 {
        c
    } else {
        intern_step(interned_all(c, xs.drop_last()), xs.last())
    }
}

/// Interning `xs` one after another into an empty interner leaves each
/// distinct string once, first-seen first: the length is the number of
/// distinct strings among `xs`.
pub proof fn lemma_len_counts_distinct(xs: Seq<Seq<char>>)
    ensures
        interned_all(Seq::empty(), xs).no_duplicates(),
        interned_all(Seq::empty(), xs).to_set() == xs.to_set(),
        interned_all(Seq::empty(), xs).len() == xs.to_set().len(),
    decreases xs.len(),
{
    let r = interned_all(Seq::empty(), xs);
    if xs.len() == 0 {
        assert(xs.to_set() =~= Set::<Seq<char>>::empty());
        assert(r.to_set() =~= Set::<Seq<char>>::empty());
    } else {
        let init = xs.drop_last();
        let x = xs.last();
        lemma_len_counts_distinct(init);
        let p = interned_all(Seq::empty(), init);
        assert(xs =~= init.push(x));
        assert(xs.to_set() =~= init.to_set().insert(x)) by {
            assert forall|y: Seq<char>| xs.to_set().contains(y) <==> init.to_set().insert(x).contains(y) by {
                if xs.contains(y) {
                    let j = choose|j: int| 0 <= j < xs.len() && xs[j] == y;
                    if j < init.len() {
                        assert(init[j] == y);
                    }
                }
                if init.contains(y) {
                    let j = choose|j: int| 0 <= j < init.len() && init[j] == y;
                    assert(xs[j] == y);
                }
                if y == x {
                    assert(xs[xs.len() - 1] == y);
                }
            }
        }
        if p.contains(x) {
            assert(p.to_set().contains(x));
        } else {
            assert(r.to_set() =~= p.to_set().insert(x)) by {
                assert forall|y: Seq<char>| r.to_set().contains(y) <==> p.to_set().insert(x).contains(y) by {
                    if r.contains(y) {
                        let j = choose|j: int| 0 <= j < r.len() && r[j] == y;
                        if j < p.len() {
                            assert(p[j] == y);
                        }
                    }
                    if p.contains(y) {
                        let j = choose|j: int| 0 <= j < p.len() && p[j] == y;
                        assert(r[j] == y);
                    }
                    if y == x {
                        assert(r[r.len() - 1] == y);
                    }
                }
            }
        }
        r.unique_seq_to_set();
    }
}

/// Interning `xs` one after another, starting from a new interner (each
/// `intern` moves the contents one [`intern_step`] on): the contents end
/// up as the distinct strings of `xs`, first-seen first, so `len` is
/// their number and `is_empty` holds exactly when `xs` is empty.
pub proof fn lemma_interning_in_turn(contents: Seq<Seq<Seq<char>>>, xs: Seq<Seq<char>>)
    requires
        contents.len() == xs.len() + 1,
        contents[0] == Seq::<Seq<char>>::empty(),
        forall|i: int| 0 <= i < xs.len() ==> contents[i + 1] == intern_step(contents[i], #[trigger] xs[i]),
    ensures
        contents.last() == interned_all(Seq::empty(), xs),
        contents.last().len() == xs.to_set().len(),
        contents.last().len() == 0 <==> xs.len() == 0,
{
    lemma_interning_prefix(contents, xs, xs.len() as int);
    assert(xs.take(xs.len() as int) =~= xs);
    lemma_len_counts_distinct(xs);
    if xs.len() > 0 {
        assert(interned_all(Seq::empty(), xs) == intern_step(interned_all(Seq::empty(), xs.drop_last()), xs.last()));
    }
}

proof fn lemma_interning_prefix(contents: Seq<Seq<Seq<char>>>, xs: Seq<Seq<char>>, n: int)
    requires
        contents.len() == xs.len() + 1,
        contents[0] == Seq::<Seq<char>>::empty(),
        forall|i: int| 0 <= i < xs.len() ==> contents[i + 1] == intern_step(contents[i], #[trigger] xs[i]),
        0 <= n <= xs.len(),
    ensures
        contents[n] == interned_all(Seq::empty(), xs.take(n)),
    decreases n,
{
    if n > 0 {
        lemma_interning_prefix(contents, xs, n - 1);
        assert(xs.take(n).drop_last() =~= xs.take(n - 1));
        assert(xs.take(n).last() == xs[n - 1]);
    }
}

/// One shared buffer per distinct string interned so far.
pub struct Interner {
    strings: Vec<Arc<str>>,
}

impl Interner {
    /// The distinct texts interned so far, in first-seen order.
    pub closed spec fn contents(&self) -> Seq<Seq<char>> {
        shared_texts(self.strings@)
    }

    pub closed spec fn wf(&self) -> bool {
        self.contents().no_duplicates()
    }

    pub fn new() -> (r: Interner)
        ensures
            r.wf(),
            r.contents() == Seq::<Seq<char>>::empty(),
    {
        let r = Interner { strings: Vec::new() };
        assert(r.contents() =~= Seq::<Seq<char>>::empty());
        r
    }

    /// The shared buffer for `s`: the one handed out before when `s` was
    /// interned already, a new one otherwise.
    pub fn intern(&mut self, s: &str) -> (r: Arc<str>)
        requires
            old(self).wf(),
        ensures
            final(self).wf(),
            shared_text(&r) == s@,
            final(self).contents() == intern_step(old(self).contents(), s@),
    {
        let mut i: usize = 0;
        while i < self.strings.len()
            invariant
                self.wf(),
                self.strings@ == old(self).strings@,
                i <= self.strings@.len(),
                self.contents().len() == self.strings@.len(),
                forall|j: int| 0 <= j < i ==> self.contents()[j] != s@,
            decreases self.strings.len() - i,
        {
            let existing: &str = &self.strings[i];
            if str_eq(existing, s) {
                proof {
                    assert(self.contents()[i as int] == s@);
                }
                return self.strings[i].clone();
            }
            i += 1;
        }
        let a = share(s);
        let ghost before = self.contents();
        self.strings.push(a.clone());
        proof {
            assert(self.contents() =~= before.push(s@));
            assert(!before.contains(s@));
        }
        a
    }

    /// Distinct strings interned so far.
    pub fn len(&self) -> (n: usize)
        ensures
            n == self.contents().len(),
    {
        self.strings.len()
    }

    pub fn is_empty(&self) -> (b: bool)
        ensures
            b == (self.contents().len() == 0),
    {
        self.strings.len() == 0
    }
}

impl Default for Interner {
    fn default() -> (r: Interner)
        ensures
            r.wf(),
            r.contents() == Seq::<Seq<char>>::empty(),
    {
        Interner::new()
    }
}

} // verus!

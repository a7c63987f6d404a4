//! Character-level text helpers shared by the keys, the type printer and
//! the line-based Java scanners. Strings are reasoned about through their
//! views, sequences of `char`.
use vstd::prelude::*;

use crate::registry::buckets::{first_index, lemma_first_index};

verus! {

/// Everything after the last `.` of `s` (all of `s` when it has no dot).
pub open spec fn last_segment_spec(s: Seq<char>) -> Seq<char>
    decreases s.len(),
{
    if s.len() == 0 {
        s
    } else if s.last() == '.' {
        Seq::empty()
    } else {
        last_segment_spec(s.drop_last()).push(s.last())
    }
}

/// Index just past the last `.` of `s`, or 0.
pub open spec fn segment_start(s: Seq<char>) -> int
    decreases s.len(),
{
    if s.len() == 0 {
        0
    } else if s.last() == '.' {
        s.len() as int
    } else {
        segment_start(s.drop_last())
    }
}

proof fn lemma_segment_start(s: Seq<char>)
    ensures
        0 <= segment_start(s) <= s.len(),
        s.subrange(segment_start(s), s.len() as int) == last_segment_spec(s),
    decreases s.len(),
{
    if s.len() > 0 {
        lemma_segment_start(s.drop_last());
        if s.last() != '.' {
            let k = segment_start(s.drop_last());
            assert(s.subrange(k, s.len() as int) =~= s.drop_last().subrange(k, s.len() - 1).push(
                s.last(),
            ));
        } else {
            assert(s.subrange(s.len() as int, s.len() as int) =~= Seq::<char>::empty());
        }
    }
}

/// The characters of `s`, in order.
pub fn chars_of(s: &str) -> (r: Vec<char>)
    ensures
        r@ == s@,
{
    let mut r: Vec<char> = Vec::new();
    for c in it: s.chars()
        invariant
            r@ == it.seq().take(it.index() as int),
            it.seq() == s@,
    {
        proof {
            assert(it.seq().take(it.index() + 1) == it.seq().take(it.index() as int).push(c));
        }
        r.push(c);
    }
    proof {
        assert(s@.take(s@.len() as int) == s@);
    }
    r
}

/// Index just past the last `.` of `s`, or 0 when it has none.
pub fn segment_start_of(s: &str) -> (r: usize)
    ensures
        r == segment_start(s@),
        r <= s@.len(),
{
    let n = s.unicode_len();
    let mut start: usize = 0;
    let mut i: usize = 0;
    while i < n
        invariant
            n == s@.len(),
            0 <= i <= n,
            start as int == segment_start(s@.take(i as int)),
            start <= i,
        decreases n - i,
    {
        proof {
            assert(s@.take(i + 1).drop_last() == s@.take(i as int));
            assert(s@.take(i + 1).last() == s@[i as int]);
        }
        if s.get_char(i) == '.' {
            start = i + 1;
        }
        i += 1;
    }
    proof {
        assert(s@.take(n as int) == s@);
    }
    start
}

/// The suffix of `s` after its last `.`.
pub fn last_segment(s: &str) -> (r: &str)
    ensures
        r@ == last_segment_spec(s@),
{
    let start = segment_start_of(s);
    proof {
        lemma_segment_start(s@);
    }
    s.substring_char(start, s.unicode_len())
}

/// True iff the two strings hold the same characters.
pub fn str_eq(a: &str, b: &str) -> (r: bool)
    ensures
        r == (a@ == b@),
{
    let x = a.to_owned();
    let y = b.to_owned();
    x == y
}

/// A `String` holding exactly the characters of `v`.
#[verifier::external_body]
pub(crate) fn string_from_chars(v: &Vec<char>) -> (s: String)
    ensures
        s@ == v@,
{
    v.iter().collect()
}

/// Text-like values that can be turned into an owned `String` with the
/// same characters: `&str`, `String`, and the name types built on them.
pub trait IntoText: View<V = Seq<char>> + Sized {
    fn into_text(self) -> (r: String)
        ensures
            r@ == self@,
    ;
}

impl<'a> IntoText for &'a str {
    fn into_text(self) -> (r: String) {
        String::from_str(self)
    }
}

impl IntoText for String {
    fn into_text(self) -> (r: String) {
        self
    }
}

/// Appends one character to `s`.
pub fn push_char(s: &mut String, c: char)
    ensures
        final(s)@ == old(s)@.push(c),
{
    let v = vec![c];
    let t = string_from_chars(&v);
    s.append(t.as_str());
    assert(v@ == seq![c]);
}

/// `p` is a prefix of `s`.
pub open spec fn has_prefix(s: Seq<char>, p: Seq<char>) -> bool {
    p.len() <= s.len() && s.take(p.len() as int) == p
}

/// `p` is a suffix of `s`.
pub open spec fn has_suffix(s: Seq<char>, p: Seq<char>) -> bool {
    p.len() <= s.len() && s.skip(s.len() - p.len()) == p
}

/// `s` with every `from` replaced by `to`.
pub open spec fn replace_char_spec(s: Seq<char>, from: char, to: char) -> Seq<char> {
    s.map_values(|c: char| if c == from { to } else { c })
}

/// True iff `s` starts with `p`.
pub fn starts_with(s: &str, p: &str) -> (b: bool)
    ensures
        b == has_prefix(s@, p@),
{
    let sc = chars_of(s);
    let pc = chars_of(p);
    if pc.len() > sc.len() {
        return false;
    }
    let mut i: usize = 0;
    while i < pc.len()
        invariant
            sc@ == s@,
            pc@ == p@,
            pc.len() <= sc.len(),
            i <= pc.len(),
            forall|j: int| 0 <= j < i ==> sc@[j] == pc@[j],
        decreases pc.len() - i,
    {
        if sc[i] != pc[i] {
            proof {
                assert(s@.take(p@.len() as int)[i as int] != p@[i as int]);
            }
            return false;
        }
        i += 1;
    }
    proof {
        assert(s@.take(p@.len() as int) =~= p@);
    }
    true
}

/// True iff `s` ends with `p`.
pub fn ends_with(s: &str, p: &str) -> (b: bool)
    ensures
        b == has_suffix(s@, p@),
{
    let sc = chars_of(s);
    let pc = chars_of(p);
    if pc.len() > sc.len() {
        return false;
    }
    let off = sc.len() - pc.len();
    let mut i: usize = 0;
    while i < pc.len()
        invariant
            sc@ == s@,
            pc@ == p@,
            pc.len() <= sc.len(),
            off == sc.len() - pc.len(),
            i <= pc.len(),
            forall|j: int| 0 <= j < i ==> sc@[off + j] == pc@[j],
        decreases pc.len() - i,
    {
        if sc[off + i] != pc[i] {
            proof {
                assert(s@.skip(off as int)[i as int] != p@[i as int]);
            }
            return false;
        }
        i += 1;
    }
    proof {
        assert(s@.skip(off as int) =~= p@);
    }
    true
}

/// `s` without its prefix `p`, when it has it.
pub fn strip_prefix<'a>(s: &'a str, p: &str) -> (r: Option<&'a str>)
    ensures
        match r {
            Some(t) => has_prefix(s@, p@) && t@ == s@.skip(p@.len() as int),
            None => !has_prefix(s@, p@),
        },
{
    if starts_with(s, p) {
        let n = s.unicode_len();
        let k = p.unicode_len();
        Some(s.substring_char(k, n))
    } else {
        None
    }
}

/// `s` without its suffix `p`, when it has it.
pub fn strip_suffix<'a>(s: &'a str, p: &str) -> (r: Option<&'a str>)
    ensures
        match r {
            Some(t) => has_suffix(s@, p@) && t@ == s@.take(s@.len() - p@.len()),
            None => !has_suffix(s@, p@),
        },
{
    if ends_with(s, p) {
        let n = s.unicode_len();
        let k = p.unicode_len();
        Some(s.substring_char(0, n - k))
    } else {
        None
    }
}

/// `s` with every `from` replaced by `to`.
pub fn replace_char(s: &str, from: char, to: char) -> (r: String)
    ensures
        r@ == replace_char_spec(s@, from, to),
{
    let cs = chars_of(s);
    let mut out: Vec<char> = Vec::new();
    let mut i: usize = 0;
    while i < cs.len()
        invariant
            cs@ == s@,
            i <= cs.len(),
            out@ == replace_char_spec(s@.take(i as int), from, to),
        decreases cs.len() - i,
    {
        let c = cs[i];
        if c == from {
            out.push(to);
        } else {
            out.push(c);
        }
        proof {
            assert(replace_char_spec(s@.take(i + 1), from, to) =~= replace_char_spec(
                s@.take(i as int),
                from,
                to,
            ).push(if c == from {
                to
            } else {
                c
            }));
        }
        i += 1;
    }
    proof {
        assert(s@.take(s@.len() as int) =~= s@);
    }
    string_from_chars(&out)
}

/// `s` without one trailing `cr`.
pub open spec fn strip_cr<T>(s: Seq<T>, cr: T) -> Seq<T> {
    if s.len() > 0 && s.last() == cr {
        s.drop_last()
    } else {
        s
    }
}

/// The lines of `s` as `str::lines` yields them: the pieces ended by
/// `nl`, each without a `cr` right before its `nl`, then the final
/// unterminated piece when it is not empty.
pub open spec fn lines_of<T>(s: Seq<T>, nl: T, cr: T) -> Seq<Seq<T>>
    decreases s.len(),
{
    if s.len() == 0 {
        Seq::empty()
    } else {
        let i = first_index(s, nl);
        if i < 0 {
            seq![s]
        } else {
            proof {
                lemma_first_index(s, nl);
            }
            seq![strip_cr(s.take(i), cr)] + lines_of(s.skip(i + 1), nl, cr)
        }
    }
}

/// The characters of each string slice in `v`.
pub open spec fn slice_texts(v: Seq<&str>) -> Seq<Seq<char>> {
    v.map_values(|x: &str| x@)
}

/// `first_index(t, x) == k` when `t[k]` is the first `x`.
pub proof fn lemma_first_index_at<T>(t: Seq<T>, x: T, k: int)
    requires
        0 <= k < t.len(),
        t[k] == x,
        forall|j: int| 0 <= j < k ==> t[j] != x,
    ensures
        first_index(t, x) == k,
{
    lemma_first_index(t, x);
    assert(t.contains(x));
}

/// The lines of `s` (see [`lines_of`]).
pub fn lines(s: &str) -> (r: Vec<&str>)
    ensures
        slice_texts(r@) == lines_of(s@, '\n', '\r'),
{
    let cs = chars_of(s);
    let n = cs.len();
    let mut out: Vec<&str> = Vec::new();
    let mut start: usize = 0;
    let mut i: usize = 0;
    proof {
        assert(s@.skip(0) =~= s@);
    }
    while i < n
        invariant
            cs@ == s@,
            n == s@.len(),
            start <= i <= n,
            forall|j: int| start <= j < i ==> s@[j] != '\n',
            slice_texts(out@) + lines_of(s@.skip(start as int), '\n', '\r') == lines_of(
                s@,
                '\n',
                '\r',
            ),
        decreases n - i,
    {
        if cs[i] == '\n' {
            let end = if i > start && cs[i - 1] == '\r' {
                i - 1
            } else {
                i
            };
            let piece = s.substring_char(start, end);
            let ghost t = s@.skip(start as int);
            proof {
                let k = i - start;
                assert forall|j: int| 0 <= j < k implies t[j] != '\n' by {
                    assert(t[j] == s@[start + j]);
                }
                assert(t[k as int] == s@[i as int]);
                lemma_first_index_at(t, '\n', k as int);
                assert(t.skip(k + 1) =~= s@.skip(i + 1));
                assert(piece@ =~= strip_cr(t.take(k as int), '\r'));
            }
            let ghost before = out@;
            out.push(piece);
            proof {
                assert(slice_texts(out@) =~= slice_texts(before).push(piece@));
                assert(slice_texts(out@) + lines_of(s@.skip(i + 1), '\n', '\r') =~= slice_texts(
                    before,
                ) + lines_of(s@.skip(start as int), '\n', '\r'));
            }
            start = i + 1;
        }
        i += 1;
    }
    if start < n {
        let piece = s.substring_char(start, n);
        let ghost t = s@.skip(start as int);
        proof {
            lemma_first_index(t, '\n');
            if t.contains('\n') {
                let j = choose|j: int| 0 <= j < t.len() && t[j] == '\n';
                assert(t[j] == s@[start + j]);
            }
            assert(piece@ =~= t);
        }
        let ghost before = out@;
        out.push(piece);
        proof {
            assert(slice_texts(out@) =~= slice_texts(before).push(piece@));
            assert(slice_texts(out@) =~= slice_texts(before) + lines_of(t, '\n', '\r'));
        }
    } else {
        proof {
            assert(s@.skip(start as int) =~= Seq::<char>::empty());
            assert(slice_texts(out@) + Seq::<Seq<char>>::empty() =~= slice_texts(out@));
        }
    }
    out
}

/// Unicode `White_Space`, the characters `char::is_whitespace` accepts.
pub open spec fn is_ws(c: char) -> bool {
    let u = c as u32;
    u == 0x20 || (0x09 <= u && u <= 0x0d) || u == 0x85 || u == 0xa0 || u == 0x1680 || (0x2000 <= u
        && u <= 0x200a) || u == 0x2028 || u == 0x2029 || u == 0x202f || u == 0x205f || u == 0x3000
}

/// True iff `c` is Unicode white space.
pub fn is_whitespace(c: char) -> (b: bool)
    ensures
        b == is_ws(c),
{
    let u = c as u32;
    u == 0x20 || (0x09 <= u && u <= 0x0d) || u == 0x85 || u == 0xa0 || u == 0x1680 || (0x2000 <= u
        && u <= 0x200a) || u == 0x2028 || u == 0x2029 || u == 0x202f || u == 0x205f || u == 0x3000
}

/// `s` without leading white space.
pub open spec fn trim_start_spec(s: Seq<char>) -> Seq<char>
    decreases s.len(),
{
    if s.len() > 0 && is_ws(s[0]) {
        trim_start_spec(s.skip(1))
    } else {
        s
    }
}

/// `s` without trailing characters satisfying `strip`.
pub open spec fn trim_end_by(s: Seq<char>, strip: spec_fn(char) -> bool) -> Seq<char>
    decreases s.len(),
{
    if s.len() > 0 && strip(s.last()) {
        trim_end_by(s.drop_last(), strip)
    } else {
        s
    }
}

/// The white-space predicate, as a value.
pub open spec fn white() -> spec_fn(char) -> bool {
    |c: char| is_ws(c)
}

/// The predicate "is `x`", as a value.
pub open spec fn is_char(x: char) -> spec_fn(char) -> bool {
    |c: char| c == x
}

/// `s` without white space at either end (`str::trim`).
pub open spec fn trim_spec(s: Seq<char>) -> Seq<char> {
    trim_end_by(trim_start_spec(s), white())
}

/// `s` with every trailing repetition of the non-empty `p` removed.
pub open spec fn trim_end_pat(s: Seq<char>, p: Seq<char>) -> Seq<char>
    decreases s.len(),
{
    if p.len() > 0 && has_suffix(s, p) {
        trim_end_pat(s.take(s.len() - p.len()), p)
    } else {
        s
    }
}

/// The part of `s[from..]` left after dropping trailing characters that
/// satisfy `strip`: the end index of that part.
fn trim_end_index(cs: &Vec<char>, from: usize, strip_ws: bool, c: char) -> (e: usize)
    requires
        from <= cs@.len(),
    ensures
        from <= e <= cs@.len(),
        trim_end_by(cs@.subrange(from as int, cs@.len() as int), if strip_ws {
            white()
        } else {
            is_char(c)
        }) == cs@.subrange(from as int, e as int),
{
    let ghost f = if strip_ws {
        white()
    } else {
        is_char(c)
    };
    let mut e = cs.len();
    while e > from
        invariant
            from <= e <= cs@.len(),
            f == (if strip_ws {
                white()
            } else {
                is_char(c)
            }),
            trim_end_by(cs@.subrange(from as int, cs@.len() as int), f) == trim_end_by(
                cs@.subrange(from as int, e as int),
                f,
            ),
        ensures
            from <= e <= cs@.len(),
            trim_end_by(cs@.subrange(from as int, cs@.len() as int), f) == cs@.subrange(
                from as int,
                e as int,
            ),
        decreases e,
    {
        let ch = cs[e - 1];
        let stripped = if strip_ws {
            is_whitespace(ch)
        } else {
            ch == c
        };
        let ghost t = cs@.subrange(from as int, e as int);
        proof {
            assert(t.last() == cs@[e - 1]);
            assert(t.drop_last() =~= cs@.subrange(from as int, e - 1));
        }
        if !stripped {
            break;
        }
        e -= 1;
    }
    proof {
        if e == from {
            assert(cs@.subrange(from as int, e as int) =~= Seq::<char>::empty());
        }
    }
    e
}

/// `s` without white space at either end.
pub fn trim(s: &str) -> (r: &str)
    ensures
        r@ == trim_spec(s@),
{
    let cs = chars_of(s);
    let n = cs.len();
    let mut a: usize = 0;
    proof {
        assert(s@.skip(0) =~= s@);
    }
    while a < n && is_whitespace(cs[a])
        invariant
            cs@ == s@,
            n == s@.len(),
            a <= n,
            trim_start_spec(s@) == trim_start_spec(s@.skip(a as int)),
        decreases n - a,
    {
        proof {
            assert(s@.skip(a as int)[0] == s@[a as int]);
            assert(s@.skip(a as int).skip(1) =~= s@.skip(a + 1));
        }
        a += 1;
    }
    proof {
        assert(s@.skip(a as int) =~= cs@.subrange(a as int, n as int));
    }
    let e = trim_end_index(&cs, a, true, ' ');
    s.substring_char(a, e)
}

/// `s` without its trailing `c` characters.
pub fn trim_end_char(s: &str, c: char) -> (r: &str)
    ensures
        r@ == trim_end_by(s@, is_char(c)),
{
    let cs = chars_of(s);
    proof {
        assert(cs@.subrange(0, cs@.len() as int) =~= s@);
    }
    let e = trim_end_index(&cs, 0, false, c);
    s.substring_char(0, e)
}

/// `s` without every trailing repetition of the non-empty `p`.
pub fn trim_end_matches_str<'a>(s: &'a str, p: &str) -> (r: &'a str)
    requires
        p@.len() > 0,
    ensures
        r@ == trim_end_pat(s@, p@),
{
    let mut cur: &'a str = s;
    loop
        invariant
            p@.len() > 0,
            trim_end_pat(s@, p@) == trim_end_pat(cur@, p@),
        ensures
            trim_end_pat(s@, p@) == cur@,
        decreases cur@.len(),
    {
        match strip_suffix(cur, p) {
            Some(t) => {
                cur = t;
            },
            None => {
                break;
            },
        }
    }
    cur
}

} // verus!

verus! {

/// Index just past the last `c` of `s`, or 0 when it has none.
pub open spec fn after_last(s: Seq<char>, c: char) -> int
    decreases s.len(),
{
    if s.len() == 0 {
        0
    } else if s.last() == c {
        s.len() as int
    } else {
        after_last(s.drop_last(), c)
    }
}

proof fn lemma_after_last(s: Seq<char>, c: char)
    ensures
        0 <= after_last(s, c) <= s.len(),
    decreases s.len(),
{
    if s.len() > 0 {
        lemma_after_last(s.drop_last(), c);
    }
}

/// A path with its trailing separators and trailing `.` components
/// dropped: the text whose last component is the path's file name.
pub open spec fn trim_path_tail(p: Seq<char>) -> Seq<char>
    decreases p.len(),
{
    if p.len() > 0 && p.last() == '/' {
        trim_path_tail(p.drop_last())
    } else if p.len() >= 2 && p.last() == '.' && p[p.len() - 2] == '/' {
        trim_path_tail(p.drop_last())
    } else {
        p
    }
}

/// The file name of a `/`-separated path: its last component, unless
/// that is empty, `.` or `..`.
pub open spec fn file_name_spec(p: Seq<char>) -> Option<Seq<char>> {
    let q = trim_path_tail(p);
    let name = q.skip(after_last(q, '/'));
    if name.len() == 0 || name == seq!['.'] || name == seq!['.', '.'] {
        None
    } else {
        Some(name)
    }
}

/// The extension of a `/`-separated path: the text after the last `.` of
/// its file name, when that dot is not the name's first character.
pub open spec fn extension_spec(p: Seq<char>) -> Option<Seq<char>> {
    match file_name_spec(p) {
        None => None,
        Some(n) => {
            let i = after_last(n, '.');
            if i <= 1 {
                None
            } else {
                Some(n.skip(i))
            }
        },
    }
}

/// Index (from `lo`) just past the last `c` among `cs[lo..hi]`, or 0.
fn after_last_in(cs: &Vec<char>, lo: usize, hi: usize, c: char) -> (r: usize)
    requires
        lo <= hi <= cs@.len(),
    ensures
        r == after_last(cs@.subrange(lo as int, hi as int), c),
        r <= hi - lo,
{
    let mut r: usize = 0;
    let mut i: usize = lo;
    while i < hi
        invariant
            lo <= i <= hi <= cs@.len(),
            r == after_last(cs@.subrange(lo as int, i as int), c),
            r <= i - lo,
        decreases hi - i,
    {
        proof {
            assert(cs@.subrange(lo as int, i + 1).drop_last() =~= cs@.subrange(lo as int, i as int));
            assert(cs@.subrange(lo as int, i + 1).last() == cs@[i as int]);
        }
        if cs[i] == c {
            r = i + 1 - lo;
        }
        i += 1;
    }
    r
}

/// The extension of the `/`-separated path `path` (see
/// [`extension_spec`]): `Some("java")` for `src/A.java`, none for
/// `src/.hidden` or `src/Makefile`.
pub fn file_extension(path: &str) -> (r: Option<&str>)
    ensures
        match r {
            Some(e) => extension_spec(path@) == Some(e@),
            None => extension_spec(path@) is None,
        },
{
    let cs = chars_of(path);
    let mut n: usize = cs.len();
    proof {
        assert(cs@.take(n as int) =~= path@);
    }
    while n > 0
        invariant
            n <= cs@.len(),
            cs@ == path@,
            trim_path_tail(cs@.take(n as int)) == trim_path_tail(path@),
        ensures
            n <= cs@.len(),
            trim_path_tail(cs@.take(n as int)) == trim_path_tail(path@),
            n > 0 ==> cs@[n - 1] != '/',
            n >= 2 ==> !(cs@[n - 1] == '.' && cs@[n - 2] == '/'),
        decreases n,
    {
        proof {
            assert(cs@.take(n as int).drop_last() =~= cs@.take(n - 1));
        }
        if cs[n - 1] == '/' {
            n -= 1;
        } else if n >= 2 && cs[n - 1] == '.' && cs[n - 2] == '/' {
            n -= 1;
        } else {
            break;
        }
    }
    proof {
        assert(path@ =~= cs@.take(cs@.len() as int));
        assert(trim_path_tail(cs@.take(n as int)) == cs@.take(n as int)) by {
            if n > 0 {
                assert(cs@.take(n as int).last() == cs@[n - 1]);
            }
            if n >= 2 {
                assert(cs@.take(n as int)[n - 2] == cs@[n - 2]);
            }
        }
        assert(cs@.take(n as int) =~= cs@.subrange(0, n as int));
    }
    let ghost q = cs@.take(n as int);
    let start = after_last_in(&cs, 0, n, '/');
    let ghost name = q.skip(start as int);
    proof {
        assert(name =~= cs@.subrange(start as int, n as int));
    }
    let len = n - start;
    if len == 0 {
        return None;
    }
    if len == 1 && cs[start] == '.' {
        proof {
            assert(name =~= seq!['.']);
        }
        return None;
    }
    if len == 2 && cs[start] == '.' && cs[start + 1] == '.' {
        proof {
            assert(name =~= seq!['.', '.']);
        }
        return None;
    }
    proof {
        if name == seq!['.'] {
            assert(name[0] == cs@[start as int]);
        }
        if name == seq!['.', '.'] {
            assert(name[0] == cs@[start as int] && name[1] == cs@[start + 1]);
        }
    }
    let i = after_last_in(&cs, start, n, '.');
    if i <= 1 {
        return None;
    }
    proof {
        assert(name.skip(i as int) =~= path@.subrange(start + i, n as int));
    }
    Some(path.substring_char(start + i, n))
}

} // verus!

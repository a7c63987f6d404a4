//! Java-local syntactic helpers — imports, package, identifier at a
//! position. Line-based, not parser-based: robust to malformed code
//! around the lines they read.
use vstd::prelude::*;
use vstd::string::StringSliceAdditionalSpecFns;

use crate::text::{
    chars_of, has_prefix, has_suffix, is_char, lines, lines_of, slice_texts, string_from_chars,
    strip_prefix, trim, trim_end_by, trim_end_char, trim_end_matches_str, trim_end_pat, trim_spec,
};

verus! {

/// One Java `import` statement.
#[derive(Debug, Clone, PartialEq)]
pub enum Import {
    /// `import com.example.MyClass;`
    Single(String),
    /// `import com.example.*;`
    Wildcard(String),
    /// `import static com.example.Utils.MAX;`
    Static(String),
}

/// The mathematical value of an [`Import`].
pub enum ImportModel {
    Single(Seq<char>),
    Wildcard(Seq<char>),
    Static(Seq<char>),
}

impl View for Import {
    type V = ImportModel;

    open spec fn view(&self) -> ImportModel {
        match self {
            Import::Single(s) => ImportModel::Single(s@),
            Import::Wildcard(s) => ImportModel::Wildcard(s@),
            Import::Static(s) => ImportModel::Static(s@),
        }
    }
}

/// The import a line declares, if it declares one: after trimming, the
/// line starts with `import `; the rest, without trailing `;` and
/// trimmed, is a static import after `static `, a wildcard import of the
/// package before a trailing `.*`, or a single-type import otherwise.
pub open spec fn import_of_line(line: Seq<char>) -> Option<ImportModel> {
    let t = trim_spec(line);
    if !has_prefix(t, "import "@) {
        None
    } else {
        let rest = trim_spec(trim_end_by(t.skip("import "@.len() as int), is_char(';')));
        if has_prefix(rest, "static "@) {
            Some(ImportModel::Static(trim_spec(rest.skip("static "@.len() as int))))
        } else if has_suffix(rest, ".*"@) {
            Some(ImportModel::Wildcard(trim_end_pat(rest, ".*"@)))
        } else {
            Some(ImportModel::Single(rest))
        }
    }
}

/// The imports the lines declare, in order.
pub open spec fn imports_of(lines: Seq<Seq<char>>) -> Seq<ImportModel>
    decreases lines.len(),
{
    if lines.len() == 0 {
        Seq::empty()
    } else {
        let before = imports_of(lines.drop_last());
        match import_of_line(lines.last()) {
            Some(i) => before.push(i),
            None => before,
        }
    }
}

/// The views of a list of imports.
pub open spec fn import_views(v: Seq<Import>) -> Seq<ImportModel> {
    v.map_values(|i: Import| i@)
}

/// The package the first `package` line declares, if any line does.
pub open spec fn package_of(lines: Seq<Seq<char>>) -> Option<Seq<char>>
    decreases lines.len(),
{
    if lines.len() == 0 {
        None
    } else {
        let t = trim_spec(lines[0]);
        if has_prefix(t, "package "@) {
            Some(trim_spec(trim_end_by(t.skip("package "@.len() as int), is_char(';'))))
        } else {
            package_of(lines.subrange(1, lines.len() as int))
        }
    }
}

/// The import one line declares (see [`import_of_line`]).
fn import_in_line(line: &str) -> (r: Option<Import>)
    ensures
        match r {
            Some(i) => import_of_line(line@) == Some(i@),
            None => import_of_line(line@) is None,
        },
{
    let trimmed = trim(line);
    match strip_prefix(trimmed, "import ") {
        None => None,
        Some(rest) => {
            let rest = trim(trim_end_char(rest, ';'));
            match strip_prefix(rest, "static ") {
                Some(fqn) => Some(Import::Static(String::from_str(trim(fqn)))),
                None => {
                    if crate::text::ends_with(rest, ".*") {
                        proof {
                            reveal_strlit(".*");
                        }
                        let package = trim_end_matches_str(rest, ".*");
                        Some(Import::Wildcard(String::from_str(package)))
                    } else {
                        Some(Import::Single(String::from_str(rest)))
                    }
                },
            }
        },
    }
}

/// The `import` statements of a Java source, in order: single-type,
/// wildcard (`.*`) and static imports, one per line that declares one.
pub fn extract_imports(source: &str) -> (r: Vec<Import>)
    ensures
        import_views(r@) == imports_of(lines_of(source@, '\n', '\r')),
{
    let ls = lines(source);
    let ghost all = slice_texts(ls@);
    let mut imports: Vec<Import> = Vec::new();
    let mut k: usize = 0;
    while k < ls.len()
        invariant
            k <= ls@.len(),
            all == slice_texts(ls@),
            import_views(imports@) == imports_of(all.take(k as int)),
        decreases ls.len() - k,
    {
        proof {
            assert(all.take(k + 1).drop_last() =~= all.take(k as int));
            assert(all.take(k + 1).last() == ls@[k as int]@);
        }
        let ghost before = imports@;
        match import_in_line(ls[k]) {
            Some(i) => {
                imports.push(i);
                proof {
                    assert(import_views(imports@) =~= import_views(before).push(i@));
                }
            },
            None => {},
        }
        k += 1;
    }
    proof {
        assert(all.take(all.len() as int) =~= all);
    }
    imports
}

/// The package a Java source declares: the first `package` line's name,
/// without trailing `;` and trimmed; empty for the default package.
pub fn extract_package(source: &str) -> (r: String)
    ensures
        r@ == match package_of(lines_of(source@, '\n', '\r')) {
            Some(p) => p,
            None => Seq::<char>::empty(),
        },
{
    let ls = lines(source);
    let ghost all = slice_texts(ls@);
    let mut k: usize = 0;
    proof {
        assert(all.subrange(0, all.len() as int) =~= all);
    }
    while k < ls.len()
        invariant
            k <= ls@.len(),
            all == slice_texts(ls@),
            all == lines_of(source@, '\n', '\r'),
            package_of(all) == package_of(all.subrange(k as int, all.len() as int)),
        decreases ls.len() - k,
    {
        let ghost rest = all.subrange(k as int, all.len() as int);
        proof {
            assert(rest[0] == ls@[k as int]@);
            assert(rest.subrange(1, rest.len() as int) =~= all.subrange(k + 1, all.len() as int));
        }
        let trimmed = trim(ls[k]);
        match strip_prefix(trimmed, "package ") {
            Some(rest_of_line) => {
                let r = String::from_str(trim(trim_end_char(rest_of_line, ';')));
                proof {
                    assert(rest.len() > 0);
                    assert(trim_spec(rest[0]) == trimmed@);
                    assert(package_of(rest) == Some(r@));
                }
                return r;
            },
            None => {},
        }
        k += 1;
    }
    proof {
        assert(all.subrange(k as int, all.len() as int) =~= Seq::<Seq<char>>::empty());
    }
    String::new()
}

/// ASCII letters, digits and `_`.
pub open spec fn is_ident_byte(b: u8) -> bool {
    (0x30 <= b && b <= 0x39) || (0x41 <= b && b <= 0x5a) || (0x61 <= b && b <= 0x7a) || b == 0x5f
}

fn is_java_identifier_char(b: u8) -> (r: bool)
    ensures
        r == is_ident_byte(b),
{
    (0x30 <= b && b <= 0x39) || (0x41 <= b && b <= 0x5a) || (0x61 <= b && b <= 0x7a) || b == 0x5f
}

/// Where the identifier run ending at `col` starts.
pub open spec fn run_start(l: Seq<u8>, col: int) -> int
    decreases col,
{
    if col > 0 && col <= l.len() && is_ident_byte(l[col - 1]) {
        run_start(l, col - 1)
    } else {
        col
    }
}

/// Where the identifier run starting at `col` ends.
pub open spec fn run_end(l: Seq<u8>, col: int) -> int
    decreases l.len() - col,
{
    if 0 <= col < l.len() && is_ident_byte(l[col]) {
        run_end(l, col + 1)
    } else {
        col
    }
}

/// The identifier bytes around byte column `col` of line `l`, if `col`
/// is within the line and touches an identifier character.
pub open spec fn word_in_line(l: Seq<u8>, col: int) -> Option<Seq<u8>> {
    if col > l.len() {
        None
    } else {
        let s = run_start(l, col);
        let e = run_end(l, col);
        if s == e {
            None
        } else {
            Some(l.subrange(s, e))
        }
    }
}

/// The bytes of ASCII characters.
pub open spec fn w_bytes(w: Seq<char>) -> Seq<u8> {
    w.map_values(|c: char| c as u8)
}

/// The characters of ASCII bytes.
pub open spec fn ascii_chars(b: Seq<u8>) -> Seq<char> {
    b.map_values(|x: u8| x as char)
}

/// The Java identifier at (`line`, `col`) of `source`: lines as
/// `str::lines` splits the UTF-8 bytes of `source`, `col` a byte offset
/// into the line. `None` past the last line, past the line's end, or
/// off an identifier.
pub fn word_at_position(source: &str, line: u32, col: u32) -> (r: Option<String>)
    ensures
        ({
            let ls = lines_of(source.spec_bytes(), 10u8, 13u8);
            match r {
                Some(w) => line < ls.len() && word_in_line(ls[line as int], col as int) == Some(
                    w_bytes(w@),
                ) && w@ == ascii_chars(w_bytes(w@)),
                None => line >= ls.len() || word_in_line(ls[line as int], col as int) is None,
            }
        }),
{
    let bytes = source.as_bytes();
    let ls = byte_lines(bytes);
    let li = line as usize;
    if li >= ls.len() {
        return None;
    }
    let l: &Vec<u8> = &ls[li];
    proof {
        assert(byte_texts(ls@)[li as int] == l@);
    }
    let c = col as usize;
    if c > l.len() {
        return None;
    }
    let mut start = c;
    while start > 0 && is_java_identifier_char(l[start - 1])
        invariant
            start <= c <= l@.len(),
            run_start(l@, c as int) == run_start(l@, start as int),
        decreases start,
    {
        start -= 1;
    }
    let mut end = c;
    while end < l.len() && is_java_identifier_char(l[end])
        invariant
            c <= end <= l@.len(),
            run_end(l@, c as int) == run_end(l@, end as int),
        decreases l.len() - end,
    {
        end += 1;
    }
    if start == end {
        return None;
    }
    let mut out: Vec<char> = Vec::new();
    let mut i = start;
    while i < end
        invariant
            start <= i <= end <= l@.len(),
            out@ == ascii_chars(l@.subrange(start as int, i as int)),
        decreases end - i,
    {
        let b = l[i];
        out.push(b as char);
        proof {
            assert(ascii_chars(l@.subrange(start as int, i + 1)) =~= ascii_chars(
                l@.subrange(start as int, i as int),
            ).push(b as char));
        }
        i += 1;
    }
    Some(string_from_chars(&out))
}

/// The bytes of each byte vector in `v`.
pub open spec fn byte_texts(v: Seq<Vec<u8>>) -> Seq<Seq<u8>> {
    v.map_values(|x: Vec<u8>| x@)
}

/// The lines of a byte string (see [`lines_of`]), each as its bytes.
fn byte_lines(b: &[u8]) -> (r: Vec<Vec<u8>>)
    ensures
        byte_texts(r@) == lines_of(b@, 10u8, 13u8),
{
    let n = b.len();
    let mut out: Vec<Vec<u8>> = Vec::new();
    let mut cur: Vec<u8> = Vec::new();
    let mut start: usize = 0;
    let mut i: usize = 0;
    proof {
        assert(b@.skip(0) =~= b@);
        assert(byte_texts(out@) + lines_of(b@, 10u8, 13u8) =~= lines_of(b@, 10u8, 13u8));
    }
    while i < n
        invariant
            n == b@.len(),
            start <= i <= n,
            cur@ == b@.subrange(start as int, i as int),
            forall|j: int| start <= j < i ==> b@[j] != 10u8,
            byte_texts(out@) + lines_of(b@.skip(start as int), 10u8, 13u8) == lines_of(
                b@,
                10u8,
                13u8,
            ),
        decreases n - i,
    {
        let x = b[i];
        if x == 10u8 {
            let ghost t = b@.skip(start as int);
            let ghost k = i - start;
            proof {
                assert forall|j: int| 0 <= j < k implies t[j] != 10u8 by {
                    assert(t[j] == b@[start + j]);
                }
                assert(t[k] == b@[i as int]);
                crate::text::lemma_first_index_at(t, 10u8, k);
                assert(t.skip(k + 1) =~= b@.skip(i + 1));
                assert(t.take(k) =~= cur@);
            }
            if cur.len() > 0 && cur[cur.len() - 1] == 13u8 {
                cur.pop();
            }
            let ghost piece = cur@;
            proof {
                assert(piece =~= crate::text::strip_cr(t.take(k), 13u8));
            }
            let ghost before = out@;
            out.push(cur);
            cur = Vec::new();
            proof {
                assert(byte_texts(out@) =~= byte_texts(before).push(piece));
                assert(byte_texts(out@) + lines_of(b@.skip(i + 1), 10u8, 13u8) =~= byte_texts(
                    before,
                ) + lines_of(t, 10u8, 13u8));
                assert(cur@ =~= b@.subrange(i + 1, i + 1));
            }
            start = i + 1;
        } else {
            cur.push(x);
            proof {
                assert(cur@ =~= b@.subrange(start as int, i + 1));
            }
        }
        i += 1;
    }
    if start < n {
        let ghost t = b@.skip(start as int);
        proof {
            crate::registry::buckets::lemma_first_index(t, 10u8);
            if t.contains(10u8) {
                let j = choose|j: int| 0 <= j < t.len() && t[j] == 10u8;
                assert(t[j] == b@[start + j]);
            }
            assert(cur@ =~= t);
        }
        let ghost before = out@;
        out.push(cur);
        proof {
            assert(byte_texts(out@) =~= byte_texts(before) + lines_of(t, 10u8, 13u8));
        }
    } else {
        proof {
            assert(b@.skip(start as int) =~= Seq::<u8>::empty());
            assert(byte_texts(out@) + Seq::<Seq<u8>>::empty() =~= byte_texts(out@));
        }
    }
    out
}

} // verus!

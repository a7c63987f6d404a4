//! The pure part of reading JVM class containers (jmod files and jars):
//! which archive entries are classes and under which binary name, where
//! a class's bytes live in the archive, and the magic-number check. The
//! archive and file access itself sits outside the library.
use vstd::prelude::*;

use crate::text::{
    ends_with, has_prefix, has_suffix, replace_char, replace_char_spec, starts_with, str_eq,
    strip_prefix, strip_suffix,
};

verus! {

/// The binary class name an archive entry stands for, if the layer
/// surfaces it: the entry must sit under `prefix` and end in `.class`;
/// `META-INF/` entries and `module-info` classes are skipped; path
/// separators become dots (a nested class keeps its `$`).
pub open spec fn binary_name_of(entry: Seq<char>, prefix: Seq<char>) -> Option<Seq<char>> {
    if !has_prefix(entry, prefix) {
        None
    } else {
        let rest = entry.skip(prefix.len() as int);
        if !has_suffix(rest, ".class"@) {
            None
        } else {
            let path = rest.take(rest.len() - ".class"@.len());
            if has_prefix(path, "META-INF/"@) || path == "module-info"@ || has_suffix(
                path,
                "/module-info"@,
            ) {
                None
            } else {
                Some(replace_char_spec(path, '/', '.'))
            }
        }
    }
}

/// Map an archive entry path to a binary class name; see
/// [`binary_name_of`].
pub fn binary_name(entry_path: &str, class_prefix: &str) -> (r: Option<String>)
    ensures
        match r {
            Some(n) => binary_name_of(entry_path@, class_prefix@) == Some(n@),
            None => binary_name_of(entry_path@, class_prefix@) is None,
        },
{
    let path = match strip_prefix(entry_path, class_prefix) {
        Some(p) => p,
        None => return None,
    };
    let path = match strip_suffix(path, ".class") {
        Some(p) => p,
        None => return None,
    };
    if starts_with(path, "META-INF/") {
        return None;
    }
    if str_eq(path, "module-info") || ends_with(path, "/module-info") {
        return None;
    }
    Some(replace_char(path, '/', '.'))
}

/// The archive entry path of the class `binary_name` under `prefix`:
/// the prefix, the name with dots as path separators, then `.class`.
pub fn class_entry_path(class_prefix: &str, binary_name: &str) -> (r: String)
    ensures
        r@ == class_prefix@ + replace_char_spec(binary_name@, '.', '/') + ".class"@,
{
    let mut r = String::from_str(class_prefix);
    let p = replace_char(binary_name, '.', '/');
    r.append(p.as_str());
    r.append(".class");
    r
}

/// The characters of each string in `v`.
pub open spec fn texts(v: Seq<String>) -> Seq<Seq<char>> {
    v.map_values(|x: String| x@)
}

/// The binary names of the class entries among `entries`, in order.
pub open spec fn class_names_spec(entries: Seq<Seq<char>>, prefix: Seq<char>) -> Seq<Seq<char>>
    decreases entries.len(),
{
    if entries.len() == 0 {
        Seq::empty()
    } else {
        let before = class_names_spec(entries.drop_last(), prefix);
        match binary_name_of(entries.last(), prefix) {
            Some(n) => before.push(n),
            None => before,
        }
    }
}

/// The binary names of the class entries among `entries`, in archive
/// order; see [`binary_name_of`].
pub fn class_names_of(entries: &Vec<String>, class_prefix: &str) -> (r: Vec<String>)
    ensures
        texts(r@) == class_names_spec(texts(entries@), class_prefix@),
{
    let mut r: Vec<String> = Vec::new();
    let mut k: usize = 0;
    while k < entries.len()
        invariant
            k <= entries@.len(),
            texts(r@) == class_names_spec(texts(entries@).take(k as int), class_prefix@),
        decreases entries.len() - k,
    {
        let ghost before = r@;
        proof {
            assert(texts(entries@).take(k + 1).drop_last() =~= texts(entries@).take(k as int));
            assert(texts(entries@).take(k + 1).last() == entries@[k as int]@);
        }
        match binary_name(entries[k].as_str(), class_prefix) {
            Some(n) => {
                r.push(n);
                proof {
                    assert(texts(r@) =~= texts(before).push(n@));
                }
            },
            None => {},
        }
        k += 1;
    }
    proof {
        assert(texts(entries@).take(entries@.len() as int) =~= texts(entries@));
    }
    r
}

/// True iff the first two bytes read match the container's magic.
pub fn magic_matches(found: [u8; 2], magic: [u8; 2]) -> (b: bool)
    ensures
        b == (found@ == magic@),
{
    let ok = found[0] == magic[0] && found[1] == magic[1];
    proof {
        if ok {
            assert(found@ =~= magic@);
        }
    }
    ok
}

} // verus!

verus! {

/// The two archive layouts a class container can have.
#[derive(Clone, Copy, Debug, PartialEq, Eq, Structural)]
pub enum ContainerKind {
    /// A JDK module file: `JM` magic, classes under `classes/`.
    Jmod,
    /// A jar: a plain zip (`PK` magic), classes at the archive root.
    Jar,
}

impl ContainerKind {
    /// The two magic bytes a file of this kind starts with.
    pub open spec fn magic_spec(self) -> Seq<u8> {
        match self {
            ContainerKind::Jmod => seq![0x4Au8, 0x4Du8],
            ContainerKind::Jar => seq![0x50u8, 0x4Bu8],
        }
    }

    /// The entry-path prefix under which this kind keeps its classes.
    pub open spec fn class_prefix_spec(self) -> Seq<char> {
        match self {
            ContainerKind::Jmod => "classes/"@,
            ContainerKind::Jar => ""@,
        }
    }

    /// The magic bytes a file of this kind starts with (`JM` for a jmod,
    /// `PK` for a jar).
    pub fn magic(&self) -> (m: [u8; 2])
        ensures
            m@ == self.magic_spec(),
    {
        let m: [u8; 2] = match self {
            ContainerKind::Jmod => [0x4Au8, 0x4Du8],
            ContainerKind::Jar => [0x50u8, 0x4Bu8],
        };
        proof {
            assert(m@ =~= self.magic_spec());
        }
        m
    }

    /// The entry-path prefix of the class section.
    pub fn class_prefix(&self) -> (p: &'static str)
        ensures
            p@ == self.class_prefix_spec(),
    {
        match self {
            ContainerKind::Jmod => "classes/",
            ContainerKind::Jar => "",
        }
    }

    /// How an error message names the magic this kind expects.
    pub fn expected_magic_name(&self) -> (r: &'static str)
        ensures
            r@ == (match self {
                ContainerKind::Jmod => "JM (jmod)"@,
                ContainerKind::Jar => "PK (jar/zip)"@,
            }),
    {
        match self {
            ContainerKind::Jmod => "JM (jmod)",
            ContainerKind::Jar => "PK (jar/zip)",
        }
    }
}

} // verus!

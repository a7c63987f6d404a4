//! Java syntax trees: tree-sitter parses the source, and the declaration
//! skeleton of its tree is copied into a plain [`SyntaxNode`] tree that
//! the walker reads.
//!
//! Only what the walker can reach is copied: the children of method and
//! constructor bodies, of variable declarators, of formal parameters and
//! of enum constants are left out (the walker reads those nodes' fields
//! only), and of each node only the fields the walker reads (`name`, `type`, `body`,
//! `parameters`, `type_parameters`, `arguments`, `element`) are kept.
use vstd::prelude::*;

use tree_sitter::{Language, LanguageError, Node, Parser, Tree};
use vstd::string::StringSliceAdditionalSpecFns;
use vstd::utf8::{decode_utf8, encode_utf8_decode_utf8, valid_utf8};

verus! {

#[verifier::external_type_specification]
#[verifier::external_body]
pub struct ExParser(Parser);

#[verifier::external_type_specification]
#[verifier::external_body]
pub struct ExTree(Tree);

#[verifier::external_type_specification]
#[verifier::external_body]
pub struct ExLanguage(Language);

#[verifier::external_type_specification]
#[verifier::external_body]
pub struct ExLanguageError(LanguageError);

#[verifier::external_type_specification]
#[verifier::external_body]
pub struct ExNode<'tree>(Node<'tree>);

/// A tree-sitter parser; `java_ready` records that the Java grammar has
/// been set on it.
pub struct JavaParser {
    parser: Parser,
    java_ready: Ghost<bool>,
}

/// The Java grammar as a tree-sitter language.
pub struct JavaGrammar {
    language: Language,
}

/// A tree-sitter tree parsed from the bytes `src` with the Java grammar.
pub struct JavaTree {
    tree: Tree,
    src: Ghost<Seq<u8>>,
}

/// A node of a [`JavaTree`], known by the source bytes it was parsed from
/// and by its child-index path from the root.
pub struct JavaNode<'t> {
    node: Node<'t>,
    src: Ghost<Seq<u8>>,
    path: Ghost<Seq<int>>,
}

impl JavaParser {
    pub closed spec fn ready(&self) -> bool {
        self.java_ready@
    }
}

impl JavaTree {
    pub closed spec fn src(&self) -> Seq<u8> {
        self.src@
    }
}

impl<'t> JavaNode<'t> {
    pub closed spec fn src(&self) -> Seq<u8> {
        self.src@
    }

    pub closed spec fn path(&self) -> Seq<int> {
        self.path@
    }
}

/// The grammar type of the node at `path` in the Java tree of `src`
/// (`tree_sitter::Node::kind`).
pub uninterp spec fn java_kind(src: Seq<u8>, path: Seq<int>) -> Seq<char>;

/// The number of children of the node at `path` in the Java tree of
/// `src` (`tree_sitter::Node::child_count`).
pub uninterp spec fn java_child_count(src: Seq<u8>, path: Seq<int>) -> nat;

/// The path of the node that field `name` of the node at `path` names in
/// the Java tree of `src`, if any (`tree_sitter::Node::child_by_field_name`).
pub uninterp spec fn java_field(src: Seq<u8>, path: Seq<int>, name: Seq<char>) -> Option<Seq<int>>;

/// The first byte of the node at `path` (`tree_sitter::Node::start_byte`).
pub uninterp spec fn java_start_byte(src: Seq<u8>, path: Seq<int>) -> nat;

/// The byte past the node at `path` (`tree_sitter::Node::end_byte`).
pub uninterp spec fn java_end_byte(src: Seq<u8>, path: Seq<int>) -> nat;

/// The (row, column) where the node at `path` starts
/// (`tree_sitter::Node::start_position`).
pub uninterp spec fn java_start_point(src: Seq<u8>, path: Seq<int>) -> (nat, nat);

/// The (row, column) where the node at `path` ends
/// (`tree_sitter::Node::end_position`).
pub uninterp spec fn java_end_point(src: Seq<u8>, path: Seq<int>) -> (nat, nat);

/// `tree_sitter::Parser::new`: a parser with no language set.
#[verifier::external_body]
fn new_parser() -> (p: JavaParser)
    ensures
        !p.ready(),
{
    JavaParser { parser: Parser::new(), java_ready: Ghost(false) }
}

/// The Java grammar, `tree_sitter_java::LANGUAGE` turned into a
/// `tree_sitter::Language`.
#[verifier::external_body]
fn java_language() -> JavaGrammar {
    JavaGrammar { language: tree_sitter_java::LANGUAGE.into() }
}

/// `tree_sitter::Parser::set_language` with the Java grammar. It succeeds:
/// the grammar's ABI version (14) lies in the range the parser accepts
/// (13 to 15) and the grammar has a lexer; the parser is then ready.
#[verifier::external_body]
fn set_language(parser: &mut JavaParser, grammar: &JavaGrammar) -> (r: Result<(), LanguageError>)
    ensures
        r is Ok,
        final(parser).ready(),
{
    let r = parser.parser.set_language(&grammar.language);
    parser.java_ready = Ghost(true);
    r
}

/// `tree_sitter::Parser::parse` of the whole source with no earlier tree:
/// with a language set it gives the Java tree of the source bytes.
#[verifier::external_body]
fn parse_text(parser: &mut JavaParser, source: &str) -> (r: Option<JavaTree>)
    requires
        old(parser).ready(),
    ensures
        r is Some,
        r matches Some(t) ==> t.src() == source.spec_bytes(),
{
    match parser.parser.parse(source, None) {
        Some(tree) => Some(JavaTree { tree, src: Ghost(source.spec_bytes()) }),
        None => None,
    }
}

/// `tree_sitter::Tree::root_node`: the node at the empty path.
#[verifier::external_body]
fn root_node<'t>(tree: &'t JavaTree) -> (r: JavaNode<'t>)
    ensures
        r.src() == tree.src(),
        r.path() == Seq::<int>::empty(),
{
    JavaNode { node: tree.tree.root_node(), src: tree.src, path: Ghost(Seq::empty()) }
}

/// `tree_sitter::Node::kind`: the node's grammar type.
#[verifier::external_body]
fn node_kind<'t>(node: &JavaNode<'t>) -> (r: &'t str)
    ensures
        r@ == java_kind(node.src(), node.path()),
{
    node.node.kind()
}

/// `tree_sitter::Node::child_count`.
#[verifier::external_body]
fn child_count(node: &JavaNode) -> (r: u32)
    ensures
        r as nat == java_child_count(node.src(), node.path()),
{
    node.node.child_count() as u32
}

/// `tree_sitter::Node::child`: the child at index `i`, present exactly
/// when `i` is below the child count.
#[verifier::external_body]
fn child<'t>(node: &JavaNode<'t>, i: u32) -> (r: Option<JavaNode<'t>>)
    ensures
        (i as nat) < java_child_count(node.src(), node.path()) <==> r is Some,
        r matches Some(c) ==> c.src() == node.src() && c.path() == node.path().push(i as int),
{
    match node.node.child(i) {
        Some(c) => Some(JavaNode { node: c, src: node.src, path: Ghost(node.path@.push(i as int)) }),
        None => None,
    }
}

/// `tree_sitter::Node::child_by_field_name`: the node field `name` names.
#[verifier::external_body]
fn child_by_field_name<'t>(node: &JavaNode<'t>, name: &str) -> (r: Option<JavaNode<'t>>)
    ensures
        r is Some <==> java_field(node.src(), node.path(), name@) is Some,
        r matches Some(c) ==> c.src() == node.src() && Some(c.path()) == java_field(
            node.src(),
            node.path(),
            name@,
        ),
{
    match node.node.child_by_field_name(name) {
        Some(c) => Some(JavaNode {
            node: c,
            src: node.src,
            path: Ghost(java_field(node.src@, node.path@, name@).unwrap()),
        }),
        None => None,
    }
}

/// `tree_sitter::Node`'s `==`, which compares the nodes' identities: equal
/// nodes are one node of one tree, so they sit at the same path. (Nodes at
/// the same path of two different trees are not equal, so nothing is
/// promised when the result is false.)
#[verifier::external_body]
fn same_node(a: &JavaNode, b: &JavaNode) -> (r: bool)
    ensures
        r ==> a.path() == b.path(),
{
    a.node == b.node
}

/// `tree_sitter::Node::start_byte`.
#[verifier::external_body]
fn start_byte(node: &JavaNode) -> (r: usize)
    ensures
        r as nat == java_start_byte(node.src(), node.path()),
{
    node.node.start_byte()
}

/// `tree_sitter::Node::end_byte`.
#[verifier::external_body]
fn end_byte(node: &JavaNode) -> (r: usize)
    ensures
        r as nat == java_end_byte(node.src(), node.path()),
{
    node.node.end_byte()
}

/// `tree_sitter::Node::start_position` as (row, column).
#[verifier::external_body]
fn start_position(node: &JavaNode) -> (r: (usize, usize))
    ensures
        (r.0 as nat, r.1 as nat) == java_start_point(node.src(), node.path()),
{
    let p = node.node.start_position();
    (p.row, p.column)
}

/// `tree_sitter::Node::end_position` as (row, column).
#[verifier::external_body]
fn end_position(node: &JavaNode) -> (r: (usize, usize))
    ensures
        (r.0 as nat, r.1 as nat) == java_end_point(node.src(), node.path()),
{
    let p = node.node.end_position();
    (p.row, p.column)
}

/// Where a field of a node points: at one of its copied children, or at
/// a node copied on its own.
#[derive(Debug)]
pub enum SyntaxField {
    Child(usize),
    Detached(Box<SyntaxNode>),
}

/// One node of the plain syntax tree.
#[derive(Debug)]
pub struct SyntaxNode {
    /// The grammar type (`class_declaration`, `identifier`, ...).
    pub kind: String,
    /// The byte range of the node in the source.
    pub start_byte: usize,
    pub end_byte: usize,
    /// Zero-based (row, column) of the start and of the end.
    pub start: (usize, usize),
    pub end: (usize, usize),
    /// The children, in order.
    pub children: Vec<SyntaxNode>,
    /// Named fields, each by field name.
    pub fields: Vec<(String, SyntaxField)>,
}

/// The number of nodes of a syntax tree, counting detached field nodes.
pub open spec fn size(n: SyntaxNode) -> nat
    decreases n,
{
    1 + kids_size(n.children@) + fields_size(n.fields@)
}

pub open spec fn kids_size(ks: Seq<SyntaxNode>) -> nat
    decreases ks,
{
    if ks.len() == 0 {
        0
    } else {
        size(ks[0]) + kids_size(ks.drop_first())
    }
}

pub open spec fn fields_size(fs: Seq<(String, SyntaxField)>) -> nat
    decreases fs,
{
    if fs.len() == 0 {
        0
    } else {
        (match fs[0].1 {
            SyntaxField::Detached(b) => size(*b),
            SyntaxField::Child(_) => 0,
        }) + fields_size(fs.drop_first())
    }
}

/// Each node of a list is smaller than the list.
pub proof fn lemma_kids_size(ks: Seq<SyntaxNode>, i: int)
    requires
        0 <= i < ks.len(),
    ensures
        size(ks[i]) <= kids_size(ks),
        kids_size(ks.drop_first()) < kids_size(ks),
    decreases ks.len(),
{
    assert(size(ks[0]) >= 1);
    if i > 0 {
        lemma_kids_size(ks.drop_first(), i - 1);
    }
}

/// All children together are smaller than their parent.
pub proof fn lemma_child_size_bound(n: SyntaxNode)
    ensures
        kids_size(n.children@) < size(n),
{
}

/// Children are smaller than their parent.
pub proof fn lemma_child_smaller(n: SyntaxNode, i: int)
    requires
        0 <= i < n.children@.len(),
    ensures
        size(n.children@[i]) < size(n),
        kids_size(n.children@) < size(n),
{
    lemma_kids_size(n.children@, i);
}

proof fn lemma_field_in_smaller(n: SyntaxNode, fs: Seq<(String, SyntaxField)>, name: Seq<char>)
    requires
        field_in(n, fs, name) is Some,
    ensures
        match field_in(n, fs, name) {
            Some(f) => size(f) < size(n) || size(f) <= fields_size(fs),
            None => true,
        },
    decreases fs.len(),
{
    if fs.len() > 0 && fs[0].0@ == name {
        match fs[0].1 {
            SyntaxField::Child(i) => {
                lemma_child_smaller(n, i as int);
            },
            SyntaxField::Detached(b) => {},
        }
    } else if fs.len() > 0 {
        lemma_field_in_smaller(n, fs.drop_first(), name);
        assert(fs.subrange(1, fs.len() as int) == fs.drop_first());
    }
}

/// A field's node is smaller than the node.
pub proof fn lemma_field_smaller(n: SyntaxNode, name: Seq<char>)
    requires
        field_of(n, name) is Some,
    ensures
        size(field_of(n, name)->0) < size(n),
{
    lemma_field_in_smaller(n, n.fields@, name);
}

/// The text of bytes `s .. e` of `bytes`: the characters they encode,
/// or nothing when the range is out of bounds or is not UTF-8.
pub open spec fn slice_text(bytes: Seq<u8>, s: int, e: int) -> Seq<char> {
    if 0 <= s <= e <= bytes.len() && valid_utf8(bytes.subrange(s, e)) {
        decode_utf8(bytes.subrange(s, e))
    } else {
        Seq::empty()
    }
}

/// The source text a node spans.
pub open spec fn text_of(source: Seq<u8>, n: SyntaxNode) -> Seq<char> {
    slice_text(source, n.start_byte as int, n.end_byte as int)
}

/// `std::str::from_utf8` on bytes `start .. end` of `source`: the string
/// they encode when they are UTF-8, none otherwise.
#[verifier::external_body]
fn utf8_slice(source: &str, start: usize, end: usize) -> (r: Option<&str>)
    requires
        start <= end <= source.spec_bytes().len(),
    ensures
        match r {
            Some(t) => valid_utf8(source.spec_bytes().subrange(start as int, end as int))
                && t.spec_bytes() == source.spec_bytes().subrange(start as int, end as int),
            None => !valid_utf8(source.spec_bytes().subrange(start as int, end as int)),
        },
{
    std::str::from_utf8(&source.as_bytes()[start..end]).ok()
}

/// The source text `node` spans, see [`text_of`].
pub fn node_text<'a>(source: &'a str, node: &SyntaxNode) -> (r: &'a str)
    ensures
        r@ == text_of(source.spec_bytes(), *node),
{
    let len = source.as_bytes().len();
    if node.start_byte <= node.end_byte && node.end_byte <= len {
        match utf8_slice(source, node.start_byte, node.end_byte) {
            Some(t) => {
                proof {
                    encode_utf8_decode_utf8(t@);
                }
                t
            },
            None => {
                proof {
                    reveal_strlit("");
                }
                ""
            },
        }
    } else {
        proof {
            reveal_strlit("");
        }
        ""
    }
}

/// The fields the walker reads, in the order they are looked up.
pub open spec fn field_names() -> Seq<Seq<char>> {
    seq![
        "name"@,
        "type"@,
        "body"@,
        "parameters"@,
        "type_parameters"@,
        "arguments"@,
        "element"@,
    ]
}

/// `ix` gives, entry for entry, the place in [`field_names`] of each
/// entry's name, strictly increasing.
pub open spec fn named_in_order(fs: Seq<(String, SyntaxField)>, ix: Seq<int>) -> bool {
    &&& ix.len() == fs.len()
    &&& forall|t: int| 0 <= t < fs.len() ==> 0 <= #[trigger] ix[t] < 7 && fs[t].0@ == field_names()[ix[t]]
    &&& forall|a: int, b: int| 0 <= a < b < fs.len() ==> #[trigger] ix[a] < #[trigger] ix[b]
}

/// Each field entry points at a child index below `nkids` or at a
/// well-copied node.
pub open spec fn fields_point_well(fs: Seq<(String, SyntaxField)>, nkids: nat) -> bool
    decreases fs,
{
    if fs.len() == 0 {
        true
    } else {
        &&& fields_point_well(fs.drop_last(), nkids)
        &&& match fs.last().1 {
            SyntaxField::Child(j) => j < nkids,
            SyntaxField::Detached(b) => well_copied(*b),
        }
    }
}

/// Every node of a list is well copied.
pub open spec fn kids_copied(ks: Seq<SyntaxNode>) -> bool
    decreases ks,
{
    if ks.len() == 0 {
        true
    } else {
        kids_copied(ks.drop_last()) && well_copied(ks.last())
    }
}

/// The shape every copied tree has, whatever the parser produced: a node
/// of a kind whose children the walker never reads has none copied, its
/// field entries are as [`fields_copied`] says, and the same holds of
/// every child and every detached field node.
pub open spec fn well_copied(n: SyntaxNode) -> bool
    decreases n,
{
    &&& (childless_kind(n.kind@) ==> n.children@.len() == 0)
    &&& kids_copied(n.children@)
    &&& fields_point_well(n.fields@, n.children@.len())
    &&& exists|ix: Seq<int>| #[trigger] named_in_order(n.fields@, ix)
}

/// Kinds whose children the walker never reads.
pub open spec fn childless_kind(k: Seq<char>) -> bool {
    k == "block"@ || k == "constructor_body"@ || k == "variable_declarator"@ || k
        == "formal_parameter"@ || k == "spread_parameter"@ || k == "enum_constant"@
}

/// The node `name` denotes among `fields`: the first entry with that
/// name.
pub open spec fn field_in(n: SyntaxNode, fields: Seq<(String, SyntaxField)>, name: Seq<char>) -> Option<
    SyntaxNode,
>
    decreases fields.len(),
{
    if fields.len() == 0 {
        None
    } else if fields[0].0@ == name {
        match fields[0].1 {
            SyntaxField::Child(i) => if i < n.children@.len() {
                Some(n.children@[i as int])
            } else {
                None
            },
            SyntaxField::Detached(b) => Some(*b),
        }
    } else {
        field_in(n, fields.subrange(1, fields.len() as int), name)
    }
}

/// The node the field `name` of `n` denotes, if any.
pub open spec fn field_of(n: SyntaxNode, name: Seq<char>) -> Option<SyntaxNode> {
    field_in(n, n.fields@, name)
}

/// The field `name` of `node`, see [`field_of`].
pub fn field<'a>(node: &'a SyntaxNode, name: &str) -> (r: Option<&'a SyntaxNode>)
    ensures
        match r {
            Some(f) => field_of(*node, name@) == Some(*f),
            None => field_of(*node, name@) is None,
        },
{
    let ghost fs = node.fields@;
    proof {
        assert(fs.subrange(0, fs.len() as int) =~= fs);
    }
    let mut i: usize = 0;
    while i < node.fields.len()
        invariant
            fs == node.fields@,
            i <= fs.len(),
            field_of(*node, name@) == field_in(*node, fs.subrange(i as int, fs.len() as int), name@),
        decreases node.fields.len() - i,
    {
        let ghost rest = fs.subrange(i as int, fs.len() as int);
        proof {
            assert(rest[0] == fs[i as int]);
            assert(rest.subrange(1, rest.len() as int) =~= fs.subrange(i + 1, fs.len() as int));
        }
        if crate::text::str_eq(node.fields[i].0.as_str(), name) {
            match &node.fields[i].1 {
                SyntaxField::Child(j) => {
                    if *j < node.children.len() {
                        return Some(&node.children[*j]);
                    } else {
                        return None;
                    }
                },
                SyntaxField::Detached(b) => {
                    return Some(&**b);
                },
            }
        }
        i += 1;
    }
    None
}

fn is_childless_kind(k: &str) -> (b: bool)
    ensures
        b == childless_kind(k@),
{
    crate::text::str_eq(k, "block") || crate::text::str_eq(k, "constructor_body")
        || crate::text::str_eq(k, "variable_declarator") || crate::text::str_eq(
        k,
        "formal_parameter",
    ) || crate::text::str_eq(k, "spread_parameter") || crate::text::str_eq(k, "enum_constant")
}

/// Appending a well-copied node keeps a list well copied.
proof fn lemma_kids_copied_push(ks: Seq<SyntaxNode>, c: SyntaxNode)
    requires
        kids_copied(ks),
        well_copied(c),
    ensures
        kids_copied(ks.push(c)),
{
    assert(ks.push(c).drop_last() =~= ks);
}

/// Appending a well-pointing entry keeps a field list well pointing.
proof fn lemma_fields_point_well_push(fs: Seq<(String, SyntaxField)>, e: (String, SyntaxField), nkids: nat)
    requires
        fields_point_well(fs, nkids),
        match e.1 {
            SyntaxField::Child(j) => j < nkids,
            SyntaxField::Detached(b) => well_copied(*b),
        },
    ensures
        fields_point_well(fs.push(e), nkids),
{
    assert(fs.push(e).drop_last() =~= fs);
}

/// `n` is the copy, `depth` levels deep, of the node at `path` in the
/// Java tree of `src`: its kind, byte range and positions are the node's;
/// unless no depth is left or the kind is childless, its children are
/// copies of the node's children in order; and (with depth left) its
/// fields are as [`fields_from`] says.
pub open spec fn copied_from(n: SyntaxNode, src: Seq<u8>, path: Seq<int>, depth: nat) -> bool
    decreases n, 0nat,
{
    &&& n.kind@ == java_kind(src, path)
    &&& n.start_byte as nat == java_start_byte(src, path)
    &&& n.end_byte as nat == java_end_byte(src, path)
    &&& (n.start.0 as nat, n.start.1 as nat) == java_start_point(src, path)
    &&& (n.end.0 as nat, n.end.1 as nat) == java_end_point(src, path)
    &&& if depth == 0 {
        n.children@.len() == 0 && n.fields@.len() == 0
    } else {
        &&& if childless_kind(n.kind@) {
            n.children@.len() == 0
        } else {
            n.children@.len() == java_child_count(src, path) && kids_from(
                n.children@,
                src,
                path,
                (depth - 1) as nat,
            )
        }
        &&& fields_from(n.fields@, src, path, n.children@.len(), (depth - 1) as nat, 7)
    }
}

/// Each of `ks` is the copy of the child at its own index.
pub open spec fn kids_from(ks: Seq<SyntaxNode>, src: Seq<u8>, path: Seq<int>, depth: nat) -> bool
    decreases ks, 0nat,
{
    if ks.len() == 0 {
        true
    } else {
        kids_from(ks.drop_last(), src, path, depth) && copied_from(
            ks.last(),
            src,
            path.push(ks.len() - 1),
            depth,
        )
    }
}

/// `fs` holds, in order, one entry for each of the first `m` of
/// [`field_names`] that names a node of the node at `path`: an entry
/// either points at one of the `nkids` copied children, the one at the
/// field node's path, or holds a copy of the field node of its own.
pub open spec fn fields_from(
    fs: Seq<(String, SyntaxField)>,
    src: Seq<u8>,
    path: Seq<int>,
    nkids: nat,
    depth: nat,
    m: nat,
) -> bool
    decreases fs, m,
{
    if m == 0 {
        fs.len() == 0
    } else {
        let name = field_names()[m - 1];
        match java_field(src, path, name) {
            None => fields_from(fs, src, path, nkids, depth, (m - 1) as nat),
            Some(fp) => {
                &&& fs.len() > 0
                &&& fs.last().0@ == name
                &&& match fs.last().1 {
                    SyntaxField::Child(j) => j < nkids && path.push(j as int) == fp,
                    SyntaxField::Detached(b) => copied_from(*b, src, fp, depth),
                }
                &&& fields_from(fs.drop_last(), src, path, nkids, depth, (m - 1) as nat)
            },
        }
    }
}

/// Copy the node `node` into a plain tree, at most `depth` levels deep
/// (the budget only makes termination evident: no real tree comes near
/// it). The copy is the node's copy (see [`copied_from`]) and has the
/// shape [`well_copied`] describes.
fn syntax_of(node: &JavaNode, depth: usize) -> (r: SyntaxNode)
    ensures
        well_copied(r),
        copied_from(r, node.src(), node.path(), depth as nat),
        depth == 0 ==> r.children@.len() == 0 && r.fields@.len() == 0,
    decreases depth,
{
    let kind = node_kind(node).to_string();
    let start = start_position(node);
    let end = end_position(node);
    let ghost src = node.src();
    let ghost path = node.path();
    let mut children: Vec<SyntaxNode> = Vec::new();
    let mut handles: Vec<JavaNode> = Vec::new();
    let childless = is_childless_kind(kind.as_str());
    if depth > 0 && !childless {
        let n = child_count(node);
        let mut i: u32 = 0;
        while i < n
            invariant
                depth > 0,
                n as nat == java_child_count(src, path),
                src == node.src(),
                path == node.path(),
                i <= n,
                children@.len() == i,
                handles@.len() == i,
                forall|j: int| 0 <= j < i ==> (#[trigger] handles@[j]).src() == src && handles@[j].path() == path.push(j),
                kids_copied(children@),
                kids_from(children@, src, path, (depth - 1) as nat),
            decreases n - i,
        {
            match child(node, i) {
                Some(c) => {
                    let copy = syntax_of(&c, depth - 1);
                    proof {
                        lemma_kids_copied_push(children@, copy);
                        assert(children@.push(copy).drop_last() =~= children@);
                    }
                    children.push(copy);
                    handles.push(c);
                },
                None => {},
            }
            i += 1;
        }
    }
    let mut fields: Vec<(String, SyntaxField)> = Vec::new();
    let ghost mut ix: Seq<int> = Seq::empty();
    proof {
        assert(fields_from(fields@, src, path, children@.len(), (depth - 1) as nat, 0));
    }
    if depth > 0 {
        let names: [&str; 7] = [
            "name",
            "type",
            "body",
            "parameters",
            "type_parameters",
            "arguments",
            "element",
        ];
        proof {
            assert(names@.map_values(|t: &str| t@) =~= field_names());
        }
        let mut k: usize = 0;
        while k < 7
            invariant
                depth > 0,
                src == node.src(),
                path == node.path(),
                children@.len() == handles@.len(),
                forall|j: int| 0 <= j < handles@.len() ==> (#[trigger] handles@[j]).src() == src && handles@[j].path() == path.push(j),
                names@.map_values(|t: &str| t@) == field_names(),
                names@.len() == 7,
                k <= 7,
                fields_point_well(fields@, children@.len() as nat),
                named_in_order(fields@, ix),
                forall|t: int| 0 <= t < ix.len() ==> #[trigger] ix[t] < k,
                fields_from(fields@, src, path, children@.len(), (depth - 1) as nat, k as nat),
            decreases 7 - k,
        {
            let fname = names[k];
            proof {
                assert(fname@ == names@.map_values(|t: &str| t@)[k as int]);
            }
            match child_by_field_name(node, fname) {
                Some(f) => {
                    let ghost fp = f.path();
                    let mut found: Option<usize> = None;
                    let mut j: usize = 0;
                    while j < handles.len()
                        invariant
                            j <= handles@.len(),
                            f.src() == src,
                            fp == f.path(),
                            found matches Some(x) ==> x < handles@.len() && handles@[x as int].path() == fp,
                        decreases handles.len() - j,
                    {
                        if same_node(&handles[j], &f) {
                            found = Some(j);
                            break;
                        }
                        j += 1;
                    }
                    let entry = match found {
                        Some(j) => (fname.to_string(), SyntaxField::Child(j)),
                        None => (fname.to_string(), SyntaxField::Detached(Box::new(syntax_of(&f, depth - 1)))),
                    };
                    proof {
                        lemma_fields_point_well_push(fields@, entry, children@.len() as nat);
                        let ix2 = ix.push(k as int);
                        assert(named_in_order(fields@.push(entry), ix2)) by {
                            assert forall|a: int, b: int| 0 <= a < b < ix2.len() implies #[trigger] ix2[a] < #[trigger] ix2[b] by {
                                if b == ix.len() {
                                    assert(ix2[a] == ix[a]);
                                } else {
                                    assert(ix2[a] == ix[a] && ix2[b] == ix[b]);
                                }
                            }
                            assert forall|t: int| 0 <= t < ix2.len() implies 0 <= #[trigger] ix2[t] < 7 && fields@.push(entry)[t].0@ == field_names()[ix2[t]] by {
                                if t < ix.len() {
                                    assert(ix2[t] == ix[t]);
                                    assert(fields@.push(entry)[t] == fields@[t]);
                                }
                            }
                        }
                        ix = ix2;
                        assert(fields@.push(entry).drop_last() =~= fields@);
                        assert(fields_from(fields@.push(entry), src, path, children@.len(), (depth - 1) as nat, (k + 1) as nat));
                    }
                    fields.push(entry);
                },
                None => {
                    proof {
                        assert(fields_from(fields@, src, path, children@.len(), (depth - 1) as nat, (k + 1) as nat));
                    }
                },
            }
            k += 1;
        }
    }
    let r = SyntaxNode {
        kind,
        start_byte: start_byte(node),
        end_byte: end_byte(node),
        start,
        end,
        children,
        fields,
    };
    proof {
        assert(named_in_order(r.fields@, ix));
    }
    r
}

/// Parse Java source with tree-sitter and copy the whole tree: the copy
/// of the root of the Java tree of the source bytes (see
/// [`copied_from`]), with the shape [`well_copied`] describes.
pub fn parse_syntax(source: &str) -> (r: Option<SyntaxNode>)
    ensures
        r matches Some(n) && well_copied(n) && copied_from(
            n,
            source.spec_bytes(),
            Seq::empty(),
            usize::MAX as nat,
        ),
{
    let mut parser = new_parser();
    let grammar = java_language();
    match set_language(&mut parser, &grammar) {
        Ok(()) => {},
        Err(_) => {
            return None;
        },
    }
    match parse_text(&mut parser, source) {
        Some(tree) => {
            let root = root_node(&tree);
            Some(syntax_of(&root, usize::MAX))
        },
        None => None,
    }
}

} // verus!

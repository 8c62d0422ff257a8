//! Parsing Python source with tree-sitter into a plain syntax tree.

use crate::syntax::{
    span_text, tests_in_class, tests_in_function, tests_in_module, tests_in_node, tests_in_range,
    Role, SyntaxNode,
};
use vstd::prelude::*;

verus! {

#[verifier::external_type_specification]
#[verifier::external_body]
pub struct ExParser(tree_sitter::Parser);

#[verifier::external_type_specification]
#[verifier::external_body]
pub struct ExTree(tree_sitter::Tree);

#[verifier::external_type_specification]
#[verifier::external_body]
pub struct ExTreeCursor<'cursor>(tree_sitter::TreeCursor<'cursor>);

/// The syntax tree that tree-sitter's Python grammar gives for the bytes
/// `src`, or `None` where the parser gives none.
pub uninterp spec fn python_syntax(src: Seq<u8>) -> Option<SyntaxNode>;

/// The node reached from `root` by taking, at each step, the child of the
/// given index.
pub open spec fn node_at(root: SyntaxNode, path: Seq<int>) -> SyntaxNode
    decreases path.len(),
{
    if path.len() == 0 {
        root
    } else {
        node_at(root, path.drop_last()).children@[path.last()]
    }
}

/// Every step of `path` names an existing child.
pub open spec fn valid_path(root: SyntaxNode, path: Seq<int>) -> bool
    decreases path.len(),
{
    path.len() == 0 || (valid_path(root, path.drop_last()) && 0 <= path.last()
        < node_at(root, path.drop_last()).children@.len())
}

/// The two trees have the same kinds, spans and shape.
pub open spec fn same_shape(a: SyntaxNode, b: SyntaxNode) -> bool
    decreases a,
{
    &&& a.kind == b.kind
    &&& a.start == b.start
    &&& a.end == b.end
    &&& a.children@.len() == b.children@.len()
    &&& forall|i: int|
        #![trigger a.children@[i]]
        0 <= i < a.children@.len() ==> same_shape(a.children@[i], b.children@[i])
}

/// Children of the same shape hold the same tests.
proof fn lemma_range_same_tests(
    src: Seq<u8>,
    role: Role,
    ctx: Seq<Seq<char>>,
    cs1: Seq<SyntaxNode>,
    cs2: Seq<SyntaxNode>,
    lo: int,
    hi: int,
)
    requires
        cs1.len() == cs2.len(),
        forall|i: int| 0 <= i < cs1.len() ==> same_shape(#[trigger] cs1[i], cs2[i]),
    ensures
        tests_in_range(src, role, ctx, cs1, lo, hi) == tests_in_range(src, role, ctx, cs2, lo, hi),
    decreases cs1, 3int, hi - lo,
{
    if !(hi <= lo || hi > cs1.len() || lo < 0) {
        lemma_range_same_tests(src, role, ctx, cs1, cs2, lo, hi - 1);
        lemma_node_same_tests(src, role, ctx, cs1[hi - 1], cs2[hi - 1]);
    }
}

proof fn lemma_node_same_tests(
    src: Seq<u8>,
    role: Role,
    ctx: Seq<Seq<char>>,
    a: SyntaxNode,
    b: SyntaxNode,
)
    requires
        same_shape(a, b),
    ensures
        tests_in_node(src, role, ctx, a) == tests_in_node(src, role, ctx, b),
    decreases a, 2int, 0int,
{
    lemma_range_same_tests(
        src,
        Role::Decorated,
        ctx,
        a.children@,
        b.children@,
        0,
        a.children@.len() as int,
    );
    lemma_range_same_tests(
        src,
        Role::ClassBody,
        ctx,
        a.children@,
        b.children@,
        0,
        a.children@.len() as int,
    );
    lemma_class_same_tests(src, ctx, a, b);
    if a.children@.len() >= 2 {
        assert(same_shape(a.children@[1], b.children@[1]));
    }
    assert(tests_in_function(src, ctx, a) == tests_in_function(src, ctx, b));
}

proof fn lemma_class_same_tests(src: Seq<u8>, ctx: Seq<Seq<char>>, a: SyntaxNode, b: SyntaxNode)
    requires
        same_shape(a, b),
    ensures
        tests_in_class(src, ctx, a) == tests_in_class(src, ctx, b),
    decreases a, 1int, 0int,
{
    if a.children@.len() >= 2 {
        assert(same_shape(a.children@[1], b.children@[1]));
        if let Some(name) = span_text(src, a.children@[1]) {
            lemma_range_same_tests(
                src,
                Role::ClassHeader,
                ctx.push(name),
                a.children@,
                b.children@,
                2,
                a.children@.len() as int,
            );
        }
    }
}

/// Trees of the same kinds, spans and shape hold the same tests.
pub proof fn lemma_same_shape_same_tests(src: Seq<u8>, a: SyntaxNode, b: SyntaxNode)
    requires
        same_shape(a, b),
    ensures
        tests_in_module(src, a) == tests_in_module(src, b),
{
    lemma_range_same_tests(
        src,
        Role::Module,
        Seq::empty(),
        a.children@,
        b.children@,
        0,
        a.children@.len() as int,
    );
}

/// A tree-sitter parser set to the Python grammar.
pub struct PythonParser {
    parser: tree_sitter::Parser,
}

/// A tree parsed from some source, with the named tree it stands for.
pub struct PythonTree {
    tree: tree_sitter::Tree,
    root: Ghost<SyntaxNode>,
}

/// A position in a parsed tree: the path of child indices from its root.
pub struct SyntaxCursor<'a> {
    cursor: tree_sitter::TreeCursor<'a>,
    root: Ghost<SyntaxNode>,
    at: Ghost<Seq<int>>,
}

impl PythonParser {
    /// Relies on `tree_sitter::Parser::new` and `Parser::set_language` with
    /// `tree_sitter_python::LANGUAGE`: setting the language fails only when
    /// the grammar's version does not fit the library, and then no source
    /// gets a tree.
    #[verifier::external_body]
    pub fn new() -> (r: Option<PythonParser>)
        ensures
            r is None ==> forall|s: Seq<u8>| #[trigger] python_syntax(s) is None,
    {
        let mut parser = tree_sitter::Parser::new();
        let language: tree_sitter::Language = tree_sitter_python::LANGUAGE.into();
        parser.set_language(&language).ok().map(|_| PythonParser { parser })
    }

    /// Relies on `tree_sitter::Parser::parse` with no earlier tree, no
    /// timeout and no cancellation flag: the tree depends on the bytes alone.
    #[verifier::external_body]
    pub fn parse(&mut self, text: &[u8]) -> (r: Option<PythonTree>)
        ensures
            r is Some <==> python_syntax(text@) is Some,
            r matches Some(t) ==> python_syntax(text@) == Some(t.root()),
    {
        let root = Ghost(python_syntax(text@)->0);
        self.parser.parse(text, None).map(|tree| PythonTree { tree, root })
    }
}

impl PythonTree {
    /// The named tree this one stands for.
    pub closed spec fn root(&self) -> SyntaxNode {
        self.root@
    }

    /// Relies on `tree_sitter::Tree::walk`: a cursor on the root node.
    #[verifier::external_body]
    pub fn walk(&self) -> (r: SyntaxCursor<'_>)
        ensures
            r.root() == self.root(),
            r.at() == Seq::<int>::empty(),
    {
        SyntaxCursor { cursor: self.tree.walk(), root: Ghost(self.root@), at: Ghost(Seq::empty()) }
    }
}

impl<'a> SyntaxCursor<'a> {
    /// The tree the cursor walks.
    pub closed spec fn root(&self) -> SyntaxNode {
        self.root@
    }

    /// The path from the root to the cursor's node.
    pub closed spec fn at(&self) -> Seq<int> {
        self.at@
    }

    /// The node under the cursor.
    pub open spec fn current(&self) -> SyntaxNode {
        node_at(self.root(), self.at())
    }

    /// Relies on `tree_sitter::TreeCursor::node` and the node's `kind`,
    /// `start_byte` and `end_byte`: the current node's kind and span.
    #[verifier::external_body]
    pub fn node_fields(&self) -> (r: (String, usize, usize))
        ensures
            r.0 == self.current().kind,
            r.1 == self.current().start,
            r.2 == self.current().end,
    {
        let node = self.cursor.node();
        (node.kind().to_owned(), node.start_byte(), node.end_byte())
    }

    /// Relies on `tree_sitter::TreeCursor::goto_first_child`: moves to the
    /// first child; `false`, without moving, when there is none.
    #[verifier::external_body]
    pub fn goto_first_child(&mut self) -> (r: bool)
        ensures
            final(self).root() == old(self).root(),
            r == (old(self).current().children@.len() > 0),
            final(self).at() == if r {
                old(self).at().push(0)
            } else {
                old(self).at()
            },
    {
        self.cursor.goto_first_child()
    }

    /// Relies on `tree_sitter::TreeCursor::goto_next_sibling`: moves to the
    /// next sibling; `false`, without moving, when there is none.
    #[verifier::external_body]
    pub fn goto_next_sibling(&mut self) -> (r: bool)
        requires
            old(self).at().len() > 0,
        ensures
            final(self).root() == old(self).root(),
            r == (old(self).at().last() + 1 < node_at(
                old(self).root(),
                old(self).at().drop_last(),
            ).children@.len()),
            final(self).at() == if r {
                old(self).at().drop_last().push(old(self).at().last() + 1)
            } else {
                old(self).at()
            },
    {
        self.cursor.goto_next_sibling()
    }

    /// Relies on `tree_sitter::TreeCursor::goto_parent`: moves back to the
    /// parent, which exists below the node the cursor started on.
    #[verifier::external_body]
    pub fn goto_parent(&mut self) -> (r: bool)
        requires
            old(self).at().len() > 0,
        ensures
            r,
            final(self).root() == old(self).root(),
            final(self).at() == old(self).at().drop_last(),
    {
        self.cursor.goto_parent()
    }
}

/// Why a file could not be parsed.
#[derive(Debug, Clone, Copy, PartialEq, Eq, Structural)]
pub enum ParseError {
    /// The Python grammar does not fit the tree-sitter library.
    Language,
    /// The parser gave no tree.
    NoTree,
}

/// Reads the subtree under the cursor, node `n`; the cursor ends where it
/// started.
fn read_subtree(cursor: &mut SyntaxCursor, Ghost(n): Ghost<SyntaxNode>) -> (r: SyntaxNode)
    requires
        valid_path(old(cursor).root(), old(cursor).at()),
        n == old(cursor).current(),
    ensures
        final(cursor).root() == old(cursor).root(),
        final(cursor).at() == old(cursor).at(),
        same_shape(r, n),
    decreases n,
{
    let ghost root = cursor.root();
    let ghost at0 = cursor.at();
    let (kind, start, end) = cursor.node_fields();
    let mut children: Vec<SyntaxNode> = Vec::new();
    if cursor.goto_first_child() {
        loop
            invariant_except_break
                cursor.at() == at0.push(children@.len() as int),
                children@.len() < n.children@.len(),
            invariant
                cursor.root() == root,
                root == old(cursor).root(),
                at0 == old(cursor).at(),
                n == node_at(root, at0),
                valid_path(root, at0),
                n.children@.len() > 0,
                children@.len() <= n.children@.len(),
                forall|j: int|
                    0 <= j < children@.len() ==> #[trigger] same_shape(
                        children@[j],
                        n.children@[j],
                    ),
            ensures
                children@.len() == n.children@.len(),
                cursor.at() == at0.push(children@.len() - 1),
                cursor.root() == root,
                forall|j: int|
                    0 <= j < children@.len() ==> #[trigger] same_shape(
                        children@[j],
                        n.children@[j],
                    ),
            decreases n.children@.len() - children@.len(),
        {
            let k = children.len();
            let ghost p = at0.push(k as int);
            assert(p.drop_last() =~= at0);
            assert(valid_path(root, p));
            assert(node_at(root, p) == n.children@[k as int]);
            assert(decreases_to!(n => n.children@[k as int]));
            let child = read_subtree(cursor, Ghost(n.children@[k as int]));
            children.push(child);
            if !cursor.goto_next_sibling() {
                break;
            }
        }
        let _ = cursor.goto_parent();
        assert(at0.push(children@.len() - 1).drop_last() =~= at0);
    }
    let r = SyntaxNode { kind, start, end, children };
    assert(r.kind == n.kind);
    assert(r.start == n.start);
    assert(r.end == n.end);
    assert(r.children@.len() == n.children@.len());
    assert forall|i: int| 0 <= i < r.children@.len() implies same_shape(
        #[trigger] r.children@[i],
        n.children@[i],
    ) by {
        assert(r.children@[i] == children@[i]);
    }
    assert(same_shape(r, n));
    r
}

/// Parses Python source `src`: the tree tree-sitter's Python grammar gives
/// for it, or an error exactly when it gives none.
pub fn parse_python(src: &Vec<u8>) -> (r: Result<SyntaxNode, ParseError>)
    ensures
        match r {
            Ok(t) => python_syntax(src@) matches Some(u) && same_shape(t, u),
            Err(_) => python_syntax(src@) is None,
        },
{
    let mut parser = match PythonParser::new() {
        Some(p) => p,
        None => return Err(ParseError::Language),
    };
    let tree = match parser.parse(src.as_slice()) {
        Some(t) => t,
        None => return Err(ParseError::NoTree),
    };
    let mut cursor = tree.walk();
    let root = read_subtree(&mut cursor, Ghost(tree.root()));
    Ok(root)
}

} // verus!

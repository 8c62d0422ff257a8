//! The test visitor: which functions of a parsed Python file are tests, and
//! under which test classes they stand.

use crate::text::{has_prefix, same_text};
use vstd::prelude::*;

verus! {

/// A node of a syntax tree: its kind, the bytes of the source it spans
/// (`start..end`), and its children in source order.
pub struct SyntaxNode {
    pub kind: String,
    pub start: usize,
    pub end: usize,
    pub children: Vec<SyntaxNode>,
}

/// Why a file's tests could not be read.
#[derive(Debug, PartialEq, Eq)]
pub enum ExtractError {
    /// A node of this kind stands where the visitor knows no rule for it.
    UnrecognizedSyntax(String),
    /// A class or function definition without a name.
    MissingName,
    /// A class whose name node is of this kind rather than an identifier.
    UnexpectedNameKind(String),
    /// A span that is not valid UTF-8 text of the source.
    InvalidText,
}

/// A test function found in a file: the names of its enclosing test
/// classes, outermost first, its own name, and the bytes of its whole
/// definition.
pub struct FoundTest {
    pub class_path: Vec<String>,
    pub name: String,
    pub start: usize,
    pub end: usize,
}

/// A found test as the contracts see it.
pub struct FoundModel {
    pub class_path: Seq<Seq<char>>,
    pub name: Seq<char>,
    pub start: int,
    pub end: int,
}

impl View for FoundTest {
    type V = FoundModel;

    open spec fn view(&self) -> FoundModel {
        FoundModel {
            class_path: self.class_path.deep_view(),
            name: self.name@,
            start: self.start as int,
            end: self.end as int,
        }
    }
}

/// The text that `bytes` decode to as UTF-8, or `None` where they are not
/// UTF-8.
pub uninterp spec fn utf8_decoding(bytes: Seq<u8>) -> Option<Seq<char>>;

/// Relies on `String::from_utf8`: it fails exactly on bytes that are not
/// UTF-8, and otherwise holds their text.
#[verifier::external_body]
fn decode_utf8(bytes: Vec<u8>) -> (r: Option<String>)
    ensures
        match r {
            Some(s) => utf8_decoding(bytes@) == Some(s@),
            None => utf8_decoding(bytes@) is None,
        },
{
    String::from_utf8(bytes).ok()
}

/// The text of bytes `start..end` of source `src`.
pub open spec fn text_between(src: Seq<u8>, start: int, end: int) -> Option<Seq<char>> {
    if 0 <= start <= end <= src.len() {
        utf8_decoding(src.subrange(start, end))
    } else {
        None
    }
}

/// The text of node `n` in source `src`.
pub open spec fn span_text(src: Seq<u8>, n: SyntaxNode) -> Option<Seq<char>> {
    text_between(src, n.start as int, n.end as int)
}

/// Reads the text of bytes `start..end` of `src`.
pub fn span_to_string(src: &Vec<u8>, start: usize, end: usize) -> (r: Result<String, ExtractError>)
    ensures
        match r {
            Ok(s) => text_between(src@, start as int, end as int) == Some(s@),
            Err(e) => text_between(src@, start as int, end as int) is None && e
                == ExtractError::InvalidText,
        },
{
    if start > end || end > src.len() {
        return Err(ExtractError::InvalidText);
    }
    let mut bytes: Vec<u8> = Vec::new();
    let mut i = start;
    while i < end
        invariant
            start <= i <= end <= src@.len(),
            bytes@ == src@.subrange(start as int, i as int),
        decreases end - i,
    {
        bytes.push(src[i]);
        i = i + 1;
        assert(bytes@ =~= src@.subrange(start as int, i as int));
    }
    match decode_utf8(bytes) {
        Some(s) => Ok(s),
        None => Err(ExtractError::InvalidText),
    }
}

/// Reads the text of node `n`.
fn node_text(src: &Vec<u8>, n: &SyntaxNode) -> (r: Result<String, ExtractError>)
    ensures
        match r {
            Ok(s) => span_text(src@, *n) == Some(s@),
            Err(e) => span_text(src@, *n) is None && e == ExtractError::InvalidText,
        },
{
    span_to_string(src, n.start, n.end)
}

/// Where a node stands, which decides the rule that applies to it.
#[derive(Clone, Copy, PartialEq, Eq, Structural)]
pub enum Role {
    /// A statement of the module.
    Module,
    /// A child of a decorated definition.
    Decorated,
    /// A child of a class definition after its keyword and name.
    ClassHeader,
    /// A statement of a class body.
    ClassBody,
}

/// Whether node `n` is of kind `k`.
pub open spec fn is_kind(n: SyntaxNode, k: &str) -> bool {
    n.kind@ == k@
}

/// Joins two results in order; the first error wins.
pub open spec fn join(
    a: Result<Seq<FoundModel>, ExtractError>,
    b: Result<Seq<FoundModel>, ExtractError>,
) -> Result<Seq<FoundModel>, ExtractError> {
    match a {
        Err(e) => Err(e),
        Ok(x) => match b {
            Err(e) => Err(e),
            Ok(y) => Ok(x + y),
        },
    }
}

/// The tests in `cs[lo..hi]`, each child taken in role `role`, under the
/// test classes `ctx`.
pub open spec fn tests_in_range(
    src: Seq<u8>,
    role: Role,
    ctx: Seq<Seq<char>>,
    cs: Seq<SyntaxNode>,
    lo: int,
    hi: int,
) -> Result<Seq<FoundModel>, ExtractError>
    decreases cs, 3int, hi - lo,
{
    if hi <= lo || hi > cs.len() || lo < 0 {
        Ok(Seq::empty())
    } else {
        join(
            tests_in_range(src, role, ctx, cs, lo, hi - 1),
            tests_in_node(src, role, ctx, cs[hi - 1]),
        )
    }
}

/// The tests in node `n`, standing in role `role` under the test classes
/// `ctx`.
pub open spec fn tests_in_node(
    src: Seq<u8>,
    role: Role,
    ctx: Seq<Seq<char>>,
    n: SyntaxNode,
) -> Result<Seq<FoundModel>, ExtractError>
    decreases n, 2int, 0int,
{
    if role != Role::Decorated && role != Role::ClassHeader && is_kind(n, "decorated_definition") {
        tests_in_range(src, Role::Decorated, ctx, n.children@, 0, n.children@.len() as int)
    } else if role != Role::ClassHeader && is_kind(n, "class_definition") {
        tests_in_class(src, ctx, n)
    } else if role != Role::ClassHeader && is_kind(n, "function_definition") {
        tests_in_function(src, ctx, n)
    } else if role == Role::ClassHeader && is_kind(n, "block") {
        tests_in_range(src, Role::ClassBody, ctx, n.children@, 0, n.children@.len() as int)
    } else if is_skipped(role, n) {
        Ok(Seq::empty())
    } else {
        Err(ExtractError::UnrecognizedSyntax(n.kind))
    }
}

/// Nodes that hold no tests where they stand.
pub open spec fn is_skipped(role: Role, n: SyntaxNode) -> bool {
    match role {
        Role::Module => is_kind(n, "import_statement") || is_kind(n, "import_from_statement")
            || is_kind(n, "expression_statement") || is_kind(n, "comment") || is_kind(
            n,
            "if_statement",
        ) || is_kind(n, "try_statement") || is_kind(n, "assert_statement"),
        Role::Decorated => is_kind(n, "decorator") || is_kind(n, "comment"),
        Role::ClassHeader => is_kind(n, ":") || is_kind(n, "argument_list") || is_kind(
            n,
            "comment",
        ),
        Role::ClassBody => is_kind(n, "expression_statement") || is_kind(n, "comment") || is_kind(
            n,
            "pass_statement",
        ),
    }
}

/// A class definition: nothing unless its name starts with `Test`; else the
/// tests of its body, under `ctx` and its name.
pub open spec fn tests_in_class(src: Seq<u8>, ctx: Seq<Seq<char>>, n: SyntaxNode) -> Result<
    Seq<FoundModel>,
    ExtractError,
>
    decreases n, 1int, 0int,
{
    if n.children@.len() < 2 {
        Err(ExtractError::MissingName)
    } else if !is_kind(n.children@[1], "identifier") {
        Err(ExtractError::UnexpectedNameKind(n.children@[1].kind))
    } else {
        match span_text(src, n.children@[1]) {
            None => Err(ExtractError::InvalidText),
            Some(name) => if starts_with(name, "Test"@) {
                tests_in_range(
                    src,
                    Role::ClassHeader,
                    ctx.push(name),
                    n.children@,
                    2,
                    n.children@.len() as int,
                )
            } else {
                Ok(Seq::empty())
            },
        }
    }
}

/// Whether `s` begins with `prefix`.
pub open spec fn starts_with(s: Seq<char>, prefix: Seq<char>) -> bool {
    prefix.len() <= s.len() && s.subrange(0, prefix.len() as int) == prefix
}

/// A function definition: one test when its name starts with `test_`.
pub open spec fn tests_in_function(src: Seq<u8>, ctx: Seq<Seq<char>>, n: SyntaxNode) -> Result<
    Seq<FoundModel>,
    ExtractError,
> {
    if n.children@.len() < 2 {
        Err(ExtractError::MissingName)
    } else {
        match span_text(src, n.children@[1]) {
            None => Err(ExtractError::InvalidText),
            Some(name) => if starts_with(name, "test_"@) {
                Ok(
                    seq![
                        FoundModel {
                            class_path: ctx,
                            name: name,
                            start: n.start as int,
                            end: n.end as int,
                        },
                    ],
                )
            } else {
                Ok(Seq::empty())
            },
        }
    }
}

/// The tests of a module, whose root node is `root`.
pub open spec fn tests_in_module(src: Seq<u8>, root: SyntaxNode) -> Result<
    Seq<FoundModel>,
    ExtractError,
> {
    tests_in_range(src, Role::Module, Seq::empty(), root.children@, 0, root.children@.len() as int)
}

/// A found test follows the naming convention: its name starts with
/// `test_`, and each class it stands in starts with `Test`.
pub open spec fn follows_convention(f: FoundModel) -> bool {
    &&& starts_with(f.name, "test_"@)
    &&& forall|i: int| 0 <= i < f.class_path.len() ==> starts_with(#[trigger] f.class_path[i], "Test"@)
}

/// Every class name in `ctx` starts with `Test`.
pub open spec fn test_classes(ctx: Seq<Seq<char>>) -> bool {
    forall|i: int| 0 <= i < ctx.len() ==> starts_with(#[trigger] ctx[i], "Test"@)
}

/// Every found test in `fs` follows the naming convention.
pub open spec fn all_follow_convention(fs: Seq<FoundModel>) -> bool {
    forall|i: int| 0 <= i < fs.len() ==> follows_convention(#[trigger] fs[i])
}

proof fn lemma_join_follows(
    a: Result<Seq<FoundModel>, ExtractError>,
    b: Result<Seq<FoundModel>, ExtractError>,
)
    requires
        a matches Ok(x) ==> all_follow_convention(x),
        b matches Ok(y) ==> all_follow_convention(y),
    ensures
        join(a, b) matches Ok(z) ==> all_follow_convention(z),
{
    if let (Ok(x), Ok(y)) = (a, b) {
        assert forall|i: int| 0 <= i < (x + y).len() implies follows_convention(
            #[trigger] (x + y)[i],
        ) by {
            if i < x.len() {
                assert((x + y)[i] == x[i]);
            } else {
                assert((x + y)[i] == y[i - x.len()]);
            }
        }
    }
}

proof fn lemma_range_follows(
    src: Seq<u8>,
    role: Role,
    ctx: Seq<Seq<char>>,
    cs: Seq<SyntaxNode>,
    lo: int,
    hi: int,
)
    requires
        test_classes(ctx),
    ensures
        tests_in_range(src, role, ctx, cs, lo, hi) matches Ok(fs) ==> all_follow_convention(fs),
    decreases cs, 3int, hi - lo,
{
    if !(hi <= lo || hi > cs.len() || lo < 0) {
        lemma_range_follows(src, role, ctx, cs, lo, hi - 1);
        lemma_node_follows(src, role, ctx, cs[hi - 1]);
        lemma_join_follows(
            tests_in_range(src, role, ctx, cs, lo, hi - 1),
            tests_in_node(src, role, ctx, cs[hi - 1]),
        );
    }
}

proof fn lemma_node_follows(src: Seq<u8>, role: Role, ctx: Seq<Seq<char>>, n: SyntaxNode)
    requires
        test_classes(ctx),
    ensures
        tests_in_node(src, role, ctx, n) matches Ok(fs) ==> all_follow_convention(fs),
    decreases n, 2int, 0int,
{
    if role != Role::Decorated && role != Role::ClassHeader && is_kind(n, "decorated_definition") {
        lemma_range_follows(src, Role::Decorated, ctx, n.children@, 0, n.children@.len() as int);
    } else if role != Role::ClassHeader && is_kind(n, "class_definition") {
        lemma_class_follows(src, ctx, n);
    } else if role != Role::ClassHeader && is_kind(n, "function_definition") {
    } else if role == Role::ClassHeader && is_kind(n, "block") {
        lemma_range_follows(src, Role::ClassBody, ctx, n.children@, 0, n.children@.len() as int);
    }
}

proof fn lemma_class_follows(src: Seq<u8>, ctx: Seq<Seq<char>>, n: SyntaxNode)
    requires
        test_classes(ctx),
    ensures
        tests_in_class(src, ctx, n) matches Ok(fs) ==> all_follow_convention(fs),
    decreases n, 1int, 0int,
{
    if n.children@.len() >= 2 && is_kind(n.children@[1], "identifier") {
        if let Some(name) = span_text(src, n.children@[1]) {
            if starts_with(name, "Test"@) {
                let inner = ctx.push(name);
                assert forall|i: int| 0 <= i < inner.len() implies starts_with(
                    #[trigger] inner[i],
                    "Test"@,
                ) by {
                    if i < ctx.len() {
                        assert(inner[i] == ctx[i]);
                    }
                }
                lemma_range_follows(src, Role::ClassHeader, inner, n.children@, 2, n.children@.len() as int);
            }
        }
    }
}

/// A class whose name does not start with `Test` contributes no test, even
/// where its members are named like tests.
pub proof fn lemma_other_class_contributes_nothing(
    src: Seq<u8>,
    ctx: Seq<Seq<char>>,
    n: SyntaxNode,
    name: Seq<char>,
)
    requires
        n.children@.len() >= 2,
        is_kind(n.children@[1], "identifier"),
        span_text(src, n.children@[1]) == Some(name),
        !starts_with(name, "Test"@),
    ensures
        tests_in_class(src, ctx, n) == Ok::<Seq<FoundModel>, ExtractError>(Seq::empty()),
{
}

/// Whatever the tree, every test found in a module follows the naming
/// convention: its name starts with `test_`, and every class it is reported
/// under starts with `Test`. Members of other classes are never reported.
pub proof fn lemma_found_tests_follow_convention(src: Seq<u8>, root: SyntaxNode)
    ensures
        tests_in_module(src, root) matches Ok(fs) ==> all_follow_convention(fs),
{
    lemma_range_follows(src, Role::Module, Seq::empty(), root.children@, 0, root.children@.len() as int);
}

/// How a list of found tests is seen.
pub open spec fn found_view(v: Seq<FoundTest>) -> Seq<FoundModel> {
    v.map_values(|f: FoundTest| f@)
}

/// How a visitor's result is seen.
pub open spec fn result_view(r: Result<Vec<FoundTest>, ExtractError>) -> Result<
    Seq<FoundModel>,
    ExtractError,
> {
    match r {
        Ok(v) => Ok(found_view(v@)),
        Err(e) => Err(e),
    }
}

/// Once a prefix of the children fails, every longer prefix fails the same way.
pub proof fn lemma_range_error_stays(
    src: Seq<u8>,
    role: Role,
    ctx: Seq<Seq<char>>,
    cs: Seq<SyntaxNode>,
    lo: int,
    j: int,
    k: int,
)
    requires
        0 <= lo <= j <= k <= cs.len(),
        tests_in_range(src, role, ctx, cs, lo, j) is Err,
    ensures
        tests_in_range(src, role, ctx, cs, lo, k) == tests_in_range(src, role, ctx, cs, lo, j),
    decreases k - j,
{
    if k > j {
        lemma_range_error_stays(src, role, ctx, cs, lo, j, k - 1);
    }
}

/// Whether node `n` is of kind `k`.
fn kind_is(n: &SyntaxNode, k: &str) -> (r: bool)
    ensures
        r == is_kind(*n, k),
{
    same_text(n.kind.as_str(), k)
}

fn skipped(role: Role, n: &SyntaxNode) -> (r: bool)
    ensures
        r == is_skipped(role, *n),
{
    match role {
        Role::Module => kind_is(n, "import_statement") || kind_is(n, "import_from_statement")
            || kind_is(n, "expression_statement") || kind_is(n, "comment") || kind_is(
            n,
            "if_statement",
        ) || kind_is(n, "try_statement") || kind_is(n, "assert_statement"),
        Role::Decorated => kind_is(n, "decorator") || kind_is(n, "comment"),
        Role::ClassHeader => kind_is(n, ":") || kind_is(n, "argument_list") || kind_is(
            n,
            "comment",
        ),
        Role::ClassBody => kind_is(n, "expression_statement") || kind_is(n, "comment") || kind_is(
            n,
            "pass_statement",
        ),
    }
}

fn name_starts_with(name: &String, prefix: &str) -> (r: bool)
    ensures
        r == starts_with(name@, prefix@),
{
    has_prefix(name.as_str(), prefix)
}

/// A copy of a list of class names.
fn clone_names(v: &Vec<String>) -> (r: Vec<String>)
    ensures
        r.deep_view() == v.deep_view(),
{
    let r = v.clone();
    assert(r.deep_view() =~= v.deep_view());
    r
}

/// The tests in `cs[lo..]`, each child taken in role `role`, under the test
/// classes `ctx`.
fn visit_range(
    src: &Vec<u8>,
    role: Role,
    ctx: &Vec<String>,
    cs: &Vec<SyntaxNode>,
    lo: usize,
) -> (r: Result<Vec<FoundTest>, ExtractError>)
    requires
        lo <= cs@.len(),
    ensures
        result_view(r) == tests_in_range(src@, role, ctx.deep_view(), cs@, lo as int, cs@.len() as int),
    decreases cs@, 3int, 0int,
{
    let ghost c = ctx.deep_view();
    let mut out: Vec<FoundTest> = Vec::new();
    let mut i = lo;
    assert(found_view(out@) =~= Seq::<FoundModel>::empty());
    while i < cs.len()
        invariant
            lo <= i <= cs@.len(),
            c == ctx.deep_view(),
            tests_in_range(src@, role, c, cs@, lo as int, i as int) == Ok::<
                Seq<FoundModel>,
                ExtractError,
            >(found_view(out@)),
        decreases cs@.len() - i,
    {
        assert(decreases_to!(cs@ => cs@[i as int]));
        let r = visit_node(src, role, ctx, &cs[i]);
        match r {
            Err(e) => {
                proof {
                    lemma_range_error_stays(
                        src@,
                        role,
                        c,
                        cs@,
                        lo as int,
                        i + 1,
                        cs@.len() as int,
                    );
                }
                return Err(e);
            },
            Ok(mut found) => {
                let ghost before = out@;
                let ghost added = found@;
                out.append(&mut found);
                assert(found_view(out@) =~= found_view(before) + found_view(added));
            },
        }
        i = i + 1;
    }
    Ok(out)
}

/// The tests in node `n`, standing in role `role` under the test classes
/// `ctx`.
fn visit_node(src: &Vec<u8>, role: Role, ctx: &Vec<String>, n: &SyntaxNode) -> (r: Result<
    Vec<FoundTest>,
    ExtractError,
>)
    ensures
        result_view(r) == tests_in_node(src@, role, ctx.deep_view(), *n),
    decreases *n, 2int, 0int,
{
    if role != Role::Decorated && role != Role::ClassHeader && kind_is(n, "decorated_definition") {
        visit_range(src, Role::Decorated, ctx, &n.children, 0)
    } else if role != Role::ClassHeader && kind_is(n, "class_definition") {
        visit_class(src, ctx, n)
    } else if role != Role::ClassHeader && kind_is(n, "function_definition") {
        visit_function(src, ctx, n)
    } else if role == Role::ClassHeader && kind_is(n, "block") {
        visit_range(src, Role::ClassBody, ctx, &n.children, 0)
    } else if skipped(role, n) {
        let out: Vec<FoundTest> = Vec::new();
        assert(found_view(out@) =~= Seq::<FoundModel>::empty());
        Ok(out)
    } else {
        Err(ExtractError::UnrecognizedSyntax(n.kind.clone()))
    }
}

/// A class definition: nothing unless its name starts with `Test`; else the
/// tests of its body.
fn visit_class(src: &Vec<u8>, ctx: &Vec<String>, n: &SyntaxNode) -> (r: Result<
    Vec<FoundTest>,
    ExtractError,
>)
    ensures
        result_view(r) == tests_in_class(src@, ctx.deep_view(), *n),
    decreases *n, 1int, 0int,
{
    if n.children.len() < 2 {
        return Err(ExtractError::MissingName);
    }
    let name_node = &n.children[1];
    if !kind_is(name_node, "identifier") {
        return Err(ExtractError::UnexpectedNameKind(name_node.kind.clone()));
    }
    let name = match node_text(src, name_node) {
        Ok(s) => s,
        Err(e) => return Err(e),
    };
    if !name_starts_with(&name, "Test") {
        let out: Vec<FoundTest> = Vec::new();
        assert(found_view(out@) =~= Seq::<FoundModel>::empty());
        return Ok(out);
    }
    let mut path = clone_names(ctx);
    let ghost name_view = name@;
    path.push(name);
    assert(path.deep_view() =~= ctx.deep_view().push(name_view));
    visit_range(src, Role::ClassHeader, &path, &n.children, 2)
}

/// A function definition: one test when its name starts with `test_`.
fn visit_function(src: &Vec<u8>, ctx: &Vec<String>, n: &SyntaxNode) -> (r: Result<
    Vec<FoundTest>,
    ExtractError,
>)
    ensures
        result_view(r) == tests_in_function(src@, ctx.deep_view(), *n),
{
    if n.children.len() < 2 {
        return Err(ExtractError::MissingName);
    }
    let name = match node_text(src, &n.children[1]) {
        Ok(s) => s,
        Err(e) => return Err(e),
    };
    let mut out: Vec<FoundTest> = Vec::new();
    if name_starts_with(&name, "test_") {
        let found = FoundTest { class_path: clone_names(ctx), name, start: n.start, end: n.end };
        out.push(found);
    }
    assert(found_view(out@) =~= match tests_in_function(src@, ctx.deep_view(), *n) {
        Ok(s) => s,
        Err(_) => Seq::empty(),
    });
    Ok(out)
}

/// The test functions of a module whose syntax tree is `root` and whose
/// source bytes are `src`, in source order: functions named `test_...` at
/// module level, in decorated definitions, and in the bodies of classes
/// named `Test...`, nested classes included; a class not so named is not
/// entered. A node that stands where no rule covers it fails the file.
pub fn find_tests(src: &Vec<u8>, root: &SyntaxNode) -> (r: Result<Vec<FoundTest>, ExtractError>)
    ensures
        result_view(r) == tests_in_module(src@, *root),
{
    let ctx: Vec<String> = Vec::new();
    assert(ctx.deep_view() =~= Seq::<Seq<char>>::empty());
    visit_range(src, Role::Module, &ctx, &root.children, 0)
}

} // verus!

use testsearch::command::{command_parts, fill_template, split_words, CommandError};
use testsearch::discover::{
    is_test_file_name, search_roots, keep_marked, plan_rerun, require_candidates, selection_outcome,
    tests_in_file, ContentFilter, FileError, RerunPlan, SearchError, TestCase,
};
use testsearch::parse::parse_python;
use testsearch::syntax::{find_tests, ExtractError, FoundTest, SyntaxNode};

fn s(x: &str) -> String {
    x.to_string()
}

fn identifiers(file: &str, source: &str, pattern: Option<&str>) -> Vec<String> {
    let filter = pattern.map(|p| ContentFilter::new(p).unwrap());
    let cases = tests_in_file(&s(file), &source.as_bytes().to_vec(), filter.as_ref()).unwrap();
    cases.iter().map(|c| c.identifier()).collect()
}

#[test]
fn only_tests_in_test_classes_are_found() {
    let src = "class TestA:\n    def test_x(self):\n        pass\n\nclass Helper:\n    def test_y(self):\n        pass\n";
    assert_eq!(identifiers("tests/test_a.py", src, None), vec![s("tests/test_a.py::TestA::test_x")]);
}

#[test]
fn nested_test_classes_join_their_names() {
    let src = "class TestOuter:\n    class TestInner:\n        def test_z(self):\n            pass\n";
    assert_eq!(
        identifiers("test_n.py", src, None),
        vec![s("test_n.py::TestOuter::TestInner::test_z")]
    );
}

#[test]
fn module_level_and_decorated_tests_are_found_in_order() {
    let src = "import os\n\n@mark\ndef test_one():\n    pass\n\ndef helper():\n    pass\n\ndef test_two():\n    assert True\n\nclass TestC:\n    @staticmethod\n    def test_three():\n        pass\n    def not_a_test(self):\n        pass\n";
    assert_eq!(
        identifiers("test_m.py", src, None),
        vec![s("test_m.py::test_one"), s("test_m.py::test_two"), s("test_m.py::TestC::test_three")]
    );
}

#[test]
fn content_filter_keeps_only_matching_bodies() {
    let src = "def test_fetch():\n    requests.get(url)\n\nclass TestB:\n    def test_fetch(self):\n        requests.post(url)\n";
    assert_eq!(
        identifiers("test_f.py", src, Some(r"requests\.get")),
        vec![s("test_f.py::test_fetch")]
    );
    assert_eq!(identifiers("test_f.py", src, Some("requests")).len(), 2);
}

#[test]
fn content_filter_sees_the_signature() {
    let src = "def test_uses_client(client):\n    pass\n\ndef test_other():\n    pass\n";
    assert_eq!(
        identifiers("test_s.py", src, Some("client")),
        vec![s("test_s.py::test_uses_client")]
    );
}

#[test]
fn invalid_pattern_is_reported() {
    match ContentFilter::new("(unclosed") {
        Err(SearchError::InvalidPattern(p)) => assert_eq!(p, s("(unclosed")),
        _ => panic!("expected an invalid pattern"),
    }
}

#[test]
fn unknown_module_statement_fails_the_file() {
    let src = "while True:\n    pass\n";
    let r = tests_in_file(&s("test_w.py"), &src.as_bytes().to_vec(), None);
    assert!(matches!(
        r,
        Err(FileError::Extract(ExtractError::UnrecognizedSyntax(k))) if k == "while_statement"
    ));
}

#[test]
fn parsed_tree_spans_the_source() {
    let src = b"def test_a():\n    pass\n".to_vec();
    let root = parse_python(&src).unwrap();
    assert_eq!(root.kind, "module");
    assert_eq!(root.children.len(), 1);
    assert_eq!(root.children[0].kind, "function_definition");
    assert_eq!(root.children[0].children[1].kind, "identifier");
    assert_eq!(root.children[0].start, 0);
}

fn leaf(kind: &str, start: usize, end: usize) -> SyntaxNode {
    SyntaxNode { kind: s(kind), start, end, children: vec![] }
}

fn node(kind: &str, start: usize, end: usize, children: Vec<SyntaxNode>) -> SyntaxNode {
    SyntaxNode { kind: s(kind), start, end, children }
}

#[test]
fn visitor_on_a_built_tree() {
    // "def test_q(): pass"
    let src = b"def test_q(): pass".to_vec();
    let func = node(
        "function_definition",
        0,
        18,
        vec![leaf("def", 0, 3), leaf("identifier", 4, 10), leaf(":", 12, 13)],
    );
    let root = node("module", 0, 18, vec![func]);
    let found = find_tests(&src, &root).unwrap();
    assert_eq!(found.len(), 1);
    assert_eq!(found[0].name, "test_q");
    assert!(found[0].class_path.is_empty());
    assert_eq!((found[0].start, found[0].end), (0, 18));
}

#[test]
fn visitor_reports_missing_and_bad_names() {
    let src = b"class 1: pass".to_vec();
    let no_name = node("module", 0, 13, vec![node("function_definition", 0, 3, vec![leaf("def", 0, 3)])]);
    assert_eq!(find_tests(&src, &no_name).err(), Some(ExtractError::MissingName));
    let bad = node(
        "module",
        0,
        13,
        vec![node("class_definition", 0, 13, vec![leaf("class", 0, 5), leaf("integer", 6, 7)])],
    );
    assert_eq!(
        find_tests(&src, &bad).err(),
        Some(ExtractError::UnexpectedNameKind(s("integer")))
    );
    let out_of_range = node(
        "module",
        0,
        13,
        vec![node("function_definition", 0, 13, vec![leaf("def", 0, 3), leaf("identifier", 4, 99)])],
    );
    assert_eq!(find_tests(&src, &out_of_range).err(), Some(ExtractError::InvalidText));
}

#[test]
fn invalid_utf8_name_is_invalid_text() {
    let src = vec![b'd', b'e', b'f', b' ', 0xff, 0xfe];
    let root = node(
        "module",
        0,
        6,
        vec![node("function_definition", 0, 6, vec![leaf("def", 0, 3), leaf("identifier", 4, 6)])],
    );
    assert_eq!(find_tests(&src, &root).err(), Some(ExtractError::InvalidText));
}

#[test]
fn identifier_forms() {
    let plain = TestCase { file: s("a/test_x.py"), class_path: vec![], name: s("test_f") };
    assert_eq!(plain.identifier(), "a/test_x.py::test_f");
    let nested = TestCase {
        file: s("test_x.py"),
        class_path: vec![s("TestA"), s("TestB")],
        name: s("test_g"),
    };
    assert_eq!(nested.identifier(), "test_x.py::TestA::TestB::test_g");
}

#[test]
fn test_file_naming_convention() {
    assert!(is_test_file_name("test_models.py"));
    assert!(!is_test_file_name("models_test.py"));
    assert!(!is_test_file_name("test_models.pyc"));
    assert!(!is_test_file_name("test_"));
    assert!(is_test_file_name("test_.py"));
}

#[test]
fn no_candidate_files_is_an_error() {
    assert_eq!(require_candidates(vec![]), Err(SearchError::NoCandidatesFound));
    assert_eq!(require_candidates(vec![s("test_a.py")]), Ok(vec![s("test_a.py")]));
}

#[test]
fn selection_outcomes() {
    assert_eq!(selection_outcome(true, vec![s("a")]), Ok(None));
    assert_eq!(selection_outcome(false, vec![]), Ok(None));
    assert_eq!(selection_outcome(false, vec![s("a")]), Ok(Some(s("a"))));
    assert_eq!(
        selection_outcome(false, vec![s("a"), s("b")]),
        Err(SearchError::MultipleSelections)
    );
}

#[test]
fn rerun_plans() {
    let dir = s("/p");
    assert_eq!(plan_rerun(None, true, &dir), Err(SearchError::NoHistory(s("/p"))));
    assert_eq!(plan_rerun(Some(vec![]), true, &dir), Err(SearchError::NoHistory(s("/p"))));
    assert_eq!(
        plan_rerun(Some(vec![s("a"), s("b")]), true, &dir),
        Ok(RerunPlan::Print(s("b")))
    );
    assert_eq!(
        plan_rerun(Some(vec![s("a"), s("b")]), false, &dir),
        Ok(RerunPlan::Pick(vec![s("a"), s("b")]))
    );
}

#[test]
fn marks_select_found_tests() {
    let f = |n: &str| FoundTest { class_path: vec![], name: s(n), start: 0, end: 0 };
    let kept = keep_marked(vec![f("test_a"), f("test_b"), f("test_c")], &vec![true, false, true]);
    let names: Vec<String> = kept.into_iter().map(|t| t.name).collect();
    assert_eq!(names, vec![s("test_a"), s("test_c")]);
}

#[test]
fn roots_default_to_current_directory() {
    assert_eq!(search_roots(vec![], s("/here")), vec![s("/here")]);
    assert_eq!(search_roots(vec![s("a"), s("b")], s("/here")), vec![s("a"), s("b")]);
}

#[test]
fn command_template_fills_every_placeholder() {
    assert_eq!(fill_template("pytest {}", "a.py::test_x"), Ok(s("pytest a.py::test_x")));
    assert_eq!(fill_template("{} and {}", "t"), Ok(s("t and t")));
    assert_eq!(fill_template("pytest", "t"), Err(CommandError::MissingPlaceholder));
    assert_eq!(fill_template("{x}", "t"), Err(CommandError::MissingPlaceholder));
}

#[test]
fn commands_split_at_white_space() {
    assert_eq!(split_words("  pytest  -x\ta.py\n"), vec![s("pytest"), s("-x"), s("a.py")]);
    assert_eq!(
        command_parts("pytest -q a.py::test_x"),
        Ok((s("pytest"), vec![s("-q"), s("a.py::test_x")]))
    );
    assert_eq!(command_parts(" \t "), Err(CommandError::EmptyCommand));
    assert_eq!(split_words("a\u{3000}b"), vec![s("a"), s("b")]);
}

#[test]
fn decorated_nested_class_keeps_enclosing_path() {
    let src = "class TestOuter:\n    @decorator\n    class TestInner:\n        def test_z(self):\n            pass\n";
    assert_eq!(
        identifiers("test_d.py", src, None),
        vec![s("test_d.py::TestOuter::TestInner::test_z")]
    );
}

#[test]
fn class_with_bases_and_comments_is_searched() {
    let src = "# leading\nclass TestBase(object):  # why\n    \"\"\"doc\"\"\"\n    # note\n    def test_a(self):\n        pass\n";
    assert_eq!(identifiers("test_b.py", src, None), vec![s("test_b.py::TestBase::test_a")]);
}

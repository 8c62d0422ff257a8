//! Test cases and their identifiers, the test-file naming convention, the
//! content filter, and the decisions around picking a test.

use crate::parse::{lemma_same_shape_same_tests, parse_python, python_syntax, ParseError};
use crate::syntax::{
    find_tests, found_view, span_to_string, starts_with, tests_in_module, text_between,
    ExtractError, FoundModel, FoundTest,
};
use crate::text::{has_prefix, has_suffix};
use vstd::prelude::*;

verus! {

/// One discovered test: its file, the test classes it stands in (outermost
/// first, possibly none) and its function name.
pub struct TestCase {
    pub file: String,
    pub class_path: Vec<String>,
    pub name: String,
}

/// A test case as the contracts see it.
pub struct TestCaseModel {
    pub file: Seq<char>,
    pub class_path: Seq<Seq<char>>,
    pub name: Seq<char>,
}

impl View for TestCase {
    type V = TestCaseModel;

    open spec fn view(&self) -> TestCaseModel {
        TestCaseModel {
            file: self.file@,
            class_path: self.class_path.deep_view(),
            name: self.name@,
        }
    }
}

/// `::` followed by each class name in turn.
pub open spec fn path_suffix(path: Seq<Seq<char>>) -> Seq<char>
    decreases path.len(),
{
    if path.len() == 0 {
        Seq::empty()
    } else {
        path_suffix(path.drop_last()) + "::"@ + path.last()
    }
}

/// The canonical identifier `file::Class1::Class2::name`, or `file::name`
/// outside any test class.
pub open spec fn identifier_of(t: TestCaseModel) -> Seq<char> {
    t.file + path_suffix(t.class_path) + "::"@ + t.name
}

impl TestCase {
    /// The canonical identifier of the test.
    pub fn identifier(&self) -> (r: String)
        ensures
            r@ == identifier_of(self@),
    {
        let mut s = self.file.clone();
        let mut i: usize = 0;
        let ghost path = self.class_path.deep_view();
        while i < self.class_path.len()
            invariant
                i <= self.class_path@.len(),
                path == self.class_path.deep_view(),
                s@ == self.file@ + path_suffix(path.take(i as int)),
            decreases self.class_path@.len() - i,
        {
            let ghost before = s@;
            s.append("::");
            s.append(self.class_path[i].as_str());
            assert(path.take(i + 1).drop_last() =~= path.take(i as int));
            assert(s@ =~= self.file@ + path_suffix(path.take(i + 1)));
            i = i + 1;
        }
        assert(path.take(i as int) =~= path);
        s.append("::");
        s.append(self.name.as_str());
        assert(s@ =~= identifier_of(self@));
        s
    }
}

/// The test-file convention: a name `test_*.py`.
pub open spec fn is_test_file(name: Seq<char>) -> bool {
    starts_with(name, "test_"@) && ".py"@.len() <= name.len() && name.subrange(
        name.len() - ".py"@.len(),
        name.len() as int,
    ) == ".py"@
}

/// Whether a file of this name is searched for tests.
pub fn is_test_file_name(name: &str) -> (r: bool)
    ensures
        r == is_test_file(name@),
{
    has_prefix(name, "test_") && has_suffix(name, ".py")
}

/// What makes a search or a rerun fail.
#[derive(Debug, PartialEq, Eq)]
pub enum SearchError {
    /// No test file was found under the roots.
    NoCandidatesFound,
    /// The selection engine handed back more than one test.
    MultipleSelections,
    /// Nothing is recorded for this directory.
    NoHistory(String),
    /// The content pattern is not a valid regular expression.
    InvalidPattern(String),
}

/// The roots to search: those given, or the current directory `here` when
/// none are.
pub fn search_roots(roots: Vec<String>, here: String) -> (r: Vec<String>)
    ensures
        roots@.len() == 0 ==> r@ == seq![here],
        roots@.len() > 0 ==> r@ == roots@,
{
    if roots.len() == 0 {
        let r = vec![here];
        r
    } else {
        roots
    }
}

/// The files to search, or `NoCandidatesFound` when there are none.
pub fn require_candidates(files: Vec<String>) -> (r: Result<Vec<String>, SearchError>)
    ensures
        files@.len() == 0 <==> r == Err::<Vec<String>, SearchError>(SearchError::NoCandidatesFound),
        r matches Ok(v) ==> v@ == files@,
{
    if files.len() == 0 {
        Err(SearchError::NoCandidatesFound)
    } else {
        Ok(files)
    }
}

/// What a single-select search ends in: nothing on abort or on an empty
/// selection, the one selected test, or `MultipleSelections`.
pub fn selection_outcome(is_abort: bool, selected: Vec<String>) -> (r: Result<
    Option<String>,
    SearchError,
>)
    ensures
        is_abort ==> r == Ok::<Option<String>, SearchError>(None),
        !is_abort && selected@.len() == 0 ==> r == Ok::<Option<String>, SearchError>(None),
        !is_abort && selected@.len() == 1 ==> r == Ok::<Option<String>, SearchError>(
            Some(selected@[0]),
        ),
        !is_abort && selected@.len() > 1 ==> r == Err::<Option<String>, SearchError>(
            SearchError::MultipleSelections,
        ),
{
    if is_abort || selected.len() == 0 {
        Ok(None)
    } else if selected.len() > 1 {
        Err(SearchError::MultipleSelections)
    } else {
        let mut selected = selected;
        Ok(Some(selected.remove(0)))
    }
}

/// What a rerun does: print the most recent test, or let the user pick
/// among the recorded ones.
#[derive(Debug, PartialEq, Eq)]
pub enum RerunPlan {
    /// Print this test.
    Print(String),
    /// Let the user pick one of these tests.
    Pick(Vec<String>),
}

/// Plans a rerun from the history `history` of directory `dir`: with `last`,
/// its most recent test; else a pick among all of them. Fails with
/// `NoHistory` when nothing is recorded, or with `last` on an empty history.
pub fn plan_rerun(history: Option<Vec<String>>, last: bool, dir: &String) -> (r: Result<
    RerunPlan,
    SearchError,
>)
    ensures
        match history {
            None => r == Err::<RerunPlan, SearchError>(SearchError::NoHistory(*dir)),
            Some(h) => if last {
                if h@.len() == 0 {
                    r == Err::<RerunPlan, SearchError>(SearchError::NoHistory(*dir))
                } else {
                    r == Ok::<RerunPlan, SearchError>(RerunPlan::Print(h@.last()))
                }
            } else {
                r == Ok::<RerunPlan, SearchError>(RerunPlan::Pick(h))
            },
        },
{
    match history {
        None => Err(SearchError::NoHistory(dir.clone())),
        Some(mut h) => {
            if last {
                match h.pop() {
                    Some(t) => Ok(RerunPlan::Print(t)),
                    None => Err(SearchError::NoHistory(dir.clone())),
                }
            } else {
                Ok(RerunPlan::Pick(h))
            }
        },
    }
}

#[verifier::external_type_specification]
#[verifier::external_body]
pub struct ExRegex(regex::Regex);

/// Whether `pattern` compiles as a regular expression.
pub uninterp spec fn regex_valid(pattern: Seq<char>) -> bool;

/// Whether the regular expression `pattern` matches somewhere in `text`.
pub uninterp spec fn regex_matches(pattern: Seq<char>, text: Seq<char>) -> bool;

/// Relies on `regex::Regex::new` with its default limits: whether it
/// compiles depends on the pattern alone.
#[verifier::external_body]
fn compile_pattern(pattern: &str) -> (r: Option<regex::Regex>)
    ensures
        r is Some <==> regex_valid(pattern@),
{
    regex::Regex::new(pattern).ok()
}

/// A regular expression that a test function's source must match.
pub struct ContentFilter {
    pattern: String,
    regex: regex::Regex,
}

impl ContentFilter {
    /// The pattern the filter was compiled from.
    pub closed spec fn pattern(&self) -> Seq<char> {
        self.pattern@
    }

    /// Compiles `pattern`; fails with `InvalidPattern` holding it exactly
    /// when it is not a valid regular expression.
    pub fn new(pattern: &str) -> (r: Result<ContentFilter, SearchError>)
        ensures
            r is Ok <==> regex_valid(pattern@),
            r matches Ok(f) ==> f.pattern() == pattern@,
            r matches Err(e) ==> e matches SearchError::InvalidPattern(p) && p@ == pattern@,
    {
        match compile_pattern(pattern) {
            Some(regex) => Ok(ContentFilter { pattern: pattern.to_owned(), regex }),
            None => Err(SearchError::InvalidPattern(pattern.to_owned())),
        }
    }

    /// Relies on `regex::Regex::is_match`, on the regex that `new` compiled
    /// from this filter's pattern: whether it matches somewhere in `text`.
    #[verifier::external_body]
    fn is_match(&self, text: &str) -> (r: bool)
        ensures
            r == regex_matches(self.pattern(), text@),
    {
        self.regex.is_match(text)
    }

    /// For each found test, whether the source text of its whole definition
    /// matches the pattern. Fails exactly when a definition's bytes are not
    /// text.
    pub fn content_marks(&self, src: &Vec<u8>, found: &Vec<FoundTest>) -> (r: Result<
        Vec<bool>,
        ExtractError,
    >)
        ensures
            match r {
                Ok(m) => spans_are_text(src@, found_view(found@)) && m@ == match_marks(
                    src@,
                    found_view(found@),
                    self.pattern(),
                ),
                Err(e) => e == ExtractError::InvalidText && !spans_are_text(
                    src@,
                    found_view(found@),
                ),
            },
    {
        let ghost fs = found_view(found@);
        let mut marks: Vec<bool> = Vec::new();
        let mut i: usize = 0;
        while i < found.len()
            invariant
                fs == found_view(found@),
                i <= found@.len(),
                marks@.len() == i,
                forall|j: int|
                    0 <= j < i ==> #[trigger] text_between(src@, fs[j].start, fs[j].end) is Some,
                forall|j: int|
                    0 <= j < i ==> #[trigger] marks@[j] == regex_matches(
                        self.pattern(),
                        text_between(src@, fs[j].start, fs[j].end)->0,
                    ),
            decreases found@.len() - i,
        {
            assert(fs[i as int] == found@[i as int]@);
            let text = match span_to_string(src, found[i].start, found[i].end) {
                Ok(t) => t,
                Err(e) => {
                    assert(text_between(src@, fs[i as int].start, fs[i as int].end) is None);
                    return Err(e);
                },
            };
            let m = self.is_match(text.as_str());
            marks.push(m);
            i = i + 1;
        }
        assert(marks@ =~= match_marks(src@, fs, self.pattern()));
        Ok(marks)
    }
}

/// Every found test's definition is text of the source.
pub open spec fn spans_are_text(src: Seq<u8>, fs: Seq<FoundModel>) -> bool {
    forall|i: int| 0 <= i < fs.len() ==> #[trigger] text_between(src, fs[i].start, fs[i].end) is Some
}

/// For each found test, whether `pattern` matches its definition's text.
pub open spec fn match_marks(src: Seq<u8>, fs: Seq<FoundModel>, pattern: Seq<char>) -> Seq<bool> {
    Seq::new(
        fs.len(),
        |i: int| regex_matches(pattern, text_between(src, fs[i].start, fs[i].end)->0),
    )
}

/// The found tests whose mark is set, in order.
pub open spec fn kept(found: Seq<FoundModel>, marks: Seq<bool>) -> Seq<FoundModel>
    decreases found.len(),
{
    if found.len() == 0 || marks.len() == 0 {
        Seq::empty()
    } else {
        let rest = kept(found.drop_last(), marks.drop_last());
        if marks.last() {
            rest.push(found.last())
        } else {
            rest
        }
    }
}

/// Keeps the found tests whose mark is set, in order.
pub fn keep_marked(found: Vec<FoundTest>, marks: &Vec<bool>) -> (r: Vec<FoundTest>)
    requires
        found@.len() == marks@.len(),
    ensures
        found_view(r@) == kept(found_view(found@), marks@),
{
    let ghost all = found@;
    assert(found@.len() == found.len());
    let mut rest = found;
    let mut out: Vec<FoundTest> = Vec::new();
    let mut i: usize = 0;
    assert(found_view(out@) =~= kept(found_view(all.take(0)), marks@.take(0)));
    while rest.len() > 0
        invariant
            all.len() == marks@.len(),
            all.len() <= usize::MAX,
            i + rest@.len() == all.len(),
            rest@ == all.subrange(i as int, all.len() as int),
            found_view(out@) == kept(found_view(all.take(i as int)), marks@.take(i as int)),
        decreases rest@.len(),
    {
        let f = rest.remove(0);
        assert(all[i as int] == f);
        let ghost before = out@;
        if marks[i] {
            out.push(f);
        }
        proof {
            assert(found_view(all.take(i + 1)).drop_last() =~= found_view(all.take(i as int)));
            assert(marks@.take(i + 1).drop_last() =~= marks@.take(i as int));
            assert(found_view(out@) =~= kept(found_view(all.take(i + 1)), marks@.take(i + 1)));
        }
        i = i + 1;
        assert(rest@ =~= all.subrange(i as int, all.len() as int));
    }
    assert(all.take(i as int) =~= all);
    assert(marks@.take(i as int) =~= marks@);
    out
}

/// The test case that a found test of file `file` stands for.
pub open spec fn case_of(file: Seq<char>, f: FoundModel) -> TestCaseModel {
    TestCaseModel { file, class_path: f.class_path, name: f.name }
}

/// How a list of test cases is seen.
pub open spec fn cases_view(v: Seq<TestCase>) -> Seq<TestCaseModel> {
    v.map_values(|c: TestCase| c@)
}

/// The test cases of file `file` for the found tests, in order.
pub fn cases_from(file: &String, found: Vec<FoundTest>) -> (r: Vec<TestCase>)
    ensures
        cases_view(r@) == found_view(found@).map_values(|f: FoundModel| case_of(file@, f)),
{
    let ghost all = found@;
    assert(found@.len() == found.len());
    let mut rest = found;
    let mut out: Vec<TestCase> = Vec::new();
    let mut i: usize = 0;
    while rest.len() > 0
        invariant
            all.len() <= usize::MAX,
            i + rest@.len() == all.len(),
            rest@ == all.subrange(i as int, all.len() as int),
            cases_view(out@) == found_view(all.take(i as int)).map_values(
                |f: FoundModel| case_of(file@, f),
            ),
        decreases rest@.len(),
    {
        let f = rest.remove(0);
        assert(all[i as int] == f);
        let ghost before = out@;
        let c = TestCase { file: file.clone(), class_path: f.class_path, name: f.name };
        assert(c@ == case_of(file@, all[i as int]@));
        out.push(c);
        assert(found_view(all.take(i + 1)) =~= found_view(all.take(i as int)).push(all[i as int]@));
        assert(cases_view(out@) =~= cases_view(before).push(c@));
        assert(cases_view(out@) =~= found_view(all.take(i + 1)).map_values(
            |f: FoundModel| case_of(file@, f),
        ));
        i = i + 1;
        assert(rest@ =~= all.subrange(i as int, all.len() as int));
    }
    assert(all.take(i as int) =~= all);
    out
}

/// Why the tests of one file could not be read.
#[derive(Debug, PartialEq, Eq)]
pub enum FileError {
    /// The source could not be parsed.
    Parse(ParseError),
    /// The syntax tree could not be read for tests.
    Extract(ExtractError),
}

/// The tests of file `file`, whose bytes are `src`, in source order: those
/// that the visitor finds in the tree the Python grammar gives for it, and
/// with a filter only those whose definition's text the pattern matches.
/// Fails when there is no tree, when the visitor fails, or, with a filter,
/// when a definition is not text.
pub fn tests_in_file(file: &String, src: &Vec<u8>, filter: Option<&ContentFilter>) -> (r: Result<
    Vec<TestCase>,
    FileError,
>)
    ensures
        match python_syntax(src@) {
            None => r matches Err(FileError::Parse(_)),
            Some(root) => match tests_in_module(src@, root) {
                Err(e) => r == Err::<Vec<TestCase>, FileError>(FileError::Extract(e)),
                Ok(fs) => match filter {
                    None => r matches Ok(cases) && cases_view(cases@) == fs.map_values(
                        |f: FoundModel| case_of(file@, f),
                    ),
                    Some(flt) => if spans_are_text(src@, fs) {
                        r matches Ok(cases) && cases_view(cases@) == kept(
                            fs,
                            match_marks(src@, fs, flt.pattern()),
                        ).map_values(|f: FoundModel| case_of(file@, f))
                    } else {
                        r == Err::<Vec<TestCase>, FileError>(
                            FileError::Extract(ExtractError::InvalidText),
                        )
                    },
                },
            },
        },
{
    let root = match parse_python(src) {
        Ok(t) => t,
        Err(e) => return Err(FileError::Parse(e)),
    };
    proof {
        lemma_same_shape_same_tests(src@, root, python_syntax(src@)->0);
    }
    let found = match find_tests(src, &root) {
        Ok(f) => f,
        Err(e) => return Err(FileError::Extract(e)),
    };
    let kept_found = match filter {
        Some(flt) => {
            let marks = match flt.content_marks(src, &found) {
                Ok(m) => m,
                Err(e) => return Err(FileError::Extract(e)),
            };
            keep_marked(found, &marks)
        },
        None => found,
    };
    Ok(cases_from(file, kept_found))
}

} // verus!

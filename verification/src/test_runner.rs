//! The test engine's reporting types: per-test results and the run summary,
//! with their renderings, and deep value comparison for test assertions.

use vstd::prelude::*;
use vstd::string::StringExecFns;
use crate::decimal::usize_string;
use crate::floats;
use crate::ast::AstNode;

verus! {

/// The result of running a single test.
#[derive(Debug, Clone)]
pub struct TestResult {
    pub test_name: String,
    pub passed: bool,
    pub expected: String,
    pub actual: String,
    pub error_message: Option<String>,
}

impl TestResult {
    /// Render the result: a tick for a pass, a cross with the expected and
    /// actual values (and any error) for a failure.
    pub fn describe(&self) -> (r: String)
        ensures
            self.passed ==> r@ == "\u{2713} "@ + self.test_name@,
    {
        if self.passed {
            let mut out = "\u{2713} ".to_owned();
            out.append(self.test_name.as_str());
            out
        } else {
            let mut out = "\u{2717} ".to_owned();
            out.append(self.test_name.as_str());
            out.append("\n  Expected: ");
            out.append(self.expected.as_str());
            out.append("\n  Actual:   ");
            out.append(self.actual.as_str());
            match &self.error_message {
                Some(error) => {
                    out.append("\n  Error:    ");
                    out.append(error.as_str());
                },
                None => {},
            }
            out.append("\n");
            out
        }
    }
}

/// A summary of all test results.
#[derive(Debug, Clone)]
pub struct TestSummary {
    pub total: usize,
    pub passed: usize,
    pub failed: usize,
    pub results: Vec<TestResult>,
}

impl TestSummary {
    /// Render the summary: every result, the counts, and a final verdict.
    pub fn describe(&self) -> (r: String)
        ensures
            r@.len() > 0,
    {
        let mut out = "\nTest Results:\n".to_owned();
        proof {
            reveal_strlit("\nTest Results:\n");
        }
        let mut i: usize = 0;
        while i < self.results.len()
            invariant
                i <= self.results@.len(),
                out@.len() > 0,
            decreases self.results@.len() - i,
        {
            out.append(self.results[i].describe().as_str());
            out.append("\n");
            i = i + 1;
        }
        out.append("\nSummary: ");
        out.append(usize_string(self.passed).as_str());
        out.append(" passed, ");
        out.append(usize_string(self.failed).as_str());
        out.append(" failed, ");
        out.append(usize_string(self.total).as_str());
        out.append(" total\n");
        if self.failed > 0 {
            out.append("FAILED\n");
        } else {
            out.append("PASSED\n");
        }
        out
    }
}

/// A value a test evaluates to: the literal domain of the purely-literal
/// evaluator, with numbers carried as double bit patterns and objects as
/// key-value pairs.
#[derive(Debug)]
pub enum TestValue {
    Null,
    Boolean(bool),
    Number(u64),
    String(String),
    Array(Vec<TestValue>),
    Object(Vec<(String, TestValue)>),
}

/// Whether two numbers compare equal under the engine's tolerance: the
/// magnitude of their difference is below the double machine epsilon,
/// two to the power of minus fifty-two.
pub open spec fn tv_numbers_equal(a: u64, b: u64) -> bool {
    let d = floats::f64_sub_of(a, b);
    let m = if floats::f64_is_neg(d) { floats::f64_neg_bits(d) } else { d };
    floats::f64_lt(m, 0x3CB0_0000_0000_0000)
}

/// Deep structural equality over test values: arrays compare element-wise,
/// objects compare by looking each field of the first up by key in the
/// second (the first key match decides), and numbers compare within the
/// machine-epsilon tolerance.
pub open spec fn tv_equal(a: TestValue, b: TestValue) -> bool
    decreases a,
{
    match (a, b) {
        (TestValue::Null, TestValue::Null) => true,
        (TestValue::Boolean(x), TestValue::Boolean(y)) => x == y,
        (TestValue::Number(x), TestValue::Number(y)) => tv_numbers_equal(x, y),
        (TestValue::String(x), TestValue::String(y)) => x@ == y@,
        (TestValue::Array(xs), TestValue::Array(ys)) =>
            xs@.len() == ys@.len() && tv_lists_equal(xs@, ys@),
        (TestValue::Object(xs), TestValue::Object(ys)) =>
            xs@.len() == ys@.len() && tv_fields_matched(xs@, ys@),
        _ => false,
    }
}

/// Element-wise deep equality of two equally long runs of values.
pub open spec fn tv_lists_equal(xs: Seq<TestValue>, ys: Seq<TestValue>) -> bool
    decreases xs,
{
    xs.len() == 0 || (xs.len() == ys.len()
        && tv_lists_equal(xs.drop_last(), ys.drop_last())
        && tv_equal(xs.last(), ys.last()))
}

/// Every field of the first run is matched in the second.
pub open spec fn tv_fields_matched(
    xs: Seq<(String, TestValue)>,
    ys: Seq<(String, TestValue)>,
) -> bool
    decreases xs,
{
    xs.len() == 0 || (tv_fields_matched(xs.drop_last(), ys)
        && tv_field_matched(xs.last(), ys))
}

/// The first field of the run whose key equals the given field's key
/// exists and carries a deeply equal value.
pub open spec fn tv_field_matched(
    f: (String, TestValue),
    ys: Seq<(String, TestValue)>,
) -> bool
    decreases f,
{
    exists|j: int| 0 <= j < ys.len() && (#[trigger] ys[j]).0@ == f.0@
        && (forall|j2: int| 0 <= j2 < j ==> (#[trigger] ys[j2]).0@ != f.0@)
        && tv_equal(f.1, ys[j].1)
}

/// Element-wise equality of runs gives equality at each index.
proof fn lemma_tv_lists_equal_index(xs: Seq<TestValue>, ys: Seq<TestValue>, i: int)
    requires
        xs.len() == ys.len(),
        tv_lists_equal(xs, ys),
        0 <= i < xs.len(),
    ensures
        tv_equal(xs[i], ys[i]),
    decreases xs,
{
    if i < xs.len() - 1 {
        assert(xs.drop_last()[i] == xs[i]);
        assert(ys.drop_last()[i] == ys[i]);
        lemma_tv_lists_equal_index(xs.drop_last(), ys.drop_last(), i);
    }
}

/// A matched run of fields gives a match at each index.
proof fn lemma_tv_fields_matched_index(
    xs: Seq<(String, TestValue)>,
    ys: Seq<(String, TestValue)>,
    i: int,
)
    requires
        tv_fields_matched(xs, ys),
        0 <= i < xs.len(),
    ensures
        tv_field_matched(xs[i], ys),
    decreases xs,
{
    if i < xs.len() - 1 {
        assert(xs.drop_last()[i] == xs[i]);
        lemma_tv_fields_matched_index(xs.drop_last(), ys, i);
    }
}

/// Deep structural equality over test values: arrays compare element-wise,
/// objects compare field by field regardless of field order (the first key
/// match in the right-hand object decides), and numbers compare within
/// machine-epsilon tolerance.
pub fn values_equal(a: &TestValue, b: &TestValue) -> (r: bool)
    ensures
        r == tv_equal(*a, *b),
    decreases a,
{
    match (a, b) {
        (TestValue::Null, TestValue::Null) => true,
        (TestValue::Boolean(ba), TestValue::Boolean(bb)) => *ba == *bb,
        (TestValue::Number(na), TestValue::Number(nb)) => {
            // |na - nb| < machine epsilon
            let difference = floats::f64_sub(*na, *nb);
            let magnitude = if floats::f64_is_neg_exec(difference) {
                floats::f64_neg_exec(difference)
            } else {
                difference
            };
            floats::f64_lt_exec(magnitude, 0x3CB0_0000_0000_0000)
        },
        (TestValue::String(sa), TestValue::String(sb)) => crate::interpreter::str_eq(
            sa.as_str(), sb.as_str()),
        (TestValue::Array(ae), TestValue::Array(be)) => {
            if ae.len() != be.len() {
                return false;
            }
            let mut i: usize = 0;
            while i < ae.len()
                invariant
                    i <= ae@.len(),
                    ae@.len() == be@.len(),
                    (*a == TestValue::Array(*ae)),
                    (*b == TestValue::Array(*be)),
                    tv_lists_equal(ae@.take(i as int), be@.take(i as int)),
                decreases ae@.len() - i,
            {
                proof {
                    assert(decreases_to!(*a => ae@[i as int])) by {
                        assert(decreases_to!(*a => a->Array_0));
                        assert(a->Array_0 == *ae);
                        assert(decreases_to!(*ae => ae@));
                        assert(decreases_to!(ae@ => ae@[i as int]));
                    }
                }
                if !values_equal(&ae[i], &be[i]) {
                    proof {
                        if tv_equal(*a, *b) {
                            lemma_tv_lists_equal_index(ae@, be@, i as int);
                        }
                    }
                    return false;
                }
                proof {
                    assert(ae@.take(i as int + 1).drop_last() =~= ae@.take(i as int));
                    assert(be@.take(i as int + 1).drop_last() =~= be@.take(i as int));
                    assert(ae@.take(i as int + 1).last() == ae@[i as int]);
                    assert(be@.take(i as int + 1).last() == be@[i as int]);
                }
                i = i + 1;
            }
            proof {
                assert(ae@.take(ae@.len() as int) =~= ae@);
                assert(be@.take(be@.len() as int) =~= be@);
            }
            true
        },
        (TestValue::Object(ao), TestValue::Object(bo)) => {
            if ao.len() != bo.len() {
                return false;
            }
            let mut i: usize = 0;
            while i < ao.len()
                invariant
                    i <= ao@.len(),
                    ao@.len() == bo@.len(),
                    (*a == TestValue::Object(*ao)),
                    (*b == TestValue::Object(*bo)),
                    tv_fields_matched(ao@.take(i as int), bo@),
                decreases ao@.len() - i,
            {
                proof {
                    assert(decreases_to!(*a => ao@[i as int])) by {
                        assert(decreases_to!(*a => a->Object_0));
                        assert(a->Object_0 == *ao);
                        assert(decreases_to!(*ao => ao@));
                        assert(decreases_to!(ao@ => ao@[i as int]));
                    }
                }
                if !field_matched_exec(&ao[i], bo) {
                    proof {
                        if tv_equal(*a, *b) {
                            lemma_tv_fields_matched_index(ao@, bo@, i as int);
                        }
                    }
                    return false;
                }
                proof {
                    assert(ao@.take(i as int + 1).drop_last() =~= ao@.take(i as int));
                    assert(ao@.take(i as int + 1).last() == ao@[i as int]);
                }
                i = i + 1;
            }
            proof {
                assert(ao@.take(ao@.len() as int) =~= ao@);
            }
            true
        },
        _ => false,
    }
}

/// Scan the fields for the first whose key equals the given field's key,
/// and compare the values there; no key match is a mismatch.
fn field_matched_exec(f: &(String, TestValue), ys: &Vec<(String, TestValue)>) -> (r: bool)
    ensures
        r == tv_field_matched(*f, ys@),
    decreases f,
{
    let mut j: usize = 0;
    while j < ys.len()
        invariant
            j <= ys@.len(),
            forall|j2: int| 0 <= j2 < j ==> (#[trigger] ys@[j2]).0@ != f.0@,
        decreases ys@.len() - j,
    {
        if crate::interpreter::str_eq(ys[j].0.as_str(), f.0.as_str()) {
            proof {
                assert(decreases_to!(*f => f.1));
            }
            let eq = values_equal(&f.1, &ys[j].1);
            proof {
                if eq {
                    assert(0 <= j < ys@.len() && (#[trigger] ys@[j as int]).0@ == f.0@
                        && (forall|j2: int| 0 <= j2 < j
                            ==> (#[trigger] ys@[j2]).0@ != f.0@)
                        && tv_equal(f.1, ys@[j as int].1));
                    assert(tv_field_matched(*f, ys@));
                } else {
                    if tv_field_matched(*f, ys@) {
                        let jw = choose|jw: int| 0 <= jw < ys@.len()
                            && (#[trigger] ys@[jw]).0@ == f.0@
                            && (forall|j2: int| 0 <= j2 < jw
                                ==> (#[trigger] ys@[j2]).0@ != f.0@)
                            && tv_equal(f.1, ys@[jw].1);
                        if jw < (j as int) {
                            assert(ys@[jw].0@ != f.0@);
                        } else if (j as int) < jw {
                            assert(ys@[j as int].0@ != f.0@);
                        }
                        assert(false);
                    }
                }
            }
            return eq;
        }
        j = j + 1;
    }
    proof {
        if tv_field_matched(*f, ys@) {
            let jw = choose|jw: int| 0 <= jw < ys@.len()
                && (#[trigger] ys@[jw]).0@ == f.0@
                && (forall|j2: int| 0 <= j2 < jw
                    ==> (#[trigger] ys@[j2]).0@ != f.0@)
                && tv_equal(f.1, ys@[jw].1);
            assert(false);
        }
    }
    false
}

/// The test execution engine that runs tests against analyzed programs.
pub struct TestRunner {
    pub verbose: bool,
}

impl TestRunner {
    /// A runner, verbose or quiet.
    pub fn new(verbose: bool) -> (r: Self)
        ensures
            r.verbose == verbose,
    {
        TestRunner { verbose }
    }

    /// Run every recorded test against the analyzed program: each test is
    /// evaluated and compared on its own, and the summary holds one result
    /// per test, in order, with the pass and fail counts.
    pub fn run_tests(&self, analyzed: &crate::analyzer::AnalyzedProgram) -> (r: TestSummary)
        ensures
            r.total == analyzed.tests@.len(),
            r.results@.len() == analyzed.tests@.len(),
            r.passed == count_passed(r.results@),
            r.failed == r.total - r.passed,
            forall|i: int| 0 <= i < r.results@.len()
                ==> (#[trigger] r.results@[i]).test_name@ == analyzed.tests@[i].name@,
            forall|i: int| 0 <= i < r.results@.len()
                && (#[trigger] r.results@[i]).error_message is None
                ==> exists|ve: TestValue, va: TestValue|
                    #[trigger] eval_rel(analyzed.tests@[i].expected_output,
                        analyzed.symbol_table.symbols@,
                        analyzed.symbol_table.symbols@.len() as nat, ve)
                    && #[trigger] eval_rel(analyzed.tests@[i].expect_expression,
                        analyzed.symbol_table.symbols@,
                        analyzed.symbol_table.symbols@.len() as nat, va)
                    && (if analyzed.tests@[i].is_regex {
                        regex_valid_of(tv_string_of(ve))
                            && r.results@[i].passed
                                == regex_match_of(tv_string_of(ve), tv_string_of(va))
                    } else {
                        r.results@[i].passed == tv_equal(ve, va)
                    }),
    {
        let total = analyzed.tests.len();
        let mut line = "Found ".to_owned();
        line.append(usize_string(total).as_str());
        line.append(" test(s) in analyzed program");
        crate::interpreter::print_line(line.as_str());
        let mut results: Vec<TestResult> = Vec::new();
        let mut passed: usize = 0;
        let mut failed: usize = 0;
        let mut i: usize = 0;
        while i < total
            invariant
                i <= total,
                total == analyzed.tests@.len(),
                results@.len() == i,
                passed <= i,
                passed == count_passed(results@),
                failed == i - passed,
                forall|j: int| 0 <= j < results@.len()
                    ==> (#[trigger] results@[j]).test_name@ == analyzed.tests@[j].name@,
                forall|j: int| 0 <= j < results@.len()
                    && (#[trigger] results@[j]).error_message is None
                    ==> exists|ve: TestValue, va: TestValue|
                        #[trigger] eval_rel(analyzed.tests@[j].expected_output,
                            analyzed.symbol_table.symbols@,
                            analyzed.symbol_table.symbols@.len() as nat, ve)
                        && #[trigger] eval_rel(analyzed.tests@[j].expect_expression,
                            analyzed.symbol_table.symbols@,
                            analyzed.symbol_table.symbols@.len() as nat, va)
                        && (if analyzed.tests@[j].is_regex {
                            regex_valid_of(tv_string_of(ve))
                                && results@[j].passed
                                    == regex_match_of(tv_string_of(ve), tv_string_of(va))
                        } else {
                            results@[j].passed == tv_equal(ve, va)
                        }),
            decreases total - i,
        {
            if self.verbose {
                let mut note = "Running test: ".to_owned();
                note.append(analyzed.tests[i].name.as_str());
                crate::interpreter::print_line(note.as_str());
            }
            let result = self.run_single_test(&analyzed.tests[i], analyzed);
            let ghost pre = results@;
            if result.passed {
                passed = passed + 1;
            } else {
                failed = failed + 1;
            }
            results.push(result);
            proof {
                assert(results@.drop_last() =~= pre);
                assert(count_passed(results@)
                    == count_passed(pre)
                        + if results@.last().passed { 1int } else { 0int });
            }
            i = i + 1;
        }
        TestSummary { total, passed, failed, results }
    }

    /// Run one test: evaluate the expected output and the expectation
    /// expression, then compare them, textually through the recorded
    /// regular expression when the test asks for that, by deep value
    /// equality otherwise. Every outcome reports under the test's name.
    pub fn run_single_test(
        &self,
        test: &crate::analyzer::TestInfo,
        analyzed: &crate::analyzer::AnalyzedProgram,
    ) -> (r: TestResult)
        ensures
            r.test_name@ == test.name@,
            r.error_message is Some ==> !r.passed,
            r.error_message is None ==> exists|ve: TestValue, va: TestValue|
                #[trigger] eval_rel(test.expected_output, analyzed.symbol_table.symbols@,
                    analyzed.symbol_table.symbols@.len() as nat, ve)
                && #[trigger] eval_rel(test.expect_expression,
                    analyzed.symbol_table.symbols@,
                    analyzed.symbol_table.symbols@.len() as nat, va)
                && (if test.is_regex {
                    regex_valid_of(tv_string_of(ve))
                        && r.passed == regex_match_of(tv_string_of(ve), tv_string_of(va))
                } else {
                    r.passed == tv_equal(ve, va)
                }),
    {
        let expected_value = match self.evaluate_ast_node(&test.expected_output, analyzed) {
            Ok(value) => value,
            Err(error) => {
                let mut message = "Failed to evaluate expected output: ".to_owned();
                message.append(error.as_str());
                return TestResult {
                    test_name: test.name.clone(),
                    passed: false,
                    expected: String::new(),
                    actual: String::new(),
                    error_message: Some(message),
                };
            },
        };
        let actual_value = match self.evaluate_ast_node(&test.expect_expression, analyzed) {
            Ok(value) => value,
            Err(error) => {
                let mut message = "Failed to evaluate expect expression: ".to_owned();
                message.append(error.as_str());
                return TestResult {
                    test_name: test.name.clone(),
                    passed: false,
                    expected: value_to_string(&expected_value),
                    actual: String::new(),
                    error_message: Some(message),
                };
            },
        };
        let passed = match test_passes(&expected_value, &actual_value, test.is_regex) {
            Ok(b) => b,
            Err(error) => {
                let mut message = "Invalid regex pattern: ".to_owned();
                message.append(error.as_str());
                return TestResult {
                    test_name: test.name.clone(),
                    passed: false,
                    expected: value_to_string(&expected_value),
                    actual: value_to_string(&actual_value),
                    error_message: Some(message),
                };
            },
        };
        TestResult {
            test_name: test.name.clone(),
            passed,
            expected: value_to_string(&expected_value),
            actual: value_to_string(&actual_value),
            error_message: None,
        }
    }

    /// Evaluate a literal expression to a test value: literals map to
    /// themselves, arrays and objects evaluate their parts, an identifier
    /// evaluates the expression recorded for the symbol it names, and
    /// member access projects an object field. Anything else is an error.
    pub fn evaluate_ast_node(
        &self,
        node: &AstNode,
        analyzed: &crate::analyzer::AnalyzedProgram,
    ) -> (r: Result<TestValue, String>)
        ensures
            node matches AstNode::String(s)
                ==> (r matches Result::Ok(v)
                    ==> (v matches TestValue::String(s2) && s2@ == s@)),
            node matches AstNode::String(_) ==> r is Ok,
            node matches AstNode::Number(n)
                ==> r == Result::<TestValue, String>::Ok(TestValue::Number(*n)),
            node matches AstNode::Boolean(b)
                ==> r == Result::<TestValue, String>::Ok(TestValue::Boolean(*b)),
            node is Null ==> r == Result::<TestValue, String>::Ok(TestValue::Null),
            (node matches AstNode::Identifier(name)
                && !analyzed.symbol_table.spec_has(name@)) ==> r is Err,
            r matches Result::Ok(v) ==> eval_rel(*node, analyzed.symbol_table.symbols@,
                analyzed.symbol_table.symbols@.len() as nat, v),
    {
        let depth = analyzed.symbol_table.symbols.len() as u64;
        eval_node(node, analyzed, depth)
    }
}

/// The rendering of a test value: literals as their text, arrays in
/// brackets and objects in braces, the parts joined by comma-space, an
/// object field as its key, a colon and a space, and its value.
pub open spec fn tv_string_of(v: TestValue) -> Seq<char>
    decreases v,
{
    match v {
        TestValue::Null => "null"@,
        TestValue::Boolean(b) => if b { "true"@ } else { "false"@ },
        TestValue::Number(n) => floats::f64_string_of(n),
        TestValue::String(s) => s@,
        TestValue::Array(items) => "["@ + tv_items_string_of(items@) + "]"@,
        TestValue::Object(fields) => "{"@ + tv_fields_string_of(fields@) + "}"@,
    }
}

/// The renderings of a run of values, joined by comma-space.
pub open spec fn tv_items_string_of(items: Seq<TestValue>) -> Seq<char>
    decreases items,
{
    if items.len() == 0 {
        Seq::empty()
    } else if items.len() == 1 {
        tv_string_of(items.last())
    } else {
        tv_items_string_of(items.drop_last()) + ", "@ + tv_string_of(items.last())
    }
}

/// The renderings of a run of fields, joined by comma-space.
pub open spec fn tv_fields_string_of(fields: Seq<(String, TestValue)>) -> Seq<char>
    decreases fields,
{
    if fields.len() == 0 {
        Seq::empty()
    } else if fields.len() == 1 {
        fields.last().0@ + ": "@ + tv_string_of(fields.last().1)
    } else {
        tv_fields_string_of(fields.drop_last()) + ", "@ + fields.last().0@ + ": "@
            + tv_string_of(fields.last().1)
    }
}

/// Render a test value as the reports show it.
pub fn value_to_string(value: &TestValue) -> (r: String)
    ensures
        r@ == tv_string_of(*value),
    decreases value,
{
    match value {
        TestValue::Null => {
            proof { reveal_strlit("null"); }
            "null".to_owned()
        },
        TestValue::Boolean(b) => {
            proof {
                reveal_strlit("true");
                reveal_strlit("false");
            }
            if *b { "true".to_owned() } else { "false".to_owned() }
        },
        TestValue::Number(n) => floats::f64_string(*n),
        TestValue::String(s) => s.clone(),
        TestValue::Array(items) => {
            proof { reveal_strlit("["); }
            let mut out = "[".to_owned();
            let mut i: usize = 0;
            while i < items.len()
                invariant
                    i <= items@.len(),
                    (*value == TestValue::Array(*items)),
                    out@ == "["@ + tv_items_string_of(items@.take(i as int)),
                decreases items@.len() - i,
            {
                if i > 0 {
                    proof { reveal_strlit(", "); }
                    out.append(", ");
                }
                proof {
                    assert(decreases_to!(*value => items@[i as int])) by {
                        assert(decreases_to!(*value => value->Array_0));
                        assert(value->Array_0 == *items);
                        assert(decreases_to!(*items => items@));
                        assert(decreases_to!(items@ => items@[i as int]));
                    }
                }
                let piece = value_to_string(&items[i]);
                out.append(piece.as_str());
                proof {
                    assert(items@.take(i as int + 1).drop_last() =~= items@.take(i as int));
                    assert(items@.take(i as int + 1).last() == items@[i as int]);
                }
                i = i + 1;
            }
            proof {
                reveal_strlit("]");
                assert(items@.take(items@.len() as int) =~= items@);
            }
            out.append("]");
            out
        },
        TestValue::Object(fields) => {
            proof { reveal_strlit("{"); }
            let mut out = "{".to_owned();
            let mut i: usize = 0;
            while i < fields.len()
                invariant
                    i <= fields@.len(),
                    (*value == TestValue::Object(*fields)),
                    out@ == "{"@ + tv_fields_string_of(fields@.take(i as int)),
                decreases fields@.len() - i,
            {
                if i > 0 {
                    proof { reveal_strlit(", "); }
                    out.append(", ");
                }
                proof {
                    assert(decreases_to!(*value => fields@[i as int].1)) by {
                        assert(decreases_to!(*value => value->Object_0));
                        assert(value->Object_0 == *fields);
                        assert(decreases_to!(*fields => fields@));
                        assert(decreases_to!(fields@ => fields@[i as int]));
                        assert(decreases_to!(fields@[i as int] => fields@[i as int].1));
                    }
                }
                proof { reveal_strlit(": "); }
                out.append(fields[i].0.as_str());
                out.append(": ");
                let piece = value_to_string(&fields[i].1);
                out.append(piece.as_str());
                proof {
                    assert(fields@.take(i as int + 1).drop_last() =~= fields@.take(i as int));
                    assert(fields@.take(i as int + 1).last() == fields@[i as int]);
                }
                i = i + 1;
            }
            proof {
                reveal_strlit("}");
                assert(fields@.take(fields@.len() as int) =~= fields@);
            }
            out.append("}");
            out
        },
    }
}

/// What a literal expression evaluates to: literals map to themselves,
/// arrays element-wise and objects field-wise in order, an identifier to
/// the value of the expression its symbol records (to at most the given
/// resolution depth), and member access to the value of the first field
/// carrying the key.
pub open spec fn eval_rel(
    node: AstNode,
    symbols: Seq<crate::analyzer::Symbol>,
    depth: nat,
    v: TestValue,
) -> bool
    decreases depth, node,
{
    match node {
        AstNode::String(s) => v matches TestValue::String(s2) && s2@ == s@,
        AstNode::Number(n) => v == TestValue::Number(n),
        AstNode::Boolean(b) => v == TestValue::Boolean(b),
        AstNode::Null => v == TestValue::Null,
        AstNode::Array { elements, .. } => v matches TestValue::Array(items)
            && items@.len() == elements@.len()
            && (forall|i: int| 0 <= i < elements@.len()
                ==> eval_rel(elements@[i], symbols, depth, #[trigger] items@[i])),
        AstNode::Object { fields, .. } => v matches TestValue::Object(pairs)
            && pairs@.len() == fields@.len()
            && (forall|i: int| 0 <= i < fields@.len()
                ==> (#[trigger] pairs@[i]).0@ == fields@[i].0@
                    && eval_rel(fields@[i].1, symbols, depth, pairs@[i].1)),
        AstNode::Identifier(name) => depth > 0
            && exists|j: int| 0 <= j < symbols.len()
                && (#[trigger] symbols[j]).name@ == name@
                && (symbols[j].ast_node matches Option::Some(expr)
                    && eval_rel(expr, symbols, (depth - 1) as nat, v)),
        AstNode::MemberAccess { object, property, .. } => exists|ov: TestValue|
            eval_rel(*object, symbols, depth, ov)
            && #[trigger] member_projects(ov, property@, v),
        _ => false,
    }
}

/// The first field of the object value carrying the key holds the
/// projected value.
pub open spec fn member_projects(ov: TestValue, key: Seq<char>, v: TestValue) -> bool {
    ov matches TestValue::Object(pairs)
    && exists|j: int| 0 <= j < pairs@.len()
        && (#[trigger] pairs@[j]).0@ == key
        && (forall|j2: int| 0 <= j2 < j
            ==> (#[trigger] pairs@[j2]).0@ != key)
        && v == pairs@[j].1
}

/// Evaluate a literal expression, resolving identifiers through the
/// symbol table to at most the given depth.
fn eval_node(
    node: &AstNode,
    analyzed: &crate::analyzer::AnalyzedProgram,
    depth: u64,
) -> (r: Result<TestValue, String>)
    ensures
        node matches AstNode::String(s)
            ==> (r matches Result::Ok(v)
                ==> (v matches TestValue::String(s2) && s2@ == s@)),
        node matches AstNode::String(_) ==> r is Ok,
        node matches AstNode::Number(n)
            ==> r == Result::<TestValue, String>::Ok(TestValue::Number(*n)),
        node matches AstNode::Boolean(b)
            ==> r == Result::<TestValue, String>::Ok(TestValue::Boolean(*b)),
        node is Null ==> r == Result::<TestValue, String>::Ok(TestValue::Null),
        (node matches AstNode::Identifier(name)
            && !analyzed.symbol_table.spec_has(name@)) ==> r is Err,
        r matches Result::Ok(v)
            ==> eval_rel(*node, analyzed.symbol_table.symbols@, depth as nat, v),
    decreases depth, node,
{
    match node {
        AstNode::String(s) => Ok(TestValue::String(s.clone())),
        AstNode::Number(n) => Ok(TestValue::Number(*n)),
        AstNode::Boolean(b) => Ok(TestValue::Boolean(*b)),
        AstNode::Null => Ok(TestValue::Null),
        AstNode::Array { elements, .. } => {
            let mut values: Vec<TestValue> = Vec::new();
            let mut i: usize = 0;
            while i < elements.len()
                invariant
                    i <= elements@.len(),
                    values@.len() == i,
                    (*node == AstNode::Array { elements: *elements, line: node->Array_line }),
                    forall|q: int| 0 <= q < i ==> eval_rel(elements@[q],
                        analyzed.symbol_table.symbols@, depth as nat,
                        #[trigger] values@[q]),
                decreases elements@.len() - i,
            {
                proof {
                    assert(decreases_to!(*node => elements@[i as int])) by {
                        assert(decreases_to!(*node => node->Array_elements));
                        assert(node->Array_elements == *elements);
                        assert(decreases_to!(*elements => elements@));
                        assert(decreases_to!(elements@ => elements@[i as int]));
                    }
                }
                match eval_node(&elements[i], analyzed, depth) {
                    Ok(v) => values.push(v),
                    Err(e) => { return Err(e); },
                }
                i = i + 1;
            }
            proof {
                assert(eval_rel(*node, analyzed.symbol_table.symbols@, depth as nat,
                    TestValue::Array(values)));
            }
            Ok(TestValue::Array(values))
        },
        AstNode::Object { fields, .. } => {
            let mut object: Vec<(String, TestValue)> = Vec::new();
            let mut i: usize = 0;
            while i < fields.len()
                invariant
                    i <= fields@.len(),
                    object@.len() == i,
                    (*node == AstNode::Object { fields: *fields, line: node->Object_line }),
                    forall|q: int| 0 <= q < i ==> (#[trigger] object@[q]).0@ == fields@[q].0@
                        && eval_rel(fields@[q].1, analyzed.symbol_table.symbols@,
                            depth as nat, object@[q].1),
                decreases fields@.len() - i,
            {
                proof {
                    assert(decreases_to!(*node => fields@[i as int].1)) by {
                        assert(decreases_to!(*node => node->Object_fields));
                        assert(node->Object_fields == *fields);
                        assert(decreases_to!(*fields => fields@));
                        assert(decreases_to!(fields@ => fields@[i as int]));
                        assert(decreases_to!(fields@[i as int] => fields@[i as int].1));
                    }
                }
                let key = fields[i].0.clone();
                match eval_node(&fields[i].1, analyzed, depth) {
                    Ok(v) => object.push((key, v)),
                    Err(e) => { return Err(e); },
                }
                i = i + 1;
            }
            proof {
                assert(eval_rel(*node, analyzed.symbol_table.symbols@, depth as nat,
                    TestValue::Object(object)));
            }
            Ok(TestValue::Object(object))
        },
        AstNode::Identifier(name) => {
            match analyzed.symbol_table.get_symbol(name.as_str()) {
                Some(symbol) => match &symbol.ast_node {
                    Some(expression) => {
                        if depth == 0 {
                            return Err("Symbol resolution exceeded the table depth".to_owned());
                        }
                        let result = eval_node(expression, analyzed, depth - 1);
                        proof {
                            if result is Ok {
                                let j = choose|j: int| 0 <= j
                                    < analyzed.symbol_table.symbols@.len()
                                    && analyzed.symbol_table.symbols@[j] == *symbol;
                                assert(analyzed.symbol_table.symbols@[j].name@ == name@);
                                assert(analyzed.symbol_table.symbols@[j].ast_node
                                    == Option::Some(*expression));
                                assert(eval_rel(*node, analyzed.symbol_table.symbols@,
                                    depth as nat, result->Ok_0));
                            }
                        }
                        result
                    },
                    None => {
                        let mut message = "Symbol '".to_owned();
                        message.append(name.as_str());
                        message.append("' has no recorded expression");
                        Err(message)
                    },
                },
                None => {
                    let mut message = "Undefined symbol '".to_owned();
                    message.append(name.as_str());
                    message.append("'");
                    Err(message)
                },
            }
        },
        AstNode::MemberAccess { object, property, .. } => {
            let object_value = match eval_node(object, analyzed, depth) {
                Ok(v) => v,
                Err(e) => { return Err(e); },
            };
            let ghost ov = object_value;
            match object_value {
                TestValue::Object(mut object_fields) => {
                    let ghost fields0 = object_fields@;
                    let mut i: usize = 0;
                    let count = object_fields.len();
                    while i < count
                        invariant
                            i <= count,
                            count == object_fields@.len(),
                            node is MemberAccess,
                            *property == node->MemberAccess_property,
                            object_fields@ == fields0,
                            ov == TestValue::Object(object_fields),
                            eval_rel(*(node->MemberAccess_object),
                                analyzed.symbol_table.symbols@, depth as nat, ov),
                            forall|j2: int| 0 <= j2 < i
                                ==> (#[trigger] fields0[j2]).0@ != node->MemberAccess_property@,
                        decreases count - i,
                    {
                        if crate::interpreter::str_eq(
                            object_fields[i].0.as_str(), property.as_str()) {
                            let (_, found) = object_fields.remove(i);
                            proof {
                                assert(found == fields0[i as int].1);
                                assert(fields0[i as int].0@ == property@);
                                let pairs0 = ov->Object_0;
                                assert(pairs0@ == fields0);
                                assert((i as int) < pairs0@.len());
                                assert((pairs0@[i as int]).0@
                                    == node->MemberAccess_property@);
                                assert(forall|j2: int| 0 <= j2 < i as int
                                    ==> (#[trigger] pairs0@[j2]).0@
                                        != node->MemberAccess_property@);
                                assert(found == pairs0@[i as int].1);
                                assert(eval_rel(*(node->MemberAccess_object),
                                    analyzed.symbol_table.symbols@, depth as nat, ov));
                                assert(exists|j: int| 0 <= j < pairs0@.len()
                                    && (#[trigger] pairs0@[j]).0@
                                        == node->MemberAccess_property@
                                    && (forall|j2: int| 0 <= j2 < j
                                        ==> (#[trigger] pairs0@[j2]).0@
                                            != node->MemberAccess_property@)
                                    && found == pairs0@[j].1);
                                assert(member_projects(ov, node->MemberAccess_property@,
                                    found));
                                assert(eval_rel(*node, analyzed.symbol_table.symbols@,
                                    depth as nat, found));
                            }
                            return Ok(found);
                        }
                        i = i + 1;
                    }
                    let mut message = "Property '".to_owned();
                    message.append(property.as_str());
                    message.append("' not found in object");
                    Err(message)
                },
                _ => {
                    let mut message = "Cannot access property '".to_owned();
                    message.append(property.as_str());
                    message.append("' on non-object value");
                    Err(message)
                },
            }
        },
        _ => Err("Cannot evaluate this expression form".to_owned()),
    }
}

/// How many results in the run are marked as passed.
pub open spec fn count_passed(results: Seq<TestResult>) -> int
    decreases results,
{
    if results.len() == 0 {
        0
    } else {
        count_passed(results.drop_last()) + if results.last().passed { 1int } else { 0int }
    }
}

/// Whether the pattern is a regular expression the engine accepts; a
/// function of the pattern alone.
pub uninterp spec fn regex_valid_of(pattern: Seq<char>) -> bool;

/// Whether the pattern matches somewhere in the text; a function of the
/// pattern and the text alone.
pub uninterp spec fn regex_match_of(pattern: Seq<char>, text: Seq<char>) -> bool;

/// Relies on regex::Regex::new and regex::Regex::is_match: whether a
/// pattern compiles depends on the pattern alone, and whether a compiled
/// pattern matches a text depends on the pattern and the text alone.
#[verifier::external_body]
fn regex_is_match(pattern: &str, text: &str) -> (r: Result<bool, String>)
    ensures
        match r {
            Result::Ok(b) => regex_valid_of(pattern@)
                && b == regex_match_of(pattern@, text@),
            Result::Err(_) => !regex_valid_of(pattern@),
        },
{
    match regex::Regex::new(pattern) {
        Ok(re) => Ok(re.is_match(text)),
        Err(e) => Err(e.to_string()),
    }
}

/// The verdict of one comparison: deep value equality for a plain test,
/// and a regular-expression match of the rendered values for a regex test,
/// whose error is exactly an expected rendering that is no valid pattern.
pub fn test_passes(expected: &TestValue, actual: &TestValue, is_regex: bool)
    -> (r: Result<bool, String>)
    ensures
        !is_regex ==> r == Result::<bool, String>::Ok(tv_equal(*expected, *actual)),
        is_regex ==> (match r {
            Result::Ok(b) => regex_valid_of(tv_string_of(*expected))
                && b == regex_match_of(tv_string_of(*expected), tv_string_of(*actual)),
            Result::Err(_) => !regex_valid_of(tv_string_of(*expected)),
        }),
{
    if is_regex {
        let pattern = value_to_string(expected);
        let text = value_to_string(actual);
        regex_is_match(pattern.as_str(), text.as_str())
    } else {
        Ok(values_equal(expected, actual))
    }
}

/// Factory function for creating test runners.
pub fn create_test_runner(verbose: bool) -> (r: TestRunner)
    ensures
        r.verbose == verbose,
{
    TestRunner::new(verbose)
}

} // verus!

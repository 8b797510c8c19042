use loaf::analyzer::{AnalyzerError, SemanticAnalyzer, Type};
use loaf::ast::AstNode;
use loaf::codegen::{divide_values, CodeGenerator, GenInstruction, GenValue, IsolatedHeap, VirtualMachine};
use loaf::test_runner::{create_test_runner, test_passes, value_to_string, values_equal, TestValue};

fn analyze(nodes: Vec<AstNode>) -> loaf::analyzer::AnalyzedProgram {
    let mut analyzer = SemanticAnalyzer::new();
    analyzer.analyze(&AstNode::Program(nodes)).expect("analysis should succeed")
}

fn assignment(name: &str, value: AstNode) -> AstNode {
    AstNode::Assignment { name: name.to_string(), value: Box::new(value), line: 1 }
}

#[test]
fn evaluator_maps_literals_to_themselves() {
    let runner = create_test_runner(false);
    let analyzed = analyze(vec![]);
    assert!(matches!(
        runner.evaluate_ast_node(&AstNode::Number(2.5f64.to_bits()), &analyzed),
        Ok(TestValue::Number(n)) if n == 2.5f64.to_bits()
    ));
    assert!(matches!(
        runner.evaluate_ast_node(&AstNode::Boolean(true), &analyzed),
        Ok(TestValue::Boolean(true))
    ));
    assert!(matches!(
        runner.evaluate_ast_node(&AstNode::Null, &analyzed),
        Ok(TestValue::Null)
    ));
    match runner.evaluate_ast_node(&AstNode::String("hi".to_string()), &analyzed) {
        Ok(TestValue::String(s)) => assert_eq!(s, "hi"),
        other => panic!("unexpected: {:?}", other),
    }
}

#[test]
fn evaluator_resolves_identifiers_through_the_table() {
    let runner = create_test_runner(false);
    let analyzed = analyze(vec![assignment("x", AstNode::Number(7.0f64.to_bits()))]);
    match runner.evaluate_ast_node(&AstNode::Identifier("x".to_string()), &analyzed) {
        Ok(TestValue::Number(n)) => assert_eq!(n, 7.0f64.to_bits()),
        other => panic!("unexpected: {:?}", other),
    }
    assert!(runner
        .evaluate_ast_node(&AstNode::Identifier("missing".to_string()), &analyzed)
        .is_err());
}

#[test]
fn evaluator_projects_object_members() {
    let runner = create_test_runner(false);
    let analyzed = analyze(vec![]);
    let object = AstNode::Object {
        fields: vec![
            ("a".to_string(), AstNode::Number(1.0f64.to_bits())),
            ("b".to_string(), AstNode::String("two".to_string())),
        ],
        line: 1,
    };
    let access = AstNode::MemberAccess {
        object: Box::new(object),
        property: "b".to_string(),
        line: 1,
    };
    match runner.evaluate_ast_node(&access, &analyzed) {
        Ok(TestValue::String(s)) => assert_eq!(s, "two"),
        other => panic!("unexpected: {:?}", other),
    }
}

#[test]
fn value_rendering_matches_report_shape() {
    let value = TestValue::Array(vec![
        TestValue::Number(1.0f64.to_bits()),
        TestValue::String("x".to_string()),
        TestValue::Object(vec![("k".to_string(), TestValue::Boolean(true))]),
    ]);
    assert_eq!(value_to_string(&value), "[1, x, {k: true}]");
    assert_eq!(value_to_string(&TestValue::Null), "null");
}

#[test]
fn test_passes_uses_regex_when_asked() {
    let expected = TestValue::String("^he.*o$".to_string());
    let actual = TestValue::String("hello".to_string());
    assert_eq!(test_passes(&expected, &actual, true), Ok(true));
    let wrong = TestValue::String("goodbye".to_string());
    assert_eq!(test_passes(&expected, &wrong, true), Ok(false));
    let bad_pattern = TestValue::String("(".to_string());
    assert!(test_passes(&bad_pattern, &actual, true).is_err());
    assert_eq!(test_passes(&actual, &actual, false), Ok(true));
}

#[test]
fn deep_equality_ignores_object_field_order() {
    let left = TestValue::Object(vec![
        ("a".to_string(), TestValue::Number(1.0f64.to_bits())),
        ("b".to_string(), TestValue::Number(2.0f64.to_bits())),
    ]);
    let right = TestValue::Object(vec![
        ("b".to_string(), TestValue::Number(2.0f64.to_bits())),
        ("a".to_string(), TestValue::Number(1.0f64.to_bits())),
    ]);
    assert!(values_equal(&left, &right));
    let other = TestValue::Object(vec![
        ("a".to_string(), TestValue::Number(1.0f64.to_bits())),
        ("b".to_string(), TestValue::Number(3.0f64.to_bits())),
    ]);
    assert!(!values_equal(&left, &other));
}

#[test]
fn run_tests_counts_results_per_test() {
    let runner = create_test_runner(false);
    let analyzed = analyze(vec![AstNode::Test {
        name: "adds up".to_string(),
        expect_expression: Box::new(AstNode::Number(3.0f64.to_bits())),
        inputs: vec![],
        expected_output: Box::new(AstNode::Number(3.0f64.to_bits())),
        is_regex: false,
        line: 1,
    }]);
    let summary = runner.run_tests(&analyzed);
    assert_eq!(summary.total, 1);
    assert_eq!(summary.passed, 1);
    assert_eq!(summary.failed, 0);
    assert_eq!(summary.results.len(), 1);
    assert_eq!(summary.results[0].test_name, "adds up");
    assert!(summary.results[0].passed);
}

#[test]
fn codegen_compiles_assignments_in_order() {
    let analyzed = analyze(vec![
        assignment("a", AstNode::Number(1.0f64.to_bits())),
        assignment("b", AstNode::Identifier("a".to_string())),
    ]);
    let mut generator = CodeGenerator::new();
    let program = generator.generate(&analyzed).expect("generation should succeed");
    assert_eq!(program.entry_point, 0);
    assert_eq!(program.instructions.len(), 4);
    assert!(matches!(&program.instructions[1],
        GenInstruction::StoreVariable(name) if name == "a"));
    assert!(matches!(&program.instructions[3],
        GenInstruction::StoreVariable(name) if name == "b"));
}

#[test]
fn codegen_compiles_binary_expressions_postfix() {
    let analyzed = analyze(vec![]);
    let mut generator = CodeGenerator::new();
    let expr = AstNode::Binary {
        left: Box::new(AstNode::Number(1.0f64.to_bits())),
        operator: loaf::ast::BinaryOp::Add,
        right: Box::new(AstNode::Number(2.0f64.to_bits())),
        line: 1,
    };
    generator.generate_expression(&expr, &analyzed.symbol_table).unwrap();
    assert_eq!(generator.instructions.len(), 3);
    assert!(matches!(&generator.instructions[2], GenInstruction::Add));
}

#[test]
fn codegen_understands_string_annotations() {
    let analyzed = analyze(vec![]);
    let mut generator = CodeGenerator::new();
    generator
        .generate_expression(&AstNode::String("@promise:p1".to_string()),
            &analyzed.symbol_table)
        .unwrap();
    assert!(matches!(&generator.instructions[0],
        GenInstruction::CreatePromise(id) if id == "p1"));
    generator
        .generate_expression(&AstNode::String("@http:GET:http://x/y".to_string()),
            &analyzed.symbol_table)
        .unwrap();
    assert!(matches!(&generator.instructions[1],
        GenInstruction::CallHttp { method, url, body: None }
            if method == "GET" && url == "http://x/y"));
    generator
        .generate_expression(&AstNode::String("plain".to_string()), &analyzed.symbol_table)
        .unwrap();
    assert_eq!(generator.instructions.len(), 3);
}

#[test]
fn machine_runs_a_compiled_assignment_program() {
    let analyzed = {
        let mut analyzer = SemanticAnalyzer::new();
        analyzer
            .analyze(&AstNode::Program(vec![
                assignment("a", AstNode::Number(2.0f64.to_bits())),
                assignment(
                    "b",
                    AstNode::Binary {
                        left: Box::new(AstNode::Identifier("a".to_string())),
                        operator: loaf::ast::BinaryOp::Multiply,
                        right: Box::new(AstNode::Number(21.0f64.to_bits())),
                        line: 2,
                    },
                ),
            ]))
            .unwrap()
    };
    let mut generator = CodeGenerator::new();
    let program = generator.generate(&analyzed).unwrap();
    let machine = VirtualMachine::new(program);
    let mut heap = IsolatedHeap::new();
    machine.execute(0, &mut heap).unwrap();
    match heap.get_variable("b") {
        Some(GenValue::Number(bits)) => assert_eq!(f64::from_bits(*bits), 42.0),
        other => panic!("unexpected: {:?}", other),
    }
}

#[test]
fn machine_reports_stack_underflow_and_division_by_zero() {
    let mut heap = IsolatedHeap::new();
    assert!(heap.pop().is_err());
    let zero = GenValue::Number(0.0f64.to_bits());
    let one = GenValue::Number(1.0f64.to_bits());
    assert!(divide_values(&one, &zero).is_err());
    match divide_values(&one, &GenValue::Number(2.0f64.to_bits())) {
        Ok(GenValue::Number(bits)) => assert_eq!(f64::from_bits(bits), 0.5),
        other => panic!("unexpected: {:?}", other),
    }
}

#[test]
fn literal_record_orders_fields_without_dependencies() {
    let analyzed = analyze(vec![AstNode::Object {
        fields: vec![
            ("a".to_string(), AstNode::Number(1.0f64.to_bits())),
            ("b".to_string(), AstNode::Number(2.0f64.to_bits())),
            ("c".to_string(), AstNode::Number(3.0f64.to_bits())),
        ],
        line: 1,
    }]);
    let mut names: Vec<String> = analyzed
        .symbol_table
        .symbols
        .iter()
        .map(|s| s.name.clone())
        .collect();
    names.sort();
    assert_eq!(names, vec!["a", "b", "c"]);
    for symbol in &analyzed.symbol_table.symbols {
        assert!(symbol.dependencies.is_empty());
        assert!(symbol.is_resolved);
    }
    let mut order = analyzed.resolution_order.clone();
    order.sort();
    assert_eq!(order, vec!["a", "b", "c"]);
    assert!(analyzed.endpoints.is_empty());
    assert!(analyzed.tests.is_empty());
}

#[test]
fn promise_types_propagate_to_dependents() {
    let analyzed = analyze(vec![
        assignment(
            "user_data",
            AstNode::HttpCall {
                url: Box::new(AstNode::String("https://example/user".to_string())),
                method: loaf::ast::HttpMethod::Get,
                body: None,
                headers: None,
                line: 1,
            },
        ),
        assignment("welcome", AstNode::Identifier("user_data".to_string())),
    ]);
    let user_data = analyzed.symbol_table.get_symbol("user_data").unwrap();
    assert!(matches!(user_data.symbol_type, Type::Promise(Some(_))));
    let welcome = analyzed.symbol_table.get_symbol("welcome").unwrap();
    match &welcome.symbol_type {
        Type::Promise(Some(inner)) => assert!(matches!(**inner, Type::Any)),
        other => panic!("welcome should carry a promise type, got {:?}", other),
    }
}

#[test]
fn circular_dependencies_are_reported_with_the_cycle() {
    let mut analyzer = SemanticAnalyzer::new();
    let result = analyzer.analyze(&AstNode::Program(vec![
        assignment("a", AstNode::Identifier("b".to_string())),
        assignment("b", AstNode::Identifier("c".to_string())),
        assignment("c", AstNode::Identifier("a".to_string())),
    ]));
    match result {
        Err(AnalyzerError::CircularDependency(mut names)) => {
            names.sort();
            assert_eq!(names, vec!["a", "b", "c"]);
        }
        other => panic!("expected a circular-dependency error, got {:?}", other),
    }
}

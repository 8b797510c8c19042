use loaf::analyzer::{AnalyzerError, Symbol, SymbolTable, Type};
use loaf::test_runner::{TestResult, TestRunner, TestSummary, TestValue, create_test_runner,
    values_equal};

#[test]
fn test_type_display_formatting() {
    assert_eq!(Type::Number.describe(), "number");
    assert_eq!(Type::String.describe(), "string");
    assert_eq!(Type::Boolean.describe(), "boolean");
    assert_eq!(Type::Null.describe(), "null");
    assert_eq!(Type::Any.describe(), "any");

    let array_type = Type::Array(Box::new(Type::String));
    assert_eq!(array_type.describe(), "array<string>");

    let promise_type = Type::Promise(Some(Box::new(Type::Number)));
    assert_eq!(promise_type.describe(), "promise<number>");

    let promise_any = Type::Promise(None);
    assert_eq!(promise_any.describe(), "promise<any>");

    let object_type = Type::Object(Vec::new());
    assert_eq!(object_type.describe(), "object");
}

#[test]
fn test_error_types() {
    let circular_error = AnalyzerError::CircularDependency(vec!["a".to_string(), "b".to_string()]);
    assert!(matches!(circular_error, AnalyzerError::CircularDependency(_)));

    let undefined_error = AnalyzerError::UndefinedSymbol {
        name: "test".to_string(),
        line: 1,
    };
    assert!(matches!(undefined_error, AnalyzerError::UndefinedSymbol { .. }));

    let type_error = AnalyzerError::TypeError {
        expected: "number".to_string(),
        found: "string".to_string(),
        line: 1,
    };
    assert!(matches!(type_error, AnalyzerError::TypeError { .. }));

    let duplicate_error = AnalyzerError::DuplicateEndpoint {
        name: "test".to_string(),
        method: "GET".to_string(),
        path: "/test".to_string(),
        line: 1,
    };
    assert!(matches!(duplicate_error, AnalyzerError::DuplicateEndpoint { .. }));
}

#[test]
fn test_symbol_creation() {
    let symbol = Symbol::new("test_symbol".to_string(), Type::String, 42);

    assert_eq!(symbol.name, "test_symbol");
    assert_eq!(symbol.symbol_type, Type::String);
    assert_eq!(symbol.definition_line, 42);
    assert!(!symbol.is_resolved);
    assert!(symbol.dependencies.is_empty());
    assert!(symbol.dependents.is_empty());
    assert!(symbol.ast_node.is_none());
}

#[test]
fn test_symbol_table_operations() {
    let mut symbol_table = SymbolTable::new();

    // Test adding symbols
    let symbol1 = Symbol::new("test1".to_string(), Type::String, 1);
    let symbol2 = Symbol::new("test2".to_string(), Type::Number, 2);

    symbol_table.add_symbol(symbol1);
    symbol_table.add_symbol(symbol2);

    // Test retrieving symbols
    assert!(symbol_table.get_symbol("test1").is_some());
    assert!(symbol_table.get_symbol("test2").is_some());
    assert!(symbol_table.get_symbol("nonexistent").is_none());

    // Test dependencies
    symbol_table.add_dependency("test2", "test1");

    let test2_symbol = symbol_table.get_symbol("test2").unwrap();
    assert!(test2_symbol.dependencies.iter().any(|d| d == "test1"));

    let test1_symbol = symbol_table.get_symbol("test1").unwrap();
    assert!(test1_symbol.dependents.iter().any(|d| d == "test2"));
}

#[test]
fn symbol_replacement_keeps_the_later_field() {
    // When two objects share a key, the later field overwrites the earlier
    // one in the symbol table.
    let mut table = SymbolTable::new();
    table.add_symbol(Symbol::new("name".to_string(), Type::String, 3));
    table.add_symbol(Symbol::new("name".to_string(), Type::Number, 9));

    let found = table.get_symbol("name").unwrap();
    assert_eq!(found.symbol_type, Type::Number);
    assert_eq!(found.definition_line, 9);
    assert_eq!(table.symbols.len(), 1);
}

#[test]
fn test_runner_creation() {
    let runner = TestRunner::new(true);
    assert!(runner.verbose);

    let runner = TestRunner::new(false);
    assert!(!runner.verbose);
}

#[test]
fn test_create_test_runner() {
    let runner = create_test_runner(true);
    assert!(runner.verbose);
}

#[test]
fn test_test_summary_display() {
    let results = vec![
        TestResult {
            test_name: "test1".to_string(),
            passed: true,
            expected: "hello".to_string(),
            actual: "hello".to_string(),
            error_message: None,
        },
        TestResult {
            test_name: "test2".to_string(),
            passed: false,
            expected: "world".to_string(),
            actual: "foo".to_string(),
            error_message: None,
        },
    ];

    let summary = TestSummary {
        total: 2,
        passed: 1,
        failed: 1,
        results,
    };

    let output = summary.describe();
    assert!(output.contains("test1"));
    assert!(output.contains("test2"));
    assert!(output.contains("1 passed, 1 failed, 2 total"));
}

#[test]
fn deep_value_comparison() {
    // Numbers compare within machine-epsilon tolerance.
    assert!(values_equal(
        &TestValue::Number(42.0f64.to_bits()),
        &TestValue::Number(42.0f64.to_bits()),
    ));
    assert!(!values_equal(
        &TestValue::Number(42.0f64.to_bits()),
        &TestValue::Number(43.0f64.to_bits()),
    ));

    // Arrays compare element-wise.
    assert!(values_equal(
        &TestValue::Array(vec![TestValue::Boolean(true), TestValue::Null]),
        &TestValue::Array(vec![TestValue::Boolean(true), TestValue::Null]),
    ));
    assert!(!values_equal(
        &TestValue::Array(vec![TestValue::Boolean(true)]),
        &TestValue::Array(vec![TestValue::Boolean(false)]),
    ));

    // Objects compare by key, ignoring field order.
    let left = TestValue::Object(vec![
        ("a".to_string(), TestValue::Number(1.0f64.to_bits())),
        ("b".to_string(), TestValue::String("x".to_string())),
    ]);
    let right = TestValue::Object(vec![
        ("b".to_string(), TestValue::String("x".to_string())),
        ("a".to_string(), TestValue::Number(1.0f64.to_bits())),
    ]);
    assert!(values_equal(&left, &right));

    // Mixed kinds compare not equal.
    assert!(!values_equal(&TestValue::Null, &TestValue::Boolean(false)));
}

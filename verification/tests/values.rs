use loaf::references::ObjectReference;
use loaf::value::Value;

#[test]
fn test_value_null_display() {
    let value = Value::Null;
    assert_eq!(value.render(), "null");
}

#[test]
fn test_value_integer_display() {
    let value = Value::Integer(42);
    assert_eq!(value.render(), "42");

    let negative_value = Value::Integer(-123);
    assert_eq!(negative_value.render(), "-123");
}

#[test]
fn test_value_float_display() {
    let value = Value::Float(3.14f64.to_bits());
    assert_eq!(value.render(), "3.14");

    let negative_value = Value::Float((-2.718f64).to_bits());
    assert_eq!(negative_value.render(), "-2.718");
}

#[test]
fn test_value_boolean_display() {
    let true_value = Value::Boolean(true);
    let false_value = Value::Boolean(false);
    assert_eq!(true_value.render(), "true");
    assert_eq!(false_value.render(), "false");
}

#[test]
fn test_value_string_display() {
    let value = Value::String("hello world".to_string());
    assert_eq!(value.render(), "\"hello world\"");

    let empty_value = Value::String(String::new());
    assert_eq!(empty_value.render(), "\"\"");
}

#[test]
fn test_value_object_display() {
    let obj_ref = ObjectReference::new(1, 123);
    let value = Value::Object(obj_ref);
    let display = value.render();
    assert!(display.contains("<object:ref="));
    assert!(display.contains("123"));
}

#[test]
fn test_value_array_display() {
    let arr = vec![Value::Integer(1), Value::String("test".to_string()), Value::Boolean(true)];
    let value = Value::Array(arr);
    let display = value.render();
    assert_eq!(display, "[1, \"test\", true]");

    let empty_arr = Value::Array(vec![]);
    assert_eq!(empty_arr.render(), "[]");
}

#[test]
fn test_value_heap_id_display() {
    let value = Value::HeapId(42);
    assert_eq!(value.render(), "<heap:42>");
}

#[test]
fn test_value_program_counter_display() {
    let value = Value::ProgramCounter(100);
    assert_eq!(value.render(), "<pc:100>");
}

#[test]
fn test_value_exception_display() {
    let exc = Value::create_exception("TypeError", "Invalid operation");
    assert_eq!(exc.render(), "Exception: TypeError(Invalid operation)");
}

#[test]
fn test_value_create_exception() {
    let exc = Value::create_exception("NullPointerException", "Object is null");

    assert!(exc.is_exception());

    let exc_data = exc.as_exception().unwrap();
    assert_eq!(exc_data.exception_type, "NullPointerException");
    assert_eq!(exc_data.message, "Object is null");
    assert_eq!(exc_data.stack_trace.len(), 0);
}

#[test]
fn test_value_is_exception() {
    let exc = Value::create_exception("Error", "message");
    let int_val = Value::Integer(42);
    let str_val = Value::String("test".to_string());

    assert!(exc.is_exception());
    assert!(!int_val.is_exception());
    assert!(!str_val.is_exception());
}

#[test]
fn test_value_as_exception() {
    let exc = Value::create_exception("TestError", "test message");
    let int_val = Value::Integer(42);

    assert!(exc.as_exception().is_some());
    assert!(int_val.as_exception().is_none());

    let exc_data = exc.as_exception().unwrap();
    assert_eq!(exc_data.exception_type, "TestError");
    assert_eq!(exc_data.message, "test message");
}

#[test]
fn test_value_add_stack_frame() {
    let mut exc = Value::create_exception("Error", "message");
    let mut int_val = Value::Integer(42);

    exc.add_stack_frame(100, Some("main"));
    exc.add_stack_frame(200, None);

    // Adding stack frame to non-exception should do nothing
    int_val.add_stack_frame(50, Some("test"));

    let exc_data = exc.as_exception().unwrap();
    assert_eq!(exc_data.stack_trace.len(), 2);

    assert_eq!(exc_data.stack_trace[0].pc, 100);
    assert_eq!(exc_data.stack_trace[0].module, Some("main".to_string()));

    assert_eq!(exc_data.stack_trace[1].pc, 200);
    assert_eq!(exc_data.stack_trace[1].module, None);

    // int_val should not be modified
    assert!(!int_val.is_exception());
}

#[test]
fn test_value_is_truthy() {
    // Falsy values
    assert!(!Value::Null.is_truthy());
    assert!(!Value::Integer(0).is_truthy());
    assert!(!Value::Float(0.0f64.to_bits()).is_truthy());
    assert!(!Value::Float(f64::NAN.to_bits()).is_truthy());
    assert!(!Value::Boolean(false).is_truthy());
    assert!(!Value::String(String::new()).is_truthy());
    assert!(!Value::Array(vec![]).is_truthy());

    // Truthy values
    assert!(Value::Integer(1).is_truthy());
    assert!(Value::Integer(-1).is_truthy());
    assert!(Value::Float(1.0f64.to_bits()).is_truthy());
    assert!(Value::Float((-1.0f64).to_bits()).is_truthy());
    assert!(Value::Boolean(true).is_truthy());
    assert!(Value::String("hello".to_string()).is_truthy());
    assert!(Value::Array(vec![Value::Null]).is_truthy());
    assert!(Value::Object(ObjectReference::new(1, 100)).is_truthy());
    assert!(Value::HeapId(1).is_truthy());
    assert!(Value::ProgramCounter(0).is_truthy());
    assert!(Value::create_exception("Error", "message").is_truthy());
}

#[test]
fn test_value_as_integer() {
    assert_eq!(Value::Integer(42).as_integer().unwrap(), 42);
    assert_eq!(Value::Float(3.14f64.to_bits()).as_integer().unwrap(), 3);
    assert_eq!(Value::Boolean(true).as_integer().unwrap(), 1);
    assert_eq!(Value::Boolean(false).as_integer().unwrap(), 0);

    assert!(Value::String("test".to_string()).as_integer().is_err());
    assert!(Value::Null.as_integer().is_err());
}

#[test]
fn test_value_as_float() {
    assert_eq!(Value::Integer(42).as_float().unwrap(), 42.0f64.to_bits());
    assert_eq!(Value::Float(3.14f64.to_bits()).as_float().unwrap(), 3.14f64.to_bits());
    assert_eq!(Value::Boolean(true).as_float().unwrap(), 1.0f64.to_bits());
    assert_eq!(Value::Boolean(false).as_float().unwrap(), 0.0f64.to_bits());

    assert!(Value::String("test".to_string()).as_float().is_err());
    assert!(Value::Null.as_float().is_err());
}

#[test]
fn test_value_as_boolean() {
    assert_eq!(Value::Boolean(true).as_boolean().unwrap(), true);
    assert_eq!(Value::Boolean(false).as_boolean().unwrap(), false);
    assert_eq!(Value::Integer(1).as_boolean().unwrap(), true);
    assert_eq!(Value::Integer(0).as_boolean().unwrap(), false);
    assert_eq!(Value::String("test".to_string()).as_boolean().unwrap(), true);
    assert_eq!(Value::String(String::new()).as_boolean().unwrap(), false);
    assert_eq!(Value::Null.as_boolean().unwrap(), false);
}

#[test]
fn test_value_as_string() {
    assert_eq!(Value::String("hello".to_string()).as_string().unwrap(), "hello");

    assert!(Value::Integer(42).as_string().is_err());
    assert!(Value::Boolean(true).as_string().is_err());
    assert!(Value::Null.as_string().is_err());
}

#[test]
fn test_value_as_array() {
    let arr = vec![Value::Integer(1), Value::Integer(2)];
    let array_val = Value::Array(arr);

    let result = array_val.as_array().unwrap();
    assert_eq!(result.len(), 2);

    assert!(Value::Integer(42).as_array().is_err());
    assert!(Value::String("test".to_string()).as_array().is_err());
}

#[test]
fn test_value_clone() {
    let original = Value::String("test".to_string());
    let cloned = original.clone();

    match (original, cloned) {
        (Value::String(s1), Value::String(s2)) => assert_eq!(s1, s2),
        _ => panic!("Clone failed"),
    }
}

#[test]
fn test_value_debug_formatting() {
    let value = Value::Integer(42);
    let debug_str = format!("{:?}", value);
    assert!(debug_str.contains("Integer"));
    assert!(debug_str.contains("42"));
}

#[test]
fn test_value_special_float_values() {
    let infinity = Value::Float(f64::INFINITY.to_bits());
    let neg_infinity = Value::Float(f64::NEG_INFINITY.to_bits());
    let nan = Value::Float(f64::NAN.to_bits());

    assert!(infinity.is_truthy());
    assert!(neg_infinity.is_truthy());
    assert!(!nan.is_truthy()); // NaN is falsy

    assert_eq!(infinity.as_float().unwrap(), f64::INFINITY.to_bits());
    assert_eq!(neg_infinity.as_float().unwrap(), f64::NEG_INFINITY.to_bits());
    assert!(f64::from_bits(nan.as_float().unwrap()).is_nan());
}

#[test]
fn test_value_nested_arrays() {
    let inner_array = vec![Value::Integer(1), Value::Integer(2)];
    let outer_array = vec![
        Value::Array(inner_array),
        Value::String("test".to_string()),
    ];
    let nested_value = Value::Array(outer_array);

    let display = nested_value.render();
    assert!(display.contains("[1, 2]"));
    assert!(display.contains("\"test\""));
}

#[test]
fn test_value_unicode_strings() {
    let unicode_str = "Hello üåç ‰∏ñÁïå espa√±ol";
    let value = Value::String(unicode_str.to_string());
    assert_eq!(value.render(), format!("\"{}\"", unicode_str));
    assert_eq!(value.as_string().unwrap(), unicode_str);
}

#[test]
fn test_value_conversion_error_messages() {
    let string_val = Value::String("test".to_string());

    let int_err = string_val.as_integer().unwrap_err();
    assert!(int_err.contains("Cannot convert"));
    assert!(int_err.contains("to integer"));

    let float_err = string_val.as_float().unwrap_err();
    assert!(float_err.contains("Cannot convert"));
    assert!(float_err.contains("to float"));

    let array_err = string_val.as_array().unwrap_err();
    assert!(array_err.contains("Cannot convert"));
    assert!(array_err.contains("to array"));
}

#[test]
fn float_rendering_is_shortest_round_trip() {
    assert_eq!(Value::Float(42.0f64.to_bits()).render(), "42");
    assert_eq!(Value::Float(0.5f64.to_bits()).render(), "0.5");
    assert_eq!(Value::Float(0.1f64.to_bits()).render(), "0.1");
    assert_eq!(Value::Float((-0.0f64).to_bits()).render(), "-0");
    assert_eq!(Value::Float(f64::INFINITY.to_bits()).render(), "inf");
    assert_eq!(Value::Float(f64::NEG_INFINITY.to_bits()).render(), "-inf");
    assert_eq!(Value::Float(f64::NAN.to_bits()).render(), "NaN");
}

use loadgen::function::LastIndexOfFunction;
use loadgen::function::PlusFunction;
use loadgen::function::RandomFunction;
use loadgen::function::SplitFunction;
use loadgen::function::SplitIndex;
use loadgen::function::SubStringFunction;
use loadgen::value::Value;

#[test]
fn test_split_function() {
    let f = SplitFunction {
        delimiter: ",".to_string(),
        index: SplitIndex::Nth(1),
    };
    assert_eq!(f.apply("a,b,c".to_string()), "b".to_string());
}

#[test]
fn test_split_function_nth() {
    let f = SplitFunction {
        delimiter: ",".to_string(),
        index: SplitIndex::Nth(10),
    };
    assert_eq!(f.apply("a,b,c".to_string()), "".to_string());
}

#[test]
fn test_split_function_last_index() {
    let f = SplitFunction {
        delimiter: "/".to_string(),
        index: SplitIndex::Last,
    };
    assert_eq!(
        f.apply("http://localhost:8080/test/v1/foo/12345".to_string()),
        "12345".to_string()
    );
}

#[test]
fn test_split_function_first() {
    let f = SplitFunction {
        delimiter: ":".to_string(),
        index: SplitIndex::First,
    };
    assert_eq!(f.apply("123:456".to_string()), "123".to_string());
}

#[test]
fn test_plus_function() {
    let f = PlusFunction;
    let args = vec![Value::Int(1), Value::Int(2)];
    assert_eq!(f.apply(args).unwrap(), Value::Int(3));
}

#[test]
fn function_test_plus_function() {
    let f = PlusFunction;
    let args = vec![Value::Int(1), Value::Int(2)];
    assert_eq!(f.apply(args).unwrap(), Value::Int(3));
}

#[test]
fn test_random_function() {
    let f = RandomFunction;
    let args = vec![Value::Int(1), Value::Int(10)];
    let value = f.apply(args).unwrap().as_int().unwrap();
    assert!(value >= 1 && value <= 10);
}

#[test]
fn function_test_random_function() {
    let f = RandomFunction;
    let args = vec![Value::Int(1), Value::Int(10)];
    let value = f.apply(args).unwrap().as_int().unwrap();
    assert!(value >= 1 && value <= 10);
}

#[test]
fn test_substring_function() {
    let f = SubStringFunction;
    let args = vec![
        Value::String("abcdef".to_string()),
        Value::Int(1),
        Value::Int(3),
    ];

    assert_eq!(f.apply(args).unwrap(), Value::String("bc".to_string()));

    let args = vec![
        Value::String("http://location:8080/test/v1/foo/123456".to_string()),
        Value::Int(33),
    ];

    assert_eq!(f.apply(args).unwrap(), Value::String("123456".to_string()));
}

#[test]
fn function_test_substring_function() {
    let f = SubStringFunction;
    let args = vec![
        Value::String("abcdef".to_string()),
        Value::Int(1),
        Value::Int(3),
    ];

    assert_eq!(f.apply(args).unwrap(), Value::String("bc".to_string()));

    let args = vec![
        Value::String("http://location:8080/test/v1/foo/123456".to_string()),
        Value::Int(33),
    ];

    assert_eq!(f.apply(args).unwrap(), Value::String("123456".to_string()));
}

#[test]
fn test_last_index_of_function() {
    let f = LastIndexOfFunction;
    let args = vec![
        Value::String("http://localhost:8080/test/v1/foo/12345".to_string()),
        Value::String("/".to_string()),
    ];
    assert_eq!(f.apply(args).unwrap(), Value::Int(33));
}

#[test]
fn function_test_last_index_of_function() {
    let f = LastIndexOfFunction;
    let args = vec![
        Value::String("http://localhost:8080/test/v1/foo/12345".to_string()),
        Value::String("/".to_string()),
    ];
    assert_eq!(f.apply(args).unwrap(), Value::Int(33));
}

#[test]
fn last_index_of_missing_pattern_is_zero() {
    let f = LastIndexOfFunction;
    let args = vec![
        Value::String("abc".to_string()),
        Value::String("xyz".to_string()),
    ];
    assert_eq!(f.apply(args).unwrap(), Value::Int(0));
}

#[test]
fn plus_function_arity_error() {
    let f = PlusFunction;
    let err = f.apply(vec![Value::Int(1)]).unwrap_err();
    assert_eq!(
        err.to_string(),
        "Script error: Plus function requires 2 arguments"
    );
}

#[test]
fn random_function_rejects_empty_range() {
    let f = RandomFunction;
    let err = f.apply(vec![Value::Int(9), Value::Int(3)]).unwrap_err();
    assert_eq!(
        err.to_string(),
        "Script error: random function requires min <= max"
    );
}

#[test]
fn substring_counts_code_points() {
    let f = SubStringFunction;
    let args = vec![
        Value::String("héllo".to_string()),
        Value::Int(1),
        Value::Int(3),
    ];
    assert_eq!(f.apply(args).unwrap(), Value::String("él".to_string()));
}

#[test]
fn split_with_empty_delimiter_cuts_every_character() {
    let f = SplitFunction {
        delimiter: "".to_string(),
        index: SplitIndex::Nth(1),
    };
    assert_eq!(f.apply("ab".to_string()), "a".to_string());

    let first = SplitFunction {
        delimiter: "".to_string(),
        index: SplitIndex::First,
    };
    assert_eq!(first.apply("ab".to_string()), "".to_string());
}

#[test]
fn now_without_arguments_is_rfc3339_shaped() {
    let f = loadgen::function::NowFunction;
    let rendered = f.apply(Vec::new()).unwrap().as_string().unwrap();
    assert!(rendered.len() >= 25);
    assert!(rendered.ends_with("+00:00"));
    let bytes = rendered.as_bytes();
    assert_eq!(bytes[4], b'-');
    assert_eq!(bytes[7], b'-');
    assert_eq!(bytes[10], b'T');
    assert_eq!(bytes[13], b':');
    assert_eq!(bytes[16], b':');
    assert!(bytes[..4].iter().all(|b| b.is_ascii_digit()));
}

use loadgen::context::Global;
use loadgen::context::ScriptContext;
use loadgen::function::Function;
use loadgen::function::CopyFunction;
use loadgen::function::LastIndexOfFunction;
use loadgen::function::NowFunction;
use loadgen::function::PlusFunction;
use loadgen::function::RandomFunction;
use loadgen::function::SplitFunction;
use loadgen::function::SplitIndex;
use loadgen::function::SubStringFunction;
use loadgen::script::AssertOperator;
use loadgen::script::AssertScript;
use loadgen::script::DefScript;
use loadgen::value::Value;
use loadgen::value::VarMap;
use loadgen::variable::Variable;

fn fresh_ctx() -> ScriptContext {
    ScriptContext::new(Global::empty())
}

fn global_with(name: &str, value: Value) -> Global {
    let mut g = Global::empty();
    g.insert_variable(name, value);
    g
}

// let now = Now("%Y-%m-%d")
#[test]
fn script_test_script_now() {
    let script = DefScript {
        return_var_name: "now".to_string(),
        function: Function::Now(NowFunction),
        args: vec![Variable::Constant(Value::String("%Y-%m-%d".to_string()))],
    };

    let mut ctx = fresh_ctx();
    script.execute(&mut ctx).unwrap();

    let result = ctx.get_variable("now").unwrap();
    let value = result.as_string().unwrap();

    let today = chrono::Utc::now().format("%Y-%m-%d").to_string();
    assert!(value.len() > 0);
    assert!(value.starts_with(&today));
}

#[test]
fn define_test_script_now() {
    let script = DefScript {
        return_var_name: "now".to_string(),
        function: Function::Now(NowFunction),
        args: vec![Variable::Constant(Value::String("%Y-%m-%d".to_string()))],
    };

    let mut ctx = fresh_ctx();
    script.execute(&mut ctx).unwrap();

    let result = ctx.get_variable("now").unwrap();
    let value = result.as_string().unwrap();

    let today = chrono::Utc::now().format("%Y-%m-%d").to_string();
    assert!(value.len() > 0);
    assert!(value.starts_with(&today));
}

// let random = Random(1, 10)
#[test]
fn script_test_script_random() {
    let script = DefScript {
        return_var_name: "value".to_string(),
        function: Function::Random(RandomFunction),
        args: vec![
            Variable::Constant(Value::Int(1)),
            Variable::Constant(Value::Int(10)),
        ],
    };

    let mut ctx = fresh_ctx();
    script.execute(&mut ctx).unwrap();

    let result = ctx.get_variable("value").unwrap();
    let value = result.as_int().unwrap();
    assert!(value >= 1 && value <= 10);
}

#[test]
fn define_test_script_random() {
    let script = DefScript {
        return_var_name: "value".to_string(),
        function: Function::Random(RandomFunction),
        args: vec![
            Variable::Constant(Value::Int(1)),
            Variable::Constant(Value::Int(10)),
        ],
    };

    let mut ctx = fresh_ctx();
    script.execute(&mut ctx).unwrap();

    let result = ctx.get_variable("value").unwrap();
    let value = result.as_int().unwrap();
    assert!(value >= 1 && value <= 10);
}

// let var1 = var2
#[test]
fn script_test_script_copy() {
    let script = DefScript {
        return_var_name: "var1".to_string(),
        function: Function::Copy(CopyFunction),
        args: vec![Variable::Variable("var2".to_string())],
    };

    let mut ctx = fresh_ctx();
    ctx.set_variable("var2", Value::Int(123456789));
    script.execute(&mut ctx).unwrap();

    let result = ctx.get_variable("var1").unwrap();
    assert_eq!(result.as_int().unwrap(), 123456789);
}

#[test]
fn define_test_script_copy() {
    let script = DefScript {
        return_var_name: "var1".to_string(),
        function: Function::Copy(CopyFunction),
        args: vec![Variable::Variable("var2".to_string())],
    };

    let mut ctx = fresh_ctx();
    ctx.set_variable("var2", Value::Int(123456789));
    script.execute(&mut ctx).unwrap();

    let result = ctx.get_variable("var1").unwrap();
    assert_eq!(result.as_int().unwrap(), 123456789);
}

// let split = Split(":", 1); let chargingDataRef = split.run("123:456")
#[test]
fn test_script_split() {
    let script = DefScript {
        return_var_name: "chargingDataRef".to_string(),
        function: Function::Split(SplitFunction {
            delimiter: ":".to_string(),
            index: SplitIndex::Nth(1),
        }),
        args: vec![Variable::Constant(Value::String("123:456".to_string()))],
    };

    let mut ctx = fresh_ctx();
    script.execute(&mut ctx).unwrap();

    let result = ctx.get_variable("chargingDataRef").unwrap();
    assert_eq!(result.as_string().unwrap(), "456");
}

#[test]
fn script_test_script_substring() {
    let script = DefScript {
        return_var_name: "world".to_string(),
        function: Function::SubString(SubStringFunction),
        args: vec![
            Variable::Constant(Value::String("Hello World".to_string())),
            Variable::Constant(Value::Int(6)),
        ],
    };

    let mut ctx = fresh_ctx();
    script.execute(&mut ctx).unwrap();

    let result = ctx.get_variable("world").unwrap();
    assert_eq!(result.as_string().unwrap(), "World");
}

#[test]
fn define_test_script_substring() {
    let script = DefScript {
        return_var_name: "world".to_string(),
        function: Function::SubString(SubStringFunction),
        args: vec![
            Variable::Constant(Value::String("Hello World".to_string())),
            Variable::Constant(Value::Int(6)),
        ],
    };

    let mut ctx = fresh_ctx();
    script.execute(&mut ctx).unwrap();

    let result = ctx.get_variable("world").unwrap();
    assert_eq!(result.as_string().unwrap(), "World");
}

// def chargingDataRef = location.substring(location.lastIndexOf('/') + 1)
#[test]
fn script_test_script_extract_location_header() {
    let mut ctx = fresh_ctx();
    let location = Value::String("http://location:8080/test/v1/foo/123456".to_string());

    let script = DefScript {
        return_var_name: "location".to_string(),
        function: Function::LastIndexOf(LastIndexOfFunction),
        args: vec![
            Variable::Constant(location.clone()),
            Variable::Constant(Value::String("/".to_string())),
        ],
    };
    script.execute(&mut ctx).unwrap();

    let index = ctx.get_variable("location").unwrap().as_int().unwrap();
    assert_eq!(index, 32);

    let script = DefScript {
        return_var_name: "chargingDataRef".to_string(),
        function: Function::SubString(SubStringFunction),
        args: vec![
            Variable::Constant(location),
            Variable::Constant(Value::Int(index + 1)),
        ],
    };
    script.execute(&mut ctx).unwrap();

    let result = ctx.get_variable("chargingDataRef").unwrap();
    assert_eq!(result.as_string().unwrap(), "123456");
}

#[test]
fn define_test_script_extract_location_header() {
    let mut ctx = fresh_ctx();
    let location = Value::String("http://location:8080/test/v1/foo/123456".to_string());

    let script = DefScript {
        return_var_name: "location".to_string(),
        function: Function::LastIndexOf(LastIndexOfFunction),
        args: vec![
            Variable::Constant(location.clone()),
            Variable::Constant(Value::String("/".to_string())),
        ],
    };
    script.execute(&mut ctx).unwrap();

    let index = ctx.get_variable("location").unwrap().as_int().unwrap();
    assert_eq!(index, 32);

    let script = DefScript {
        return_var_name: "chargingDataRef".to_string(),
        function: Function::SubString(SubStringFunction),
        args: vec![
            Variable::Constant(location),
            Variable::Constant(Value::Int(index + 1)),
        ],
    };
    script.execute(&mut ctx).unwrap();

    let result = ctx.get_variable("chargingDataRef").unwrap();
    assert_eq!(result.as_string().unwrap(), "123456");
}

// let imsi = 1 + 2
#[test]
fn script_test_script_plus_constant() {
    let script = DefScript {
        return_var_name: "imsi".to_string(),
        function: Function::Plus(PlusFunction),
        args: vec![
            Variable::Constant(Value::Int(1)),
            Variable::Constant(Value::Int(2)),
        ],
    };

    let mut ctx = fresh_ctx();
    script.execute(&mut ctx).unwrap();

    let imsi = ctx.get_variable("imsi").unwrap();
    assert_eq!(imsi.as_int().unwrap(), 3);
}

#[test]
fn define_test_script_plus_constant() {
    let script = DefScript {
        return_var_name: "imsi".to_string(),
        function: Function::Plus(PlusFunction),
        args: vec![
            Variable::Constant(Value::Int(1)),
            Variable::Constant(Value::Int(2)),
        ],
    };

    let mut ctx = fresh_ctx();
    script.execute(&mut ctx).unwrap();

    let imsi = ctx.get_variable("imsi").unwrap();
    assert_eq!(imsi.as_int().unwrap(), 3);
}

// local var2 = 22; local var3 = var2 + 1
#[test]
fn script_test_script_plus_constant_and_var() {
    let script = DefScript {
        return_var_name: "var3".to_string(),
        function: Function::Plus(PlusFunction),
        args: vec![
            Variable::Variable("var2".to_string()),
            Variable::Constant(Value::Int(1)),
        ],
    };

    let mut ctx = fresh_ctx();
    ctx.set_variable("var2", Value::Int(22));
    script.execute(&mut ctx).unwrap();

    let var3 = ctx.get_variable("var3").unwrap();
    assert_eq!(var3.as_int().unwrap(), 23);
}

#[test]
fn define_test_script_plus_constant_and_var() {
    let script = DefScript {
        return_var_name: "var3".to_string(),
        function: Function::Plus(PlusFunction),
        args: vec![
            Variable::Variable("var2".to_string()),
            Variable::Constant(Value::Int(1)),
        ],
    };

    let mut ctx = fresh_ctx();
    ctx.set_variable("var2", Value::Int(22));
    script.execute(&mut ctx).unwrap();

    let var3 = ctx.get_variable("var3").unwrap();
    assert_eq!(var3.as_int().unwrap(), 23);
}

// global VAR1 = 11; local var2 = 22; local var3 = VAR1 + var2
#[test]
fn script_test_script_plus_global_var() {
    let script = DefScript {
        return_var_name: "var3".to_string(),
        function: Function::Plus(PlusFunction),
        args: vec![
            Variable::Variable("VAR1".to_string()),
            Variable::Variable("var2".to_string()),
        ],
    };

    let mut ctx = ScriptContext::new(global_with("VAR1", Value::Int(11)));
    ctx.set_variable("var2", Value::Int(22));
    script.execute(&mut ctx).unwrap();

    let var3 = ctx.get_variable("var3").unwrap();
    assert_eq!(var3.as_int().unwrap(), 33);
}

#[test]
fn define_test_script_plus_global_var() {
    let script = DefScript {
        return_var_name: "var3".to_string(),
        function: Function::Plus(PlusFunction),
        args: vec![
            Variable::Variable("VAR1".to_string()),
            Variable::Variable("var2".to_string()),
        ],
    };

    let mut ctx = ScriptContext::new(global_with("VAR1", Value::Int(11)));
    ctx.set_variable("var2", Value::Int(22));
    script.execute(&mut ctx).unwrap();

    let var3 = ctx.get_variable("var3").unwrap();
    assert_eq!(var3.as_int().unwrap(), 33);
}

// VAR1 = 100; VAR1 = VAR1 + 11
#[test]
fn script_test_script_update_global_var() {
    let script = DefScript {
        return_var_name: "VAR1".to_string(),
        function: Function::Plus(PlusFunction),
        args: vec![
            Variable::Variable("VAR1".to_string()),
            Variable::Constant(Value::Int(11)),
        ],
    };

    let mut ctx = ScriptContext::new(global_with("VAR1", Value::Int(100)));
    script.execute(&mut ctx).unwrap();

    let var1 = ctx.get_variable("VAR1").unwrap();
    assert_eq!(var1.as_int().unwrap(), 111);

    let var1 = ctx.global.get_variable_value("VAR1").unwrap();
    assert_eq!(var1.as_int().unwrap(), 111);
}

#[test]
fn define_test_script_update_global_var() {
    let script = DefScript {
        return_var_name: "VAR1".to_string(),
        function: Function::Plus(PlusFunction),
        args: vec![
            Variable::Variable("VAR1".to_string()),
            Variable::Constant(Value::Int(11)),
        ],
    };

    let mut ctx = ScriptContext::new(global_with("VAR1", Value::Int(100)));
    script.execute(&mut ctx).unwrap();

    let var1 = ctx.get_variable("VAR1").unwrap();
    assert_eq!(var1.as_int().unwrap(), 111);

    let var1 = ctx.global.get_variable_value("VAR1").unwrap();
    assert_eq!(var1.as_int().unwrap(), 111);
}

#[test]
fn test_script_assert_equal_variables_success() {
    let mut ctx = fresh_ctx();

    ctx.set_variable("a", Value::Int(1));
    ctx.set_variable("b", Value::Int(1));

    let script = AssertScript {
        lhs: Variable::Variable("a".to_string()),
        rhs: Variable::Variable("b".to_string()),
        operator: AssertOperator::Equal,
    };

    let result = script.execute(&mut ctx).unwrap();

    assert_eq!(result, ());
}

#[test]
fn test_script_assert_equal_variables_fail() {
    let mut ctx = fresh_ctx();

    ctx.set_variable("a", Value::Int(1));
    ctx.set_variable("b", Value::Int(2));

    let script = AssertScript {
        lhs: Variable::Variable("a".to_string()),
        rhs: Variable::Variable("b".to_string()),
        operator: AssertOperator::Equal,
    };

    let result = script.execute(&mut ctx);
    assert!(result.is_err());

    let err = result.unwrap_err();
    assert_eq!(err.to_string(), "Assert error: assert equal failed: 1 != 2");
}

#[test]
fn test_script_assert_equal_constant_success() {
    let mut ctx = fresh_ctx();
    ctx.set_variable("responseStatus", Value::Int(200));

    let script = AssertScript {
        lhs: Variable::Variable("responseStatus".to_string()),
        rhs: Variable::Constant(Value::Int(200)),
        operator: AssertOperator::Equal,
    };

    let result = script.execute(&mut ctx).unwrap();

    assert_eq!(result, ());
}

#[test]
fn test_script_assert_equal_constant_fail() {
    let mut ctx = fresh_ctx();
    ctx.set_variable("responseStatus", Value::Int(200));

    let script = AssertScript {
        lhs: Variable::Variable("responseStatus".to_string()),
        rhs: Variable::Constant(Value::Int(201)),
        operator: AssertOperator::Equal,
    };

    let result = script.execute(&mut ctx);
    assert!(result.is_err());

    let err = result.unwrap_err();
    assert_eq!(
        err.to_string(),
        "Assert error: assert equal failed: 200 != 201"
    );
}

#[test]
fn assert_not_equal_distinguishes_values() {
    let mut ctx = fresh_ctx();
    ctx.set_variable("a", Value::Int(1));

    let script = AssertScript {
        lhs: Variable::Variable("a".to_string()),
        rhs: Variable::Constant(Value::Int(2)),
        operator: AssertOperator::NotEqual,
    };
    script.execute(&mut ctx).unwrap();

    let script = AssertScript {
        lhs: Variable::Variable("a".to_string()),
        rhs: Variable::Constant(Value::Int(1)),
        operator: AssertOperator::NotEqual,
    };
    let err = script.execute(&mut ctx).unwrap_err();
    assert_eq!(
        err.to_string(),
        "Assert error: assert not equal failed: 1 == 1"
    );
}

#[test]
fn deep_values_compare_structurally() {
    let mut inner = VarMap::new();
    inner.insert("k", Value::List(vec![Value::Int(1), Value::Null]));
    let mut inner2 = VarMap::new();
    inner2.insert("k", Value::List(vec![Value::Int(1), Value::Null]));
    assert_eq!(Value::Dict(inner), Value::Dict(inner2));

    let mut other = VarMap::new();
    other.insert("k", Value::List(vec![Value::Int(2), Value::Null]));
    let mut one = VarMap::new();
    one.insert("k", Value::List(vec![Value::Int(1), Value::Null]));
    assert_ne!(Value::Dict(one), Value::Dict(other));
}

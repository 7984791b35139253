use loadgen::context::Global;
use loadgen::context::ScriptContext;
use loadgen::value::Value;
use loadgen::value::VarMap;
use loadgen::variable::Variable;

fn fresh_ctx() -> ScriptContext {
    ScriptContext::new(Global::empty())
}

#[test]
fn test_get_values_constant() {
    let ctx = fresh_ctx();

    let a = Variable::from_str("'hello'");
    let a = a.get_value(&ctx).unwrap();
    assert_eq!(a, Value::String("hello".to_string()));

    let b = Variable::from_str("123");
    let b = b.get_value(&ctx).unwrap();
    assert_eq!(b, Value::Int(123));
}

#[test]
fn test_get_values_variable() {
    let mut ctx = fresh_ctx();
    ctx.set_variable("a", Value::Int(1));
    ctx.set_variable("b", Value::String("hello".to_string()));

    let a = Variable::from_str("a");
    let a = a.get_value(&ctx).unwrap();
    assert_eq!(a, Value::Int(1));

    let b = Variable::from_str("b");
    let b = b.get_value(&ctx).unwrap();
    assert_eq!(b, Value::String("hello".to_string()));

    let c = Variable::from_str("c");
    let c = c.get_value(&ctx);
    assert!(c.is_err());
}

#[test]
fn test_get_values_variable_map() {
    let mut ctx = fresh_ctx();
    let mut map = VarMap::new();
    map.insert("content-type", Value::String("applicaiton/json".to_string()));
    ctx.set_variable("responseHeaders", Value::Dict(map));

    let a = Variable::from_str("responseHeaders['content-type']");
    let a = a.get_value(&ctx).unwrap();
    assert_eq!(a, Value::String("applicaiton/json".to_string()));
}

#[test]
fn test_get_values_variable_map_not_found() {
    let mut ctx = fresh_ctx();
    let mut map = VarMap::new();
    map.insert("content-type", Value::String("applicaiton/json".to_string()));
    ctx.set_variable("responseHeaders", Value::Dict(map));

    let v = Variable::from_str("responseHeaders['content-length']");
    let v = v.get_value(&ctx);
    assert!(v.is_err());
    assert_eq!(
        v.unwrap_err().to_string(),
        "Script error: Key 'content-length' not found in map 'responseHeaders'"
    );
}

#[test]
fn test_get_values_variable_list() {
    let mut ctx = fresh_ctx();
    let list = vec![Value::Int(1), Value::Int(2), Value::Int(3)];
    ctx.set_variable("numbers", Value::List(list));

    let v = Variable::from_str("numbers[1]");
    let v = v.get_value(&ctx).unwrap();
    assert_eq!(v, Value::Int(2));
}

#[test]
fn test_get_values_variable_list_out_of_range() {
    let mut ctx = fresh_ctx();
    let list = vec![Value::Int(1), Value::Int(2), Value::Int(3)];
    ctx.set_variable("numbers", Value::List(list));

    let v = Variable::from_str("numbers[3]");
    let v = v.get_value(&ctx);
    assert!(v.is_err());
    assert_eq!(
        v.unwrap_err().to_string(),
        "Script error: Index '3' out of range in list 'numbers'"
    );
}

#[test]
fn test_get_values_variable_headers() {
    let mut ctx = fresh_ctx();

    let mut list = Vec::new();
    list.push(Value::String("application/json".to_string()));
    list.push(Value::String("application/xml".to_string()));

    let mut map = VarMap::new();
    map.insert("content-type", Value::List(list));

    ctx.set_variable("responseHeaders", Value::Dict(map));

    let v = Variable::from_str("responseHeaders['content-type'][0]");
    let v = v.get_value(&ctx).unwrap();
    let v = v.as_string().unwrap();
    assert_eq!(v, "application/json");

    let v = Variable::from_str("responseHeaders['content-type'][1]");
    let v = v.get_value(&ctx).unwrap();
    let v = v.as_string().unwrap();
    assert_eq!(v, "application/xml");
}

#[test]
fn value_coercions_follow_the_table() {
    assert_eq!(Value::Int(-42).as_string().unwrap(), "-42");
    assert_eq!(Value::String("17".to_string()).as_int().unwrap(), 17);
    assert_eq!(Value::Null.as_string().unwrap(), "");
    assert_eq!(Value::Null.as_int().unwrap(), 0);
    assert!(Value::Null.as_map().unwrap().len() == 0);
    assert!(Value::Null.as_list().unwrap().is_empty());
    let err = Value::String("abc".to_string()).as_int().unwrap_err();
    assert_eq!(
        err.to_string(),
        "Script error: String 'abc' cannot be converted to Int"
    );
    let err = Value::Dict(VarMap::new()).as_string().unwrap_err();
    assert_eq!(
        err.to_string(),
        "Script error: Map cannot be converted to String"
    );
    let err = Value::List(Vec::new()).as_string().unwrap_err();
    assert_eq!(
        err.to_string(),
        "Script error: List cannot be converted to String"
    );
    let err = Value::Int(7).as_map().unwrap_err();
    assert_eq!(
        err.to_string(),
        "Script error: Int '7' cannot be converted to Map"
    );
}

#[test]
fn context_layering_prefers_local() {
    let mut global = Global::empty();
    global.insert_variable("shared", Value::Int(1));
    let mut ctx = ScriptContext::new(global);
    assert_eq!(ctx.get_variable("shared").unwrap(), Value::Int(1));
    ctx.set_local_variable("shared", Value::Int(2));
    assert_eq!(ctx.get_variable("shared").unwrap(), Value::Int(2));
    assert_eq!(
        ctx.global.get_variable_value("shared").unwrap(),
        &Value::Int(1)
    );
}

#[test]
fn global_write_is_conditional() {
    let mut global = Global::empty();
    global.insert_variable("known", Value::Int(1));
    let mut ctx = ScriptContext::new(global);
    ctx.set_variable("known", Value::Int(5));
    ctx.set_variable("fresh", Value::Int(9));
    assert_eq!(
        ctx.global.get_variable_value("known").unwrap(),
        &Value::Int(5)
    );
    assert!(ctx.global.get_variable_value("fresh").is_none());
    assert_eq!(ctx.get_variable("fresh").unwrap(), Value::Int(9));
}

#[test]
fn promote_local_to_global_installs_bindings() {
    let mut ctx = ScriptContext::new(Global::empty());
    ctx.set_variable("COUNTER", Value::Int(0));
    assert!(ctx.global.get_variable_value("COUNTER").is_none());
    ctx.save_variables_as_global();
    assert_eq!(
        ctx.global.get_variable_value("COUNTER").unwrap(),
        &Value::Int(0)
    );
}

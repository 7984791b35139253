use loadgen::context::Global;
use loadgen::context::ScriptContext;
use loadgen::parser::Parser;
use loadgen::parser::Scripts;
use loadgen::value::Value;
use loadgen::value::VarMap;

fn fresh_ctx() -> ScriptContext {
    ScriptContext::new(Global::empty())
}

#[test]
fn test_scripting_now() {
    let mut context = fresh_ctx();

    // def now = now()
    let script = Parser::parse_line("def now = now()").unwrap();
    script.execute(&mut context).unwrap();

    let now = context.get_variable("now").unwrap().as_string().unwrap();

    let today = chrono::Utc::now().format("%Y-%m-%d").to_string();
    assert!(now.starts_with(&today));
}

#[test]
fn test_scripting_random() {
    let mut context = fresh_ctx();

    // def random = random(100,999)
    let script = Parser::parse_line("def random = random(100,999)").unwrap();
    script.execute(&mut context).unwrap();

    let random = context.get_variable("random").unwrap().as_int().unwrap();
    assert!(random >= 100 && random <= 999);
}

#[test]
fn test_scripting_extract_location_header() {
    let mut context = fresh_ctx();

    let scripts = Scripts::parse(
        r"
            def location = 'http://localhost:8080/chargingData/123'
            def index = location.lastIndexOf('/')
            def index = index + 1
            def chargingDataRef = location.substring(index)
        ",
    )
    .unwrap();

    scripts.execute(&mut context).unwrap();

    assert_eq!(
        context
            .get_variable("location")
            .unwrap()
            .as_string()
            .unwrap(),
        "http://localhost:8080/chargingData/123"
    );
    assert_eq!(context.get_variable("index").unwrap().as_int().unwrap(), 35);
    assert_eq!(
        context
            .get_variable("chargingDataRef")
            .unwrap()
            .as_string()
            .unwrap(),
        "123"
    );
}

#[test]
fn test_scripting_assert_status() {
    let mut context = fresh_ctx();
    context.set_local_variable("responseStatus", Value::Int(200));

    let scripts = Scripts::parse(
        r"
            assert responseStatus == 200
        ",
    )
    .unwrap();

    scripts.execute(&mut context).unwrap();
}

// def contentType = responseHeaders['contentType'][0]
// assert contentType == 'application/json'
#[test]
fn test_script_assert_headers() {
    let mut ctx = fresh_ctx();
    let mut headers = VarMap::new();
    headers.insert(
        "contentType",
        Value::List(vec![Value::String("application/json".to_string())]),
    );
    ctx.set_variable("responseHeaders", Value::Dict(headers));

    let script = Scripts::parse(
        r"
            def contentTypes = responseHeaders['contentType']
            def contentType = contentTypes[0]
            assert contentType == 'application/json'
        ",
    )
    .unwrap();

    script.execute(&mut ctx).unwrap();

    assert_eq!(
        ctx.get_variable("contentType")
            .unwrap()
            .as_string()
            .unwrap(),
        "application/json"
    );
}

#[test]
fn test_scripting_plus() {
    let mut context = fresh_ctx();

    // def foo = 16
    let script = Parser::parse_line("def foo = 16").unwrap();
    script.execute(&mut context).unwrap();
    assert_eq!(context.get_variable("foo").unwrap().as_int().unwrap(), 16);

    // def count = foo
    let script = Parser::parse_line("def count = foo").unwrap();
    script.execute(&mut context).unwrap();
    assert_eq!(context.get_variable("count").unwrap().as_int().unwrap(), 16);
    assert_eq!(context.get_variable("foo").unwrap().as_int().unwrap(), 16);

    // def count = count + 1
    let script = Parser::parse_line("def count = count + 1").unwrap();
    script.execute(&mut context).unwrap();
    assert_eq!(context.get_variable("count").unwrap().as_int().unwrap(), 17);
    assert_eq!(context.get_variable("foo").unwrap().as_int().unwrap(), 16);

    // def foo = count + 10
    let script = Parser::parse_line("def foo = count + 10").unwrap();
    script.execute(&mut context).unwrap();
    assert_eq!(context.get_variable("count").unwrap().as_int().unwrap(), 17);
    assert_eq!(context.get_variable("foo").unwrap().as_int().unwrap(), 27);
}

#[test]
fn test_scripting_extract_location() {
    let mut context = fresh_ctx();

    // def location = 'http://localhost:8080/chargingData/123'
    let script =
        Parser::parse_line("def location = 'http://localhost:8080/chargingData/123'").unwrap();
    script.execute(&mut context).unwrap();
    assert_eq!(
        context.get_variable("location").unwrap().as_string().unwrap(),
        "http://localhost:8080/chargingData/123"
    );

    // def index = location.lastIndexOf('/')
    let script = Parser::parse_line("def index = location.lastIndexOf('/')").unwrap();
    script.execute(&mut context).unwrap();
    assert_eq!(context.get_variable("index").unwrap().as_int().unwrap(), 34);

    // def index = index + 1
    let script = Parser::parse_line("def index = index + 1").unwrap();
    script.execute(&mut context).unwrap();
    assert_eq!(context.get_variable("index").unwrap().as_int().unwrap(), 35);

    // def chargingDataRef = location.substring(index)
    let script = Parser::parse_line("def chargingDataRef = location.substring(index)").unwrap();
    script.execute(&mut context).unwrap();
    assert_eq!(
        context
            .get_variable("chargingDataRef")
            .unwrap()
            .as_string()
            .unwrap(),
        "123"
    );
}

#[test]
fn parser_rejects_malformed_lines() {
    let err = Parser::parse_line("def x").unwrap_err();
    assert_eq!(
        err.to_string(),
        "Script error: invalid script, expected at least 4 parts"
    );

    let err = Parser::parse_line("whatever a b c").unwrap_err();
    assert_eq!(
        err.to_string(),
        "Script error: invalid script, expected 'def' or 'assert'"
    );

    let err = Parser::parse_line("def x y 16").unwrap_err();
    assert_eq!(err.to_string(), "Script error: invalid script, expected '='");

    let err = Parser::parse_line("assert a >= b").unwrap_err();
    assert_eq!(
        err.to_string(),
        "Script error: invalid script, operator '==' or '!=' expected"
    );

    let err = Parser::parse_line("def x = frob(1)").unwrap_err();
    assert_eq!(
        err.to_string(),
        "Script error: invalid script, function 'frob' not found"
    );

    let err = Parser::parse_line("def x = a - b").unwrap_err();
    assert_eq!(
        err.to_string(),
        "Script error: invalid script, only '+' operator is supported"
    );

    let err = Parser::parse_line("def x = random(1)").unwrap_err();
    assert_eq!(
        err.to_string(),
        "Script error: invalid script, random function requires 2 arguments"
    );
}

#[test]
fn comments_and_blank_lines_are_skipped() {
    let mut context = fresh_ctx();
    let scripts = Scripts::parse(
        "# a comment\n\n   \ndef a = 1\n# another\ndef b = a + 1\n",
    )
    .unwrap();
    scripts.execute(&mut context).unwrap();
    assert_eq!(context.get_variable("a").unwrap().as_int().unwrap(), 1);
    assert_eq!(context.get_variable("b").unwrap().as_int().unwrap(), 2);
}

#[test]
fn execution_stops_at_first_failure() {
    let mut context = fresh_ctx();
    let scripts = Scripts::parse(
        "def a = 1\nassert a == 2\ndef b = 3\n",
    )
    .unwrap();
    let err = scripts.execute(&mut context).unwrap_err();
    assert_eq!(err.to_string(), "Assert error: assert equal failed: 1 != 2");
    assert!(context.get_variable("b").is_none());
}

#[test]
fn parse_errors_preserve_the_offending_line() {
    let err = Scripts::parse("def a = 1\ndef broken\n").unwrap_err();
    assert_eq!(
        err.to_string(),
        "Script error: invalid script, expected at least 4 parts: def broken"
    );
}

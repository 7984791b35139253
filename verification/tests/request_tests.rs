use loadgen::context::Global;
use loadgen::context::ScriptContext;
use loadgen::http::HttpResponse;
use loadgen::http::Method;
use loadgen::request::find_variable_name;
use loadgen::request::Request;
use loadgen::value::Value;
use loadgen::value::VarMap;

fn fresh_ctx() -> ScriptContext {
    ScriptContext::new(Global::empty())
}

fn template(uri: &str, body: Option<&str>, headers: Option<Vec<(String, String)>>) -> Request {
    Request {
        name: "Request_1".to_string(),
        base_url: "http://localhost:8080".to_string(),
        method: Method::Get,
        headers,
        uri: uri.to_string(),
        uri_var_name: find_variable_name(uri),
        body: body.map(|b| b.to_string()),
        body_var_name: find_variable_name(body.unwrap_or("")),
        timeout_millis: 3000,
        before: None,
        after: None,
    }
}

#[test]
fn test_request_new_http_request() {
    let mut headers = Vec::new();
    headers.push(("Content-Type".to_string(), "application/json".to_string()));

    let body = r#"{"test": "${var1}_${var2}"}"#;
    let uri = "/endpoint/foo/${foo_id}";
    let mut request = template(uri, Some(body), Some(headers));

    let mut ctx = fresh_ctx();
    ctx.set_variable("var1", Value::Int(0));
    ctx.set_variable("var2", Value::Int(100));
    ctx.set_variable("foo_id", Value::String("1-2-3-4".to_string()));

    let request = request.new_http_request(&ctx).unwrap();
    assert_eq!(request.uri, "http://localhost:8080/endpoint/foo/1-2-3-4");
    assert_eq!(request.method, Method::Get);
    assert_eq!(request.body, Some(r#"{"test": "0_100"}"#.to_string()));
}

#[test]
fn test_request_from_response() {
    let request = template("/endpoint", None, None);

    let mut ctx = fresh_ctx();

    let mut attr = VarMap::new();
    attr.insert("Name", Value::String("Test".to_string()));
    attr.insert("Age", Value::Int(30));
    let mut body = VarMap::new();
    body.insert("Result", Value::Int(0));
    body.insert("ObjectId", Value::String("0-1-2-3".to_string()));
    body.insert("Attr", Value::Dict(attr));
    body.insert(
        "List",
        Value::List(vec![Value::Int(1), Value::Int(2), Value::Int(3)]),
    );

    request
        .from_response(
            &mut ctx,
            &HttpResponse {
                status: 200,
                headers: Vec::new(),
                body: Some(Value::Dict(body)),
                request_start_micros: 0,
                retry_count: 0,
            },
        )
        .unwrap();

    let response = ctx.get_variable("response").unwrap();
    let response = response.as_map().unwrap();

    let result = response.get("Result").unwrap();
    assert_eq!(result, &Value::Int(0));

    let object_id = response.get("ObjectId").unwrap();
    assert_eq!(object_id, &Value::String("0-1-2-3".to_string()));

    let attr = response.get("Attr").unwrap();
    let attr = attr.as_map().unwrap();
    let name = attr.get("Name").unwrap();
    assert_eq!(name, &Value::String("Test".to_string()));
    let age = attr.get("Age").unwrap();
    assert_eq!(age, &Value::Int(30));

    let list = response.get("List").unwrap();
    let list = list.as_list().unwrap();
    assert_eq!(
        Value::List(list),
        Value::List(vec![Value::Int(1), Value::Int(2), Value::Int(3)])
    );
}

#[test]
fn test_request_from_response_extract_header() {
    let request = template("/endpoint", None, None);

    let mut ctx = fresh_ctx();

    request
        .from_response(
            &mut ctx,
            &HttpResponse {
                status: 200,
                headers: vec![
                    ("Content-Type".to_string(), "application/json".to_string()),
                    ("Location".to_string(), "https://localhost:8080/foo1".to_string()),
                    ("Location".to_string(), "https://localhost:8080/foo2".to_string()),
                ],
                body: None,
                request_start_micros: 0,
                retry_count: 0,
            },
        )
        .unwrap();

    let response_headers = ctx
        .get_variable("responseHeaders")
        .unwrap()
        .as_map()
        .unwrap();

    let content_type = response_headers.get("content-type").unwrap();
    assert_eq!(
        content_type,
        &Value::List(vec![Value::String("application/json".to_string())])
    );

    let locations = response_headers.get("location").unwrap();
    assert_eq!(
        locations,
        &Value::List(vec![
            Value::String("https://localhost:8080/foo1".to_string()),
            Value::String("https://localhost:8080/foo2".to_string())
        ])
    );
}

#[test]
fn test_scenario_new_request() {
    let mut headers = Vec::new();
    headers.push(("Content-Type".to_string(), "application/json".to_string()));

    let body = r#"{"test": "${var1}_${var2}"}"#;
    let uri = "/endpoint/foo/${foo_id}";
    let mut scenario = template(uri, Some(body), Some(headers));
    scenario.name = "Scenario_1".to_string();

    let mut ctx = fresh_ctx();
    ctx.set_variable("var1", Value::Int(0));
    ctx.set_variable("var2", Value::Int(100));
    ctx.set_variable("foo_id", Value::String("1-2-3-4".to_string()));

    let request = scenario.new_http_request(&ctx).unwrap();
    assert_eq!(request.uri, "http://localhost:8080/endpoint/foo/1-2-3-4");
    assert_eq!(request.method, Method::Get);
    assert_eq!(request.body, Some(r#"{"test": "0_100"}"#.to_string()));
}

#[test]
fn test_scenario_from_response() {
    let mut scenario = template("/endpoint", None, None);
    scenario.name = "Scenario_1".to_string();

    let mut ctx = fresh_ctx();

    let mut attr = VarMap::new();
    attr.insert("Name", Value::String("Test".to_string()));
    attr.insert("Age", Value::Int(30));
    let mut body = VarMap::new();
    body.insert("Result", Value::Int(0));
    body.insert("ObjectId", Value::String("0-1-2-3".to_string()));
    body.insert("Attr", Value::Dict(attr));

    scenario
        .from_response(
            &mut ctx,
            &HttpResponse {
                status: 200,
                headers: Vec::new(),
                body: Some(Value::Dict(body)),
                request_start_micros: 0,
                retry_count: 0,
            },
        )
        .unwrap();

    let response = ctx.get_variable("response").unwrap();
    let response = response.as_map().unwrap();

    let result = response.get("Result").unwrap();
    assert_eq!(result, &Value::Int(0));

    let object_id = response.get("ObjectId").unwrap();
    assert_eq!(object_id, &Value::String("0-1-2-3".to_string()));

    let attr = response.get("Attr").unwrap();
    let attr = attr.as_map().unwrap();
    let name = attr.get("Name").unwrap();
    assert_eq!(name, &Value::String("Test".to_string()));
    let age = attr.get("Age").unwrap();
    assert_eq!(age, &Value::Int(30));
}

#[test]
fn test_scenario_from_response_extract_header() {
    let mut scenario = template("/endpoint", None, None);
    scenario.name = "Scenario_2".to_string();

    let mut ctx = fresh_ctx();

    scenario
        .from_response(
            &mut ctx,
            &HttpResponse {
                status: 200,
                headers: vec![
                    ("Content-Type".to_string(), "application/json".to_string()),
                    ("Location".to_string(), "https://localhost:8080/foo1".to_string()),
                    ("Location".to_string(), "https://localhost:8080/foo2".to_string()),
                ],
                body: None,
                request_start_micros: 0,
                retry_count: 0,
            },
        )
        .unwrap();

    let response_headers = ctx
        .get_variable("responseHeaders")
        .unwrap()
        .as_map()
        .unwrap();

    let content_type = response_headers.get("content-type").unwrap();
    assert_eq!(
        content_type,
        &Value::List(vec![Value::String("application/json".to_string())])
    );

    let locations = response_headers.get("location").unwrap();
    assert_eq!(
        locations,
        &Value::List(vec![
            Value::String("https://localhost:8080/foo1".to_string()),
            Value::String("https://localhost:8080/foo2".to_string())
        ])
    );
}

#[test]
fn placeholders_resolve_or_fail() {
    let names = find_variable_name("/a/${x}/b/${y}/${x}");
    assert_eq!(names, vec!["x".to_string(), "y".to_string(), "x".to_string()]);

    let mut request = template("/a/${x}", None, None);
    let ctx = fresh_ctx();
    let err = request.new_http_request(&ctx).unwrap_err();
    assert_eq!(err.to_string(), "Script error: Variable 'x' not found");
}

#[test]
fn invalid_json_body_is_a_script_error() {
    let mut request = template("/a", Some("not json ${x}"), None);
    let mut ctx = fresh_ctx();
    ctx.set_variable("x", Value::Int(1));
    let err = request.new_http_request(&ctx).unwrap_err();
    assert_eq!(err.to_string(), "Script error: invalid JSON in request body");
}

// Header extraction end to end: a location header, lastIndexOf, plus and
// substring recover the trailing reference.
#[test]
fn header_reference_extraction_scenario() {
    let request = Request {
        name: "extract".to_string(),
        base_url: "http://x".to_string(),
        method: Method::Get,
        headers: None,
        uri: "/y".to_string(),
        uri_var_name: find_variable_name("/y"),
        body: None,
        body_var_name: find_variable_name(""),
        timeout_millis: 1000,
        before: None,
        after: Some(
            loadgen::parser::Scripts::parse(
                "def loc = responseHeaders['location'][0]\ndef i = loc.lastIndexOf('/')\ndef i = i + 1\ndef ref = loc.substring(i)\nassert ref == '42'\n",
            )
            .unwrap(),
        ),
    };

    let mut ctx = fresh_ctx();
    request
        .from_response(
            &mut ctx,
            &HttpResponse {
                status: 201,
                headers: vec![
                    ("Location".to_string(), "http://x/y/42".to_string()),
                    ("Location".to_string(), "http://x/y/42".to_string()),
                ],
                body: None,
                request_start_micros: 0,
                retry_count: 0,
            },
        )
        .unwrap();
    request.run_after(&mut ctx).unwrap();
    assert_eq!(
        ctx.get_variable("ref").unwrap().as_string().unwrap(),
        "42"
    );
}

// Assert status mismatch: a 500 response against `assert responseStatus == 200`
// reports an assert failure, distinct from script errors.
#[test]
fn assert_status_mismatch_scenario() {
    let request = Request {
        name: "status".to_string(),
        base_url: "http://x".to_string(),
        method: Method::Get,
        headers: None,
        uri: "/y".to_string(),
        uri_var_name: find_variable_name("/y"),
        body: None,
        body_var_name: find_variable_name(""),
        timeout_millis: 1000,
        before: None,
        after: Some(loadgen::parser::Scripts::parse("assert responseStatus == 200\n").unwrap()),
    };

    let mut ctx = fresh_ctx();
    request
        .from_response(
            &mut ctx,
            &HttpResponse {
                status: 500,
                headers: Vec::new(),
                body: None,
                request_start_micros: 0,
                retry_count: 0,
            },
        )
        .unwrap();
    let err = request.run_after(&mut ctx).unwrap_err();
    assert!(matches!(err, loadgen::error::Error::AssertError(_)));
    assert_eq!(
        err.to_string(),
        "Assert error: assert equal failed: 500 != 200"
    );
}

#[test]
fn request_builds_from_config() {
    let cfg = loadgen::config::Request {
        name: "one".to_string(),
        method: "POST".to_string(),
        path: "/subscriber/${externalId}".to_string(),
        headers: Some(vec![("content-type".to_string(), "application/json".to_string())]),
        body: Some(r#"{"id": "${externalId}"}"#.to_string()),
        timeout_millis: 3000,
        before: None,
        after: Some(loadgen::config::Script {
            scripts: "assert responseStatus == 200\n".to_string(),
        }),
    };
    let req = Request::new(&cfg, "http://localhost:8080").unwrap();
    assert_eq!(req.name, "one");
    assert_eq!(req.method, Method::Post);
    assert_eq!(req.uri_var_name, vec!["externalId".to_string()]);
    assert_eq!(req.body_var_name, vec!["externalId".to_string()]);
    assert!(req.after.is_some());

    let mut bad = cfg;
    bad.method = "FETCH".to_string();
    assert!(Request::new(&bad, "http://localhost:8080").is_err());
}

use blitzortung_srv::ieee::Real;
use blitzortung_srv::json::Json;
use blitzortung_srv::jsonrpc::{
    dispatch_result, find_method, method_defaults, method_spec, process, render_id, resolve_args,
    version_field, ArgError, Method, Outcome, Reply, RequestMeta, Step, FAILURE, INVALID_PARAMS,
    INVALID_REQUEST, MAX_PARAMS_SUMMARY, METHOD_NOT_FOUND,
};
use blitzortung_srv::request::Request;
use blitzortung_srv::service::{GridKind, Service};
use serde_json::Value;

fn from_value(value: &Value) -> Json {
    match value {
        Value::Null => Json::Null,
        Value::Bool(b) => Json::Bool(*b),
        Value::Number(n) => match (n.as_i64(), n.as_u64()) {
            (Some(i), _) => Json::Int(i),
            (None, Some(u)) => Json::UInt(u),
            _ => Json::Float(Real::from_bits(n.as_f64().unwrap().to_bits())),
        },
        Value::String(s) => Json::Text(s.clone()),
        Value::Array(items) => Json::Array(items.iter().map(from_value).collect()),
        Value::Object(fields) => {
            Json::Object(fields.iter().map(|(k, v)| (k.clone(), from_value(v))).collect())
        }
    }
}

fn service() -> Service<Json> {
    Service::new()
}

fn step(service: &mut Service<Json>, request: &mut Request, body: &str) -> Step {
    let value: Option<Value> = serde_json::from_str(body).ok();
    let json = value.as_ref().map(from_value);
    let version = json
        .as_ref()
        .and_then(version_field)
        .and_then(|field| field.parse::<f64>().ok())
        .filter(|v| v.is_finite())
        .map(|v| v.trunc() as i64);
    let part = |name: &str| {
        let part = value.as_ref().and_then(|v| v.get(name)).cloned().unwrap_or(Value::Null);
        serde_json::to_string(&part).unwrap()
    };
    process(service, request, json.as_ref(), version, &part("id"), &part("params"))
}

fn dispatch(service: &mut Service<Json>, request: &mut Request, body: &str) -> Reply {
    match step(service, request, body) {
        Step::Respond(reply) => reply,
        Step::Produce(_, _) => panic!("a grid is wanted"),
    }
}

fn reply(body: &str) -> Reply {
    dispatch(&mut service(), &mut Request::default(), body)
}

fn member<'a>(value: &'a Json, path: &[&str]) -> &'a Json {
    let mut value = value;
    for name in path {
        value = value.get(name).unwrap_or(&Json::Null);
    }
    value
}

fn first(value: &Json) -> &Json {
    match value {
        Json::Array(items) => &items[0],
        _ => panic!("expected an array"),
    }
}

/// A request that passes the validation of the data endpoints.
fn allowed_request() -> Request {
    Request {
        user_agent: Some("bo-android-190".to_string()),
        content_type: Some("text/json".to_string()),
        ..Default::default()
    }
}

#[test]
fn meta_success_records_method_id_and_params() {
    let result = reply(r#"{"method":"check","params":[],"id":7}"#);
    assert_eq!(result.meta.method.as_deref(), Some("check"));
    assert_eq!(result.meta.id, "7");
    assert_eq!(result.meta.params, "[]");
    assert_eq!(result.meta.outcome, Some(Outcome::Success));
    assert!(dispatch_result("{}".to_string(), result.meta).response.is_some());
}

#[test]
fn meta_method_not_found_is_a_fault() {
    let result = reply(r#"{"method":"nope","params":[],"id":1}"#);
    assert_eq!(result.meta.method.as_deref(), Some("nope"));
    assert_eq!(
        result.meta.outcome,
        Some(Outcome::Fault {
            code: METHOD_NOT_FOUND,
            message: "function nope not found".to_string(),
        })
    );
}

#[test]
fn meta_parse_error_is_a_fault_without_method() {
    let result = reply("{not json");
    assert_eq!(result.meta.method, None);
    assert_eq!(
        result.meta.outcome,
        Some(Outcome::Fault {
            code: INVALID_REQUEST,
            message: "parse error".to_string(),
        })
    );
}

#[test]
fn meta_missing_argument_is_a_fault() {
    let result = dispatch(
        &mut service(),
        &mut allowed_request(),
        r#"{"method":"get_strikes_grid","params":[],"id":1}"#,
    );
    assert_eq!(result.meta.method.as_deref(), Some("get_strikes_grid"));
    assert_eq!(
        result.meta.outcome,
        Some(Outcome::Fault {
            code: FAILURE,
            message: "missing 1 required positional argument: 'minute_length'".to_string(),
        })
    );
}

#[test]
fn meta_blocked_request_records_reason() {
    // A missing user agent is forbidden.
    let result = dispatch(
        &mut service(),
        &mut Request {
            content_type: Some("text/json".to_string()),
            ..Default::default()
        },
        r#"{"method":"get_strikes_grid","params":[60,10000,0,1,0],"id":1}"#,
    );
    match result.meta.outcome {
        Some(Outcome::Blocked(reason)) => {
            assert!(reason.contains("invalid user agent"), "reason: {reason}");
        }
        other => panic!("expected Blocked, got {other:?}"),
    }
    // The blocked path still returns the empty grid object.
    assert_eq!(member(&result.response, &["result"]), &Json::empty_object());
}

#[test]
fn meta_params_summary_is_bounded() {
    let big = "x".repeat(1000);
    let body = format!(r#"{{"method":"check","params":["{big}"],"id":1}}"#);
    let result = reply(&body);
    assert!(result.meta.params.chars().count() <= MAX_PARAMS_SUMMARY + 1);
}

#[test]
fn legacy_zero_id_gets_bare_array() {
    let v = reply(r#"{"method":"check","params":[],"id":0}"#).response;
    assert_eq!(member(first(&v), &["count"]), &Json::Int(1));
}

#[test]
fn non_zero_id_gets_v1_object() {
    let v = reply(r#"{"method":"check","params":[],"id":1}"#).response;
    assert!(v.is_object());
    assert_eq!(v.get("id"), Some(&Json::Int(1)));
    assert_eq!(member(&v, &["result", "count"]), &Json::Int(1));
    assert_eq!(v.get("error"), Some(&Json::Null));
}

#[test]
fn explicit_jsonrpc_2_zero_id_gets_v2_object() {
    let v = reply(r#"{"jsonrpc":"2.0","method":"check","params":[],"id":0}"#).response;
    assert!(v.is_object());
    assert_eq!(v.get("jsonrpc"), Some(&Json::text("2.0")));
    assert_eq!(v.get("id"), Some(&Json::Int(0)));
    assert_eq!(member(&v, &["result", "count"]), &Json::Int(1));
}

#[test]
fn missing_id_defaults_to_pre1() {
    let v = reply(r#"{"method":"check","params":[]}"#).response;
    assert_eq!(member(first(&v), &["count"]), &Json::Int(1));
}

#[test]
fn parse_error_returns_legacy_fault() {
    let v = reply("{not json").response;
    assert_eq!(v.get("faultCode"), Some(&Json::Int(INVALID_REQUEST)));
}

#[test]
fn non_object_request_is_invalid() {
    let v = reply("[1, 2]").response;
    assert_eq!(v.get("faultCode"), Some(&Json::Int(INVALID_REQUEST)));
}

#[test]
fn method_not_found() {
    let v = reply(r#"{"jsonrpc":"2.0","id":1,"method":"nope"}"#).response;
    assert_eq!(member(&v, &["error", "code"]), &Json::Int(METHOD_NOT_FOUND));
    assert_eq!(v.get("id"), Some(&Json::Int(1)));
}

#[test]
fn missing_required_param_is_a_fault() {
    let v = reply(r#"{"jsonrpc":"2.0","id":2,"method":"get_strikes_grid"}"#).response;
    assert_eq!(member(&v, &["error", "code"]), &Json::Int(FAILURE));
    assert_eq!(
        member(&v, &["error", "message"]),
        &Json::text("missing 1 required positional argument: 'minute_length'")
    );
}

#[test]
fn params_of_wrong_type_is_invalid_params() {
    // The answer is a bare fault even for a version 2 request.
    let v = reply(r#"{"jsonrpc":"2.0","id":2,"method":"check","params":42}"#).response;
    assert_eq!(v.get("faultCode"), Some(&Json::Int(INVALID_PARAMS)));
    assert!(v.get("id").is_none());
}

#[test]
fn invalid_version_field_is_a_legacy_fault() {
    let v = reply(r#"{"jsonrpc":"abc","id":5,"method":"check","params":[]}"#).response;
    assert_eq!(v.get("faultCode"), Some(&Json::Int(INVALID_REQUEST)));
    assert!(v.get("id").is_none());
}

#[test]
fn explicit_null_required_param_is_not_a_fault() {
    // The parameter is present, so nothing is missing; as no number it is
    // answered with an empty object.
    let v = reply(
        r#"{"jsonrpc":"2.0","id":2,"method":"get_strikes_grid","params":[null,10000,0,1,0]}"#,
    )
    .response;
    assert_eq!(v.get("result"), Some(&Json::empty_object()));
}

#[test]
fn named_params_are_supported() {
    let v = reply(r#"{"jsonrpc":"2.0","id":3,"method":"check","params":{}}"#).response;
    assert_eq!(member(&v, &["result", "count"]), &Json::Int(1));
}

#[test]
fn get_strikes_returns_null_result() {
    let v = reply(r#"{"jsonrpc":"2.0","id":4,"method":"get_strikes","params":[60,0]}"#).response;
    assert_eq!(v.get("result"), Some(&Json::Null));
}

#[test]
fn blocked_data_request_pre1_returns_bare_empty_dict() {
    let v = reply(r#"{"method":"get_strikes_grid","params":[60,10000,0,1,0],"id":0}"#).response;
    assert_eq!(first(&v), &Json::empty_object());
}

#[test]
fn an_allowed_request_asks_for_its_grid() {
    let mut service = service();
    let mut request = allowed_request();
    let body = r#"{"jsonrpc":"2.0","id":9,"method":"get_strikes_grid","params":[30,10000,0,2,0]}"#;
    match step(&mut service, &mut request, body) {
        Step::Produce(grid, pending) => {
            assert_eq!(grid.kind, GridKind::Region { region: 2 });
            assert_eq!(grid.minute_length, 30);
            let result = Json::empty_object().with("r", Json::array(vec![]));
            let reply = pending.finish(&request, &result);
            assert_eq!(member(&reply.response, &["result"]), &result);
            assert_eq!(reply.response.get("id"), Some(&Json::Int(9)));
            assert_eq!(reply.meta.outcome, Some(Outcome::Success));
        }
        Step::Respond(reply) => panic!("answered at once: {:?}", reply.response),
    }
}

#[test]
fn named_and_positional_params_ask_for_the_same() {
    let grid = |params: &str| {
        let body =
            format!(r#"{{"jsonrpc":"2.0","id":1,"method":"get_local_strikes_grid","params":{params}}}"#);
        match step(&mut service(), &mut allowed_request(), &body) {
            Step::Produce(grid, _) => grid,
            Step::Respond(reply) => panic!("answered at once: {:?}", reply.response),
        }
    };
    let named = grid(
        r#"{"y":4,"x":3,"grid_base_length":5000,"minute_length":20,"minute_offset":-5,
            "count_threshold":2,"data_area":7}"#,
    );
    assert_eq!(named, grid("[3,4,5000,20,-5,2,7]"));
    assert_eq!(named.kind, GridKind::Local { x: 3, y: 4, data_area: 7 });
}

#[test]
fn methods_have_parameters_and_defaults() {
    assert_eq!(find_method("check"), Some(Method::Check));
    assert_eq!(find_method("get_strokes_raster"), find_method("get_strikes_raster"));
    assert_eq!(find_method("other"), None);
    assert!(method_spec("other").is_none());
    let spec = method_spec("get_strikes").unwrap();
    assert_eq!(spec, vec![("minute_length", true), ("id_or_offset", false)]);
    assert_eq!(method_defaults(Method::GetStrikes).len(), spec.len());
    assert!(matches!(
        resolve_args(Method::GetStrikes, &Json::Int(1)),
        Err(ArgError::InvalidParamsType)
    ));
    assert!(matches!(
        resolve_args(Method::GetStrikes, &Json::array(vec![])),
        Err(ArgError::MissingRequired("minute_length"))
    ));
    let args = resolve_args(Method::GetStrikes, &Json::array(vec![Json::Int(5)])).unwrap();
    assert_eq!(args[0], Json::Int(5));
}

#[test]
fn ids_and_outcomes_have_texts() {
    assert_eq!(render_id(&Json::Int(7), "7"), "7");
    assert_eq!(Outcome::Success.label(), "ok");
    assert_eq!(RequestMeta::default().outcome, None);
    let result = dispatch_result("{}".to_string(), RequestMeta::default());
    assert_eq!(result.expect_response(), "{}");
}

#[test]
fn access_lines_show_method_client_and_outcome() {
    let request = Request {
        user_agent: Some("bo-android-190".to_string()),
        client_ip: Some("127.0.0.1".to_string()),
        ..Default::default()
    };
    let meta = |method: Option<&str>, params: &str, id: &str, outcome: Option<Outcome>| RequestMeta {
        method: method.map(|m| m.to_string()),
        id: id.to_string(),
        params: params.to_string(),
        outcome,
    };
    let served = meta(Some("get_strikes_grid"), "{\"minute_length\":60}", "1", Some(Outcome::Success));
    assert!(!served.is_warning());
    assert_eq!(
        served.access_line(&request, "17.5"),
        "get_strikes_grid({\"minute_length\":60}) id=1 client=127.0.0.1 ua=bo-android-190 17.5ms"
    );
    let fault = Outcome::Fault { code: -32601, message: "function nope not found".to_string() };
    let failed = meta(Some("nope"), "[]", "3", Some(fault));
    assert!(!failed.is_warning());
    assert_eq!(
        failed.access_line(&request, "0.0"),
        "nope([]) fault -32601 \"function nope not found\" id=3 client=127.0.0.1 ua=bo-android-190 0.0ms"
    );
    let other = Request { user_agent: Some("Mozilla/5.0".to_string()), ..request };
    let reason = Outcome::Blocked("invalid user agent \"Mozilla/5.0\"".to_string());
    let refused = meta(Some("get_strikes_grid"), "...", "2", Some(reason));
    assert!(refused.is_warning());
    assert_eq!(
        refused.access_line(&other, "0.1"),
        "get_strikes_grid(...) BLOCKED (invalid user agent \"Mozilla/5.0\") id=2 client=127.0.0.1 ua=Mozilla/5.0 0.1ms"
    );
    let blank = RequestMeta::default();
    assert_eq!(blank.access_line(&Request::default(), "1"), "-() id= client=- ua=- 1ms");
}

#[test]
fn a_missing_method_is_a_bare_fault() {
    let answer = reply(r#"{"jsonrpc":"2.0","id":5,"params":[]}"#);
    assert_eq!(member(&answer.response, &["faultCode"]), &Json::Int(INVALID_REQUEST));
    assert_eq!(
        member(&answer.response, &["faultString"]),
        &Json::text("Invalid Request: missing method")
    );
    assert!(answer.response.get("id").is_none());
    assert_eq!(answer.meta.method, None);
    assert_eq!(answer.meta.id, "5");
}

#[test]
fn falsy_ids_select_the_bare_array() {
    for id in ["0", "0.0", "-0.0", "null", "false", "\"\"", "[]", "{}"] {
        let result = reply(&format!(r#"{{"method":"check","params":[],"id":{id}}}"#));
        assert!(matches!(result.response, Json::Array(_)), "id {id}");
    }
    for id in ["1", "0.5", "-1e-9", "true", "\"0\"", "[0]", "{\"a\":0}"] {
        let result = reply(&format!(r#"{{"method":"check","params":[],"id":{id}}}"#));
        assert!(matches!(result.response, Json::Object(_)), "id {id}");
    }
}

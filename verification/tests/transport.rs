use engram::json::Json;
use engram::mcp::http::{
    self, check_body, check_head, finish, validate_http_config, Body, HttpAdmission, HttpAnswer,
    HttpConfigError,
};
use engram::mcp::server::{read_line, LineStep, McpServer, Step};
use engram::mcp::transport::{
    decide, read_frame, worker_count, Admission, Frame, JsonRpcRequest, JsonRpcResponse,
};

fn value(j: &Json) -> serde_json::Value {
    serde_json::from_str(&j.print()).unwrap()
}

fn copy(j: &Json) -> Json {
    Json::parse(&j.print()).unwrap()
}

/// Read a document as a request.
fn typed(v: &Json) -> Result<JsonRpcRequest, String> {
    let field = |name: &str| match v.get(name) {
        Some(Json::Str(s)) => Ok(s.clone()),
        Some(_) => Err(format!("invalid type: {name}, expected a string")),
        None => Err(format!("missing field `{name}`")),
    };
    let optional = |name: &str| match v.get(name) {
        Some(Json::Null) | None => None,
        Some(j) => Some(copy(j)),
    };
    Ok(JsonRpcRequest {
        jsonrpc: field("jsonrpc")?,
        id: optional("id"),
        method: field("method")?,
        params: optional("params"),
    })
}

fn response_value(r: &JsonRpcResponse) -> serde_json::Value {
    let mut m = serde_json::Map::new();
    let shown = |j: &Option<Json>| match j {
        Some(j) => value(j),
        None => serde_json::Value::Null,
    };
    m.insert("id".into(), shown(&r.id));
    if let Some(result) = &r.result {
        m.insert("result".into(), value(result));
    }
    if let Some(e) = &r.error {
        let mut error = serde_json::Map::new();
        error.insert("code".into(), e.code.into());
        error.insert("message".into(), e.message.clone().into());
        if let Some(data) = &e.data {
            error.insert("data".into(), value(data));
        }
        m.insert("error".into(), serde_json::Value::Object(error));
    }
    serde_json::Value::Object(m)
}

/// A handler that gives up on "boom" and echoes the method otherwise.
fn handle(q: JsonRpcRequest) -> JsonRpcResponse {
    if q.method == "boom" {
        return JsonRpcResponse::panicked(q.id, "intentional test panic");
    }
    let echo = Json::object(vec![("echo".to_string(), Json::text(q.method))]);
    JsonRpcResponse::success(q.id, echo)
}

fn drive(input: &str) -> Vec<serde_json::Value> {
    let fast_path = vec!["ping".to_string()];
    let mut inline = vec![];
    let mut queue = vec![];
    for line in input.lines() {
        match read_frame(line) {
            Frame::Skip => {}
            Frame::Reply(r) => inline.push(r),
            Frame::Parsed(v) => {
                let q = typed(&v);
                match decide(v, q, &fast_path) {
                    Admission::Reply(r) => inline.push(r),
                    Admission::Ignore => {}
                    Admission::Inline(q) => inline.push(handle(q)),
                    Admission::Queue(q) => queue.push(q),
                }
            }
        }
    }
    inline.extend(queue.into_iter().map(handle));
    inline.iter().map(response_value).collect()
}

#[test]
fn responses_come_back_id_correlated() {
    let input = "{\"jsonrpc\":\"2.0\",\"id\":1,\"method\":\"tools/list\"}\n{\"jsonrpc\":\"2.0\",\"id\":2,\"method\":\"ping\"}\n{\"jsonrpc\":\"2.0\",\"id\":\"abc\",\"method\":\"other\"}\n";
    let responses = drive(input);
    assert_eq!(responses.len(), 3);
    let ids: Vec<serde_json::Value> = responses.iter().map(|r| r["id"].clone()).collect();
    assert!(ids.contains(&serde_json::Value::from(1)));
    assert!(ids.contains(&serde_json::Value::from(2)));
    assert!(ids.contains(&serde_json::Value::from("abc")));
    assert!(responses.iter().all(|r| r.get("error").is_none()));
}

#[test]
fn notifications_get_no_response() {
    let input = "{\"jsonrpc\":\"2.0\",\"method\":\"notifications/initialized\"}\n{\"jsonrpc\":\"2.0\",\"id\":7,\"method\":\"ping\"}\n";
    let responses = drive(input);
    assert_eq!(responses.len(), 1, "only the request with an id replies");
    assert_eq!(responses[0]["id"], 7);
}

#[test]
fn malformed_json_is_parse_error_with_null_id() {
    let responses = drive("this is not json\n");
    assert_eq!(responses.len(), 1);
    assert_eq!(responses[0]["error"]["code"], -32700);
    assert!(responses[0]["id"].is_null());
}

#[test]
fn valid_json_non_compliant_request_is_invalid_request() {
    let responses = drive(r#"{"jsonrpc":"2.0","id":1,"method":42}"#);
    assert_eq!(responses.len(), 1);
    assert_eq!(responses[0]["error"]["code"], -32600);
    assert_eq!(responses[0]["id"], 1);
}

#[test]
fn wrong_jsonrpc_version_is_rejected() {
    let responses = drive(r#"{"jsonrpc":"1.0","id":2,"method":"ping"}"#);
    assert_eq!(responses.len(), 1);
    assert_eq!(responses[0]["error"]["code"], -32600);
    assert!(responses[0]["error"]["message"]
        .as_str()
        .unwrap()
        .contains("2.0"));
    assert_eq!(
        responses[0]["error"]["message"],
        "Invalid Request: jsonrpc must be \"2.0\", got \"1.0\""
    );
}

#[test]
fn panicking_request_returns_internal_error_not_crash() {
    let responses = drive(r#"{"jsonrpc":"2.0","id":9,"method":"boom"}"#);
    assert_eq!(responses.len(), 1);
    assert_eq!(responses[0]["error"]["code"], -32603);
    assert!(responses[0]["error"]["data"]["panic"]
        .as_str()
        .unwrap()
        .contains("intentional"));
}

#[test]
fn oversized_frame_is_rejected_without_parsing() {
    let huge = format!(
        r#"{{"jsonrpc":"2.0","id":1,"method":"ping","pad":"{}"}}"#,
        "x".repeat(17 * 1024 * 1024)
    );
    let responses = drive(&huge);
    assert_eq!(responses.len(), 1);
    assert_eq!(responses[0]["error"]["code"], -32700);
    assert!(responses[0]["error"]["message"]
        .as_str()
        .unwrap()
        .contains("too large"));
}

#[test]
fn multiple_workers_all_respond() {
    let mut input = String::new();
    for i in 0..20 {
        input.push_str(&format!(
            "{{\"jsonrpc\":\"2.0\",\"id\":{i},\"method\":\"m{i}\"}}\n"
        ));
    }
    assert_eq!(worker_count(4), 4);
    assert_eq!(worker_count(0), 1);
    let responses = drive(&input);
    assert_eq!(responses.len(), 20);
}

#[test]
fn blank_lines_are_skipped() {
    assert!(matches!(read_frame("  \n"), Frame::Skip));
}

// ---------------------------------------------------------------------------
// HTTP
// ---------------------------------------------------------------------------

fn post(token: &str, body: &str) -> (u16, String) {
    let headers = vec![
        ("host".to_string(), "t".to_string()),
        ("AUTHORIZATION".to_string(), format!("Bearer {token}")),
    ];
    let answer = match check_head(&headers, true, "test-token") {
        Some(a) => a,
        None => match check_body(Some(body.as_bytes().to_vec())) {
            Body::Refuse(a) => a,
            Body::Parsed(v) => {
                let q = typed(&v);
                match http::decide(v, q) {
                    HttpAdmission::Answer(a) => a,
                    HttpAdmission::Handle(q) => {
                        let server = McpServer::new(String::new());
                        match server.handle_request(q) {
                            Step::Respond(r) => finish(None, Some(r)),
                            Step::Call { id, .. } => finish(id, None),
                        }
                    }
                }
            }
        },
    };
    match answer {
        HttpAnswer::Plain { status, body, .. } => (status, body.to_string()),
        HttpAnswer::Rpc { status, response } => (status, response_value(&response).to_string()),
    }
}

#[test]
fn http_roundtrip_ping_and_auth() {
    let (code, body) = post(
        "test-token",
        r#"{"jsonrpc":"2.0","id":1,"method":"tools/list"}"#,
    );
    assert_eq!(code, 200, "body: {body}");
    let v: serde_json::Value = serde_json::from_str(&body).unwrap();
    assert!(v["result"]["tools"].is_array());

    let (code, _) = post(
        "wrong-token",
        r#"{"jsonrpc":"2.0","id":2,"method":"tools/list"}"#,
    );
    assert_eq!(code, 401);
}

#[test]
fn http_notification_is_202_and_bad_json_is_400() {
    let (code, _) = post(
        "test-token",
        r#"{"jsonrpc":"2.0","method":"notifications/initialized"}"#,
    );
    assert_eq!(code, 202);

    let (code, body) = post("test-token", "not json at all");
    assert_eq!(code, 400);
    assert!(body.contains("-32700"));
}

#[test]
fn http_config_requires_token_when_enabled() {
    assert!(validate_http_config(true, "127.0.0.1:8742", "").is_err());
    assert!(validate_http_config(true, "127.0.0.1:8742", "secret").is_ok());
    assert!(validate_http_config(false, "", "").is_ok());
}

#[test]
fn http_refusals_have_their_codes() {
    let headers = vec![("Authorization".to_string(), "Bearer t".to_string())];
    match check_head(&headers, false, "t") {
        Some(HttpAnswer::Plain { status, .. }) => assert_eq!(status, 405),
        other => panic!("{other:?}"),
    }
    match check_body(None) {
        Body::Refuse(HttpAnswer::Plain { status, .. }) => assert_eq!(status, 400),
        other => panic!("{other:?}"),
    }
    match check_body(Some(vec![b' '; http::MAX_BODY_BYTES + 1])) {
        Body::Refuse(HttpAnswer::Plain { status, .. }) => assert_eq!(status, 413),
        other => panic!("{other:?}"),
    }
    let (code, body) = post("test-token", r#"{"jsonrpc":"2.0","id":3}"#);
    assert_eq!(code, 400);
    assert!(body.contains("-32600"));
    let (code, body) = post(
        "test-token",
        r#"{"jsonrpc":"2.0","id":3,"method":"tools/call","params":{"name":"timeline"}}"#,
    );
    assert_eq!(code, 200);
    assert!(body.contains("-32603"));
    assert_eq!(
        validate_http_config(true, " ", "secret"),
        Err(HttpConfigError::EmptyBind)
    );
    assert!(HttpConfigError::EmptyToken.message().contains("auth_token"));
}

// ---------------------------------------------------------------------------
// Lines
// ---------------------------------------------------------------------------

#[test]
fn lines_without_an_id_are_notifications() {
    let q = |line: &str| match Json::parse(line) {
        Ok(v) => typed(&v),
        Err(e) => Err(e),
    };
    let line = r#"{"jsonrpc":"2.0","method":"x"}"#;
    assert!(matches!(read_line(line, q(line)), LineStep::Skip));
    let line = r#"{"jsonrpc":"2.0","id":1,"method":"x"}"#;
    assert!(matches!(read_line(line, q(line)), LineStep::Queue(_)));
    let line = "nonsense";
    match read_line(line, q(line)) {
        LineStep::Reply(r) => {
            assert_eq!(r.error.unwrap().code, -32700);
            assert!(r.id.is_none());
        }
        other => panic!("{other:?}"),
    }
    assert!(matches!(
        read_line("   ", Err("empty".to_string())),
        LineStep::Skip
    ));
}

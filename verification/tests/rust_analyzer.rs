use semcode::rust_analyzer::{
    close_request, frame_message, open_reply, timeout_message, HeaderReader, JsonRpcNotification,
    JsonRpcRequest, PendingRequests, ReadStep, RustAnalyzer, StartStep,
};
use serde_json::Value;

#[test]
fn test_frame_message_has_content_length_and_separator() {
    let payload = r#"{"jsonrpc":"2.0"}"#;
    let framed = frame_message(payload);
    assert_eq!(
        framed,
        format!("Content-Length: {}\r\n\r\n{}", payload.len(), payload)
    );
    // Header and body are separated by a blank line.
    let (header, body) = framed.split_once("\r\n\r\n").expect("missing separator");
    assert_eq!(header, format!("Content-Length: {}", payload.len()));
    assert_eq!(body, payload);
}

#[test]
fn test_request_serializes_with_id_and_jsonrpc() {
    let req = JsonRpcRequest {
        jsonrpc: "2.0".to_string(),
        id: 7,
        method: "workspace/symbol".to_string(),
        params: r#"{"query":"foo"}"#.to_string(),
    };
    let v: Value = serde_json::from_str(&req.to_json()).unwrap();
    assert_eq!(v["jsonrpc"], "2.0");
    assert_eq!(v["id"], 7);
    assert_eq!(v["method"], "workspace/symbol");
    assert_eq!(v["params"]["query"], "foo");
}

#[test]
fn test_notification_serializes_without_id() {
    let notif = JsonRpcNotification {
        jsonrpc: "2.0".to_string(),
        method: "initialized".to_string(),
        params: "{}".to_string(),
    };
    let v: Value = serde_json::from_str(&notif.to_json()).unwrap();
    assert_eq!(v["jsonrpc"], "2.0");
    assert_eq!(v["method"], "initialized");
    assert!(v.get("id").is_none(), "notifications must not carry an id");
}

#[test]
fn frame_counts_bytes() {
    assert_eq!(frame_message("é"), "Content-Length: 2\r\n\r\né");
    assert_eq!(frame_message(""), "Content-Length: 0\r\n\r\n");
}

fn told(step: ReadStep) -> HeaderReader {
    match step {
        ReadStep::Line(reader) => reader,
        ReadStep::Body(length) => panic!("a body of {} bytes", length),
    }
}

#[test]
fn header_is_read_back() {
    let framed = frame_message("{\"id\":1}");
    let (header, _) = framed.split_once("\r\n\r\n").unwrap();
    let reader = told(HeaderReader::new().line(&format!("{}\r\n", header)));
    assert!(matches!(reader.line("\r\n"), ReadStep::Body(8)));
}

#[test]
fn header_lines_that_tell_no_length_are_skipped() {
    let reader = told(HeaderReader::new().line("Content-Type: text\r\n"));
    let reader = told(reader.line("Content-Length: many\r\n"));
    let reader = told(reader.line("Content-Length: 12\r\n"));
    let reader = told(reader.line("Content-Length: \r\n"));
    assert!(matches!(reader.line("\n"), ReadStep::Body(12)));
}

#[test]
fn the_last_length_counts_and_the_prefix_may_repeat() {
    let reader = told(HeaderReader::new().line("Content-Length: 5\r\n"));
    let reader = told(reader.line("Content-Length: Content-Length: +9 \r\n"));
    assert!(matches!(reader.line("\r\n"), ReadStep::Body(9)));
}

#[test]
fn a_header_without_length_is_followed_by_another() {
    let reader = told(HeaderReader::new().line("\r\n"));
    let reader = told(reader.line("Content-Length: 0\r\n"));
    let reader = told(reader.line("\r\n"));
    let reader = told(reader.line("Content-Length: 3\r\n"));
    assert!(matches!(reader.line("\r\n"), ReadStep::Body(3)));
}

#[test]
fn requests_have_ids_from_one_on() {
    let mut client = RustAnalyzer::new();
    let (first, _) = client.start(42, "/work \"tree\"");
    assert_eq!(first.id, 1);
    assert_eq!(first.method, "initialize");
    let v: Value = serde_json::from_str(&first.to_json()).unwrap();
    assert_eq!(v["params"]["processId"], 42);
    assert_eq!(v["params"]["rootUri"], "file:///work \"tree\"");
    assert_eq!(
        v["params"]["capabilities"]["workspace"]["workspaceFolders"],
        true
    );
    assert_eq!(
        v["params"]["capabilities"]["workspace"]["symbol"]["dynamicRegistration"],
        true
    );
    assert_eq!(
        v["params"]["capabilities"]["textDocument"]["documentSymbol"]
            ["hierarchicalDocumentSymbolSupport"],
        true
    );
    let second = client.workspace_symbol("foo\n");
    assert_eq!(second.id, 2);
    assert_eq!(second.params, "{\"query\":\"foo\\n\"}");
    assert_eq!(
        second.to_json(),
        "{\"jsonrpc\":\"2.0\",\"id\":2,\"method\":\"workspace/symbol\",\"params\":{\"query\":\"foo\\n\"}}"
    );
}

#[test]
fn a_reply_finds_its_request_once() {
    let mut client = RustAnalyzer::new();
    let mut pending = PendingRequests::new();
    let first = client.send_request("a", "{}".to_string());
    let second = client.send_request("b", "{}".to_string());
    let message = pending.send(&first, 10);
    assert_eq!(message, frame_message(&first.to_json()));
    pending.send(&second, 20);
    assert_eq!(pending.receive("{\"id\":2,\"result\":1}"), Some(20));
    assert_eq!(pending.receive("{\"id\":2,\"result\":1}"), None);
    assert_eq!(pending.receive("{\"method\":\"progress\"}"), None);
    assert_eq!(pending.receive("{\"id\":\"1\"}"), None);
    assert_eq!(pending.receive("no json"), None);
    assert_eq!(pending.receive("{\"id\":1}"), Some(10));
}

#[test]
fn a_request_that_was_not_sent_is_not_answered() {
    let mut client = RustAnalyzer::new();
    let mut pending = PendingRequests::new();
    let request = client.send_request("a", "{}".to_string());
    pending.send(&request, 10);
    pending.cancel(request.id);
    assert_eq!(pending.receive("{\"id\":1}"), None);
}

#[test]
fn bytes_that_are_no_text_are_dropped() {
    let mut client = RustAnalyzer::new();
    let mut pending = PendingRequests::new();
    let request = client.send_request("a", "{}".to_string());
    pending.send(&request, 10);
    assert_eq!(pending.receive_bytes(vec![0xff, 0xfe]), None);
    assert_eq!(
        pending.receive_bytes("{\"id\":1,\"x\":\"é\"}".as_bytes().to_vec()),
        Some((10, "{\"id\":1,\"x\":\"é\"}".to_string()))
    );
}

#[test]
fn replies_are_opened() {
    assert_eq!(
        open_reply("{\"id\":1,\"result\":{\"b\":2,\"a\":[1, 2]}}"),
        Ok("{\"a\":[1,2],\"b\":2}".to_string())
    );
    assert_eq!(open_reply("{\"id\":1}"), Ok("null".to_string()));
    assert_eq!(
        open_reply("{\"id\":1,\"error\":{\"code\":-1},\"result\":3}"),
        Err("rust-analyzer error: {\"code\":-1}".to_string())
    );
}

#[test]
fn a_late_reply_has_a_message() {
    assert_eq!(
        timeout_message("workspace/symbol"),
        "rust-analyzer request 'workspace/symbol' timed out after 30s"
    );
}

#[test]
fn a_client_goes_on_after_a_result_only() {
    let start = || RustAnalyzer::new().start(42, "/work").1;
    match start().reply(Some(r#"{"jsonrpc":"2.0","id":1,"result":{"capabilities":{}}}"#)) {
        StartStep::Notify(notification) => {
            assert_eq!(notification.jsonrpc, "2.0");
            assert_eq!(notification.method, "initialized");
            assert_eq!(notification.params, "{}");
        }
        StartStep::Failed(message) => panic!("{message}"),
    }
    match start().reply(Some(r#"{"jsonrpc":"2.0","id":1,"error":{"code":-1}}"#)) {
        StartStep::Notify(_) => panic!("went on after an error"),
        StartStep::Failed(message) => {
            assert_eq!(message, "rust-analyzer error: {\"code\":-1}");
        }
    }
    match start().reply(None) {
        StartStep::Notify(_) => panic!("went on without a reply"),
        StartStep::Failed(message) => {
            assert_eq!(message, "rust-analyzer request 'initialize' timed out after 30s");
        }
    }
}

#[test]
fn a_request_comes_to_its_reply() {
    assert_eq!(close_request("m", Some(r#"{"id":1,"result":[1]}"#)), Ok("[1]".to_string()));
    assert_eq!(close_request("m", Some(r#"{"id":1}"#)), Ok("null".to_string()));
    assert_eq!(
        close_request("workspace/symbol", None),
        Err("rust-analyzer request 'workspace/symbol' timed out after 30s".to_string())
    );
}

#[test]
fn texts_are_quoted_as_json() {
    let query = "a\"b\\c\u{8}\t\n\u{c}\r\u{1}\u{1f}\u{7f}/\u{e9}";
    assert_eq!(
        RustAnalyzer::new().workspace_symbol(query).params,
        "{\"query\":\"a\\\"b\\\\c\\b\\t\\n\\f\\r\\u0001\\u001f\u{7f}/\u{e9}\"}"
    );
}

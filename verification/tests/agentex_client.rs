use sgp_proxy::agentex_client::stream_refused;
use sgp_proxy::agentex_client::AgentexClient;
use sgp_proxy::error::AgentexError;
use sgp_proxy::translate::types::JsonRpcError;
use sgp_proxy::translate::types::JsonRpcResponse;
use sgp_proxy::translate::types::MessageSendParams;
use sgp_proxy::translate::types::MessageSendResult;
use sgp_proxy::translate::types::Task;
use sgp_proxy::translate::types::TaskMessageContent;

fn client(base_url: &str, auth_header: &str, account_id: Option<&str>) -> AgentexClient {
    AgentexClient::new(
        base_url.to_string(),
        "my-agent".to_string(),
        auth_header,
        account_id.map(String::from),
    )
}

fn params() -> MessageSendParams {
    MessageSendParams {
        task_id: Some("t".to_string()),
        task_name: None,
        content: TaskMessageContent::Reasoning {
            author: "user".to_string(),
            summary: vec!["s".to_string()],
            content: None,
        },
        stream: Some(false),
        task_params: None,
    }
}

fn refusal() -> Option<JsonRpcError> {
    Some(JsonRpcError { code: -32601, message: "no such method".to_string() })
}

fn assert_is_uuid_v4(id: &str) {
    assert_eq!(id.len(), 36);
    for (i, c) in id.chars().enumerate() {
        match i {
            8 | 13 | 18 | 23 => assert_eq!(c, '-'),
            14 => assert_eq!(c, '4'),
            19 => assert!("89ab".contains(c)),
            _ => assert!("0123456789abcdef".contains(c)),
        }
    }
}

#[test]
fn calls_go_to_the_agent_by_name() {
    assert_eq!(
        client("https://host/api", "k", None).rpc_url(),
        "https://host/api/agents/name/my-agent/rpc"
    );
}

#[test]
fn trailing_slashes_make_no_difference() {
    let url = client("https://host", "k", None).rpc_url();
    assert_eq!(client("https://host/", "k", None).rpc_url(), url);
    assert_eq!(client("https://host///", "k", None).rpc_url(), url);
    assert_eq!(client("//", "k", None).rpc_url(), "/agents/name/my-agent/rpc");
}

#[test]
fn bearer_makes_no_difference() {
    for (auth_header, key) in [
        ("Bearer SECRET", "SECRET"),
        ("SECRET", "SECRET"),
        ("bearer SECRET", "bearer SECRET"),
        ("Bearer Bearer SECRET", "Bearer SECRET"),
        ("Bearer ", ""),
    ] {
        let header = client("h", auth_header, None).api_key_value();
        assert_eq!(header.name, "x-api-key");
        assert_eq!(header.value, key);
        assert!(header.sensitive);
    }
}

#[test]
fn account_is_selected_where_there_is_one() {
    let headers = client("h", "Bearer k", None).auth_headers();
    assert_eq!(headers.len(), 1);
    assert_eq!((headers[0].name, headers[0].value.as_str()), ("x-api-key", "k"));
    assert!(headers[0].sensitive);

    let headers = client("h", "Bearer k", Some("acct")).auth_headers();
    assert_eq!(headers.len(), 2);
    assert_eq!((headers[0].name, headers[0].value.as_str()), ("x-api-key", "k"));
    assert_eq!((headers[1].name, headers[1].value.as_str()), ("x-selected-account-id", "acct"));
    assert!(!headers[1].sensitive);
}

#[test]
fn stream_is_asked_for_line_by_line() {
    let headers = client("h", "Bearer k", Some("acct")).stream_headers();
    let headers: Vec<(&str, &str, bool)> =
        headers.iter().map(|h| (h.name, h.value.as_str(), h.sensitive)).collect();
    assert_eq!(
        headers,
        vec![
            ("x-api-key", "k", true),
            ("x-selected-account-id", "acct", false),
            ("accept", "application/x-ndjson", false),
        ]
    );
}

#[test]
fn task_is_created_by_name() {
    let call = AgentexClient::task_create_call("id-1".to_string(), "my-task");
    assert_eq!(call.jsonrpc, "2.0");
    assert_eq!(call.id, "id-1");
    assert_eq!(call.method, "task/create");
    assert_eq!(call.params.name.as_deref(), Some("my-task"));
    assert!(call.params.params.is_none());
}

#[test]
fn message_is_sent_with_its_parameters() {
    let call = AgentexClient::message_send_call("id-1".to_string(), params());
    assert_eq!(call.jsonrpc, "2.0");
    assert_eq!(call.id, "id-1");
    assert_eq!(call.method, "message/send");
    assert_eq!(call.params.task_id.as_deref(), Some("t"));
    assert_eq!(call.params.stream, Some(false));
}

#[test]
fn calls_have_fresh_ids() {
    let first = AgentexClient::task_create_request("a");
    let second = AgentexClient::message_send_request(params());
    assert_is_uuid_v4(&first.id);
    assert_is_uuid_v4(&second.id);
    assert_ne!(first.id, second.id);
    assert_eq!(first.method, "task/create");
    assert_eq!(second.method, "message/send");
    assert_eq!(first.params.name.as_deref(), Some("a"));
    assert_eq!(second.params.task_id.as_deref(), Some("t"));
}

#[test]
fn task_reply_is_the_id() {
    let reply = |result: Option<Task>, error: Option<JsonRpcError>| {
        AgentexClient::task_create_reply(JsonRpcResponse { jsonrpc: None, id: None, result, error })
    };
    let task = || Some(Task { id: "task-7".to_string(), name: None, status: None });
    assert_eq!(reply(task(), None).unwrap(), "task-7");
    match reply(task(), refusal()) {
        Err(AgentexError::Rpc { code, message }) => {
            assert_eq!((code, message.as_str()), (-32601, "no such method"))
        }
        _ => panic!("expected an RPC error"),
    }
    match reply(None, None) {
        Err(AgentexError::Parse(message)) => {
            assert_eq!(message, "missing result in task/create response")
        }
        _ => panic!("expected a parse error"),
    }
}

#[test]
fn message_reply_is_the_result() {
    let reply = |result: Option<MessageSendResult>, error: Option<JsonRpcError>| {
        AgentexClient::message_send_reply(JsonRpcResponse { jsonrpc: None, id: None, result, error })
    };
    let result = || Some(MessageSendResult { task: None, content: None, contents: Some(vec![]) });
    assert_eq!(reply(result(), None).unwrap().contents.unwrap().len(), 0);
    match reply(result(), refusal()) {
        Err(AgentexError::Rpc { code, message }) => {
            assert_eq!((code, message.as_str()), (-32601, "no such method"))
        }
        _ => panic!("expected an RPC error"),
    }
    match reply(None, None) {
        Err(AgentexError::Parse(message)) => {
            assert_eq!(message, "missing result in message/send response")
        }
        _ => panic!("expected a parse error"),
    }
}

#[test]
fn stream_is_refused_without_success() {
    for status in [200, 204, 299] {
        assert!(AgentexClient::is_stream(status));
        assert!(AgentexClient::stream_reply(status, "").is_ok());
    }
    for (status, message) in [
        (404, "HTTP 404 Not Found: gone"),
        (500, "HTTP 500 Internal Server Error: gone"),
        (199, "HTTP 199 <unknown status code>: gone"),
        (301, "HTTP 301 Moved Permanently: gone"),
    ] {
        assert!(!AgentexClient::is_stream(status));
        match AgentexClient::stream_reply(status, "gone") {
            Err(AgentexError::Stream(text)) => assert_eq!(text, message),
            _ => panic!("expected a stream error"),
        }
    }
    match stream_refused("418 I'm a teapot", "short") {
        AgentexError::Stream(text) => assert_eq!(text, "HTTP 418 I'm a teapot: short"),
        _ => panic!("expected a stream error"),
    }
}

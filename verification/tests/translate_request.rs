use sgp_proxy::error::ProxyError;
use sgp_proxy::json::Json;
use sgp_proxy::translate::request::function_call_output;
use sgp_proxy::translate::request::translate_request;
use sgp_proxy::translate::types::MessageSendParams;
use sgp_proxy::translate::types::TaskMessageContent;

fn object(members: Vec<(&str, Json)>) -> Json {
    Json::Object(members.into_iter().map(|(name, value)| (name.to_string(), value)).collect())
}

fn text(s: &str) -> Json {
    Json::String(s.to_string())
}

fn message(role: &str, kind: &str, content: &str) -> Json {
    object(vec![
        ("type", text("message")),
        ("role", text(role)),
        ("content", Json::Array(vec![object(vec![("type", text(kind)), ("text", text(content))])])),
    ])
}

fn function_call(name: &str, call_id: &str, arguments: &str) -> Json {
    object(vec![
        ("type", text("function_call")),
        ("call_id", text(call_id)),
        ("name", text(name)),
        ("arguments", text(arguments)),
    ])
}

fn output_of(call_id: &str, output: Json) -> Json {
    object(vec![
        ("type", text("function_call_output")),
        ("call_id", text(call_id)),
        ("output", output),
    ])
}

fn reasoning(lines: Vec<&str>) -> Json {
    object(vec![
        ("type", text("reasoning")),
        ("summary", Json::Array(lines.into_iter().map(|l| object(vec![("text", text(l))])).collect())),
    ])
}

fn input(items: Vec<Json>) -> Json {
    object(vec![("input", Json::Array(items))])
}

fn sent_text(params: &MessageSendParams) -> &str {
    match &params.content {
        TaskMessageContent::Text { content, .. } => content,
        _ => panic!("expected Text content"),
    }
}

fn sent_output(params: &MessageSendParams) -> (&str, &Json) {
    match &params.content {
        TaskMessageContent::ToolResponse { tool_call_id, content, .. } => (tool_call_id, content),
        _ => panic!("expected ToolResponse content"),
    }
}

#[test]
fn test_translate_simple_user_message() {
    let body = object(vec![
        ("instructions", text("You are a helpful assistant.")),
        ("input", Json::Array(vec![message("user", "input_text", "Hello")])),
        ("stream", Json::Bool(true)),
    ]);

    let params = translate_request(&body, true, Some("task-1"), None).unwrap();
    assert_eq!(params.task_id.as_deref(), Some("task-1"));
    assert_eq!(params.stream, Some(true));
    match &params.content {
        TaskMessageContent::Text { content, author, .. } => {
            assert_eq!(author, "user");
            assert!(content.contains("Hello"));
            assert!(content.contains("[System Instructions]"));
        }
        _ => panic!("expected Text content"),
    }
}

#[test]
fn test_translate_no_instructions_on_subsequent_turn() {
    let body = object(vec![
        ("instructions", text("You are a helpful assistant.")),
        ("input", Json::Array(vec![message("user", "input_text", "Hello")])),
    ]);

    let params = translate_request(&body, false, Some("task-1"), None).unwrap();
    match &params.content {
        TaskMessageContent::Text { content, .. } => {
            assert!(!content.contains("[System Instructions]"));
            assert_eq!(content, "Hello");
        }
        _ => panic!("expected Text content"),
    }
}

#[test]
fn test_translate_function_call_output() {
    let body = input(vec![
        function_call("read_file", "call_1", "{\"path\":\"/tmp/foo\"}"),
        output_of("call_1", text("file contents here")),
    ]);

    let params = translate_request(&body, false, Some("task-1"), None).unwrap();
    match &params.content {
        TaskMessageContent::ToolResponse { tool_call_id, content, .. } => {
            assert_eq!(tool_call_id, "call_1");
            assert_eq!(content, &Json::String("file contents here".into()));
            assert_eq!(content.to_value(), serde_json::Value::String("file contents here".into()));
        }
        _ => panic!("expected ToolResponse content"),
    }
}

#[test]
fn test_translate_with_task_name() {
    let body = input(vec![message("user", "input_text", "hi")]);

    let params = translate_request(&body, true, None, Some("my-task")).unwrap();
    assert!(params.task_id.is_none());
    assert_eq!(params.task_name.as_deref(), Some("my-task"));
}

#[test]
fn instructions_stand_in_front() {
    let body = object(vec![
        ("instructions", text("Be brief.")),
        ("input", Json::Array(vec![message("user", "input_text", "Hello")])),
    ]);
    let params = translate_request(&body, true, None, None).unwrap();
    assert_eq!(sent_text(&params), "[System Instructions]\nBe brief.\n\n[User]\nHello");
}

#[test]
fn empty_instructions_are_left_out() {
    let body = object(vec![
        ("instructions", text("")),
        ("input", Json::Array(vec![message("user", "input_text", "Hello")])),
    ]);
    let params = translate_request(&body, true, None, None).unwrap();
    assert_eq!(sent_text(&params), "Hello");
}

#[test]
fn instructions_make_no_difference_later() {
    let items = vec![message("user", "input_text", "Hello")];
    let with = object(vec![
        ("instructions", text("Be brief.")),
        ("input", Json::Array(items.clone())),
    ]);
    let without = input(items);
    let with = translate_request(&with, false, None, None).unwrap();
    let without = translate_request(&without, false, None, None).unwrap();
    assert_eq!(sent_text(&with), sent_text(&without));
}

#[test]
fn conversation_is_sent_in_order() {
    let body = input(vec![
        message("user", "input_text", "first"),
        message("assistant", "output_text", "answer"),
        function_call("ls", "c1", "{\"dir\":\"/\"}"),
        reasoning(vec!["one", "two"]),
        message("developer", "input_text", "second"),
        message("user", "input_text", "third"),
    ]);
    let params = translate_request(&body, true, None, None).unwrap();
    assert_eq!(
        sent_text(&params),
        "[Assistant]\nanswer\n\n\
         [Tool Call: ls (c1)]\n{\"dir\":\"/\"}\n\n\
         [Reasoning]\none\ntwo\n\n\
         [User]\nfirst\n\n\
         [User]\nsecond\n\n\
         [User]\nthird"
    );
    for part in ["first", "answer", "{\"dir\":\"/\"}", "one\ntwo", "second"] {
        assert!(sent_text(&params).contains(part));
    }
    assert!(sent_text(&params).ends_with("third"));
}

#[test]
fn whole_message_is_pinned_down() {
    let body = input(vec![message("user", "input_text", "hi")]);
    let params = translate_request(&body, true, Some("t"), Some("n")).unwrap();
    assert_eq!(params.task_id.as_deref(), Some("t"));
    assert_eq!(params.task_name.as_deref(), Some("n"));
    assert_eq!(params.stream, Some(true));
    assert!(params.task_params.is_none());
    match params.content {
        TaskMessageContent::Text { author, content, format, style, attachments } => {
            assert_eq!(author, "user");
            assert_eq!(content, "hi");
            assert_eq!(format.as_deref(), Some("plain"));
            assert!(style.is_none());
            assert_eq!(attachments, Some(vec![]));
        }
        _ => panic!("expected Text content"),
    }
}

#[test]
fn missing_fields_have_defaults() {
    let body = input(vec![object(vec![("type", text("function_call"))])]);
    let params = translate_request(&body, true, None, None).unwrap();
    assert_eq!(sent_text(&params), "[Tool Call: unknown ()]\n{}\n\n[User]\n");

    let roleless = object(vec![
        ("type", text("message")),
        (
            "content",
            Json::Array(vec![object(vec![("type", text("input_text")), ("text", text("x"))])]),
        ),
    ]);
    let params = translate_request(&input(vec![roleless]), true, None, None).unwrap();
    assert_eq!(sent_text(&params), "x");

    let bare = input(vec![object(vec![("type", text("function_call_output"))])]);
    let params = translate_request(&bare, true, None, None).unwrap();
    assert_eq!(sent_output(&params), ("", &text("")));
}

#[test]
fn other_parts_and_items_are_skipped() {
    let body = input(vec![
        object(vec![("type", text("local_shell_call"))]),
        message("user", "input_image", "not this"),
        message("user", "input_text", "this"),
        object(vec![("type", text("web_search_call"))]),
        object(vec![("no", text("type"))]),
        reasoning(vec![]),
        Json::Null,
    ]);
    let params = translate_request(&body, true, None, None).unwrap();
    assert_eq!(sent_text(&params), "this");
}

#[test]
fn other_parts_make_no_difference_in_a_message() {
    let part = |kind: &str, content: Json| object(vec![("type", text(kind)), ("text", content)]);
    let message_of = |parts: Vec<Json>| {
        object(vec![
            ("type", text("message")),
            ("role", text("user")),
            ("content", Json::Array(parts)),
        ])
    };
    let with = input(vec![message_of(vec![
        part("input_text", text("one")),
        part("input_image", text("image")),
        part("input_text", Json::Null),
        part("output_text", text("two")),
        Json::Null,
    ])]);
    let without = input(vec![message_of(vec![
        part("input_text", text("one")),
        part("output_text", text("two")),
    ])]);
    let with = translate_request(&with, true, None, None).unwrap();
    let without = translate_request(&without, true, None, None).unwrap();
    assert_eq!(sent_text(&with), "[User]\none\n\n[User]\ntwo");
    assert_eq!(sent_text(&with), sent_text(&without));
}

#[test]
fn summary_elements_without_text_are_skipped() {
    let item = object(vec![
        ("type", text("reasoning")),
        (
            "summary",
            Json::Array(vec![
                object(vec![("text", text("a"))]),
                Json::Bool(true),
                object(vec![("text", Json::Null)]),
                object(vec![("text", text("b"))]),
            ]),
        ),
    ]);
    let params = translate_request(&input(vec![item]), true, None, None).unwrap();
    assert_eq!(sent_text(&params), "[Reasoning]\na\nb\n\n[User]\n");
}

#[test]
fn nothing_to_say_is_the_empty_text() {
    let params = translate_request(&input(vec![]), true, None, None).unwrap();
    assert_eq!(sent_text(&params), "");
}

#[test]
fn last_tool_output_is_the_one_sent() {
    let body = object(vec![
        ("instructions", text("Be brief.")),
        (
            "input",
            Json::Array(vec![
                message("user", "input_text", "first"),
                output_of("c1", text("old")),
                output_of("c2", text("new")),
                message("user", "input_text", "later"),
            ]),
        ),
    ]);
    for first_turn in [true, false] {
        let params = translate_request(&body, first_turn, None, None).unwrap();
        assert_eq!(sent_output(&params), ("c2", &text("new")));
    }
    match translate_request(&body, true, None, None).unwrap().content {
        TaskMessageContent::ToolResponse { author, name, .. } => {
            assert_eq!(author, "user");
            assert_eq!(name, "");
        }
        _ => panic!("expected ToolResponse content"),
    }
}

#[test]
fn structured_output_is_written_out() {
    let output = object(vec![
        ("b", Json::Array(vec![Json::Bool(true), Json::Null])),
        ("a", text("x\"y")),
    ]);
    let params =
        translate_request(&input(vec![output_of("c", output)]), false, None, None).unwrap();
    assert_eq!(sent_output(&params), ("c", &text("{\"a\":\"x\\\"y\",\"b\":[true,null]}")));

    let null = translate_request(&input(vec![output_of("c", Json::Null)]), false, None, None);
    assert_eq!(sent_output(&null.unwrap()), ("c", &text("null")));
}

#[test]
fn output_that_cannot_be_written_out_is_empty() {
    let item = output_of("c", Json::Bool(false));
    match function_call_output(&item, None) {
        TaskMessageContent::ToolResponse { content, .. } => assert_eq!(content, text("")),
        _ => panic!("expected ToolResponse content"),
    }
    match function_call_output(&item, Some("false".to_string())) {
        TaskMessageContent::ToolResponse { content, .. } => assert_eq!(content, text("false")),
        _ => panic!("expected ToolResponse content"),
    }
    let item = output_of("c", text("as it is"));
    match function_call_output(&item, Some("unused".to_string())) {
        TaskMessageContent::ToolResponse { content, .. } => assert_eq!(content, text("as it is")),
        _ => panic!("expected ToolResponse content"),
    }
}

#[test]
fn stream_is_wanted_unless_refused() {
    let items = Json::Array(vec![]);
    for (stream, wanted) in [
        (Json::Bool(false), false),
        (Json::Bool(true), true),
        (text("false"), true),
        (Json::Null, true),
    ] {
        let body = object(vec![("input", items.clone()), ("stream", stream)]);
        assert_eq!(translate_request(&body, true, None, None).unwrap().stream, Some(wanted));
    }
}

#[test]
fn input_has_to_be_an_array() {
    for body in [
        object(vec![]),
        object(vec![("input", text("hello"))]),
        object(vec![("input", Json::Null)]),
        Json::Array(vec![]),
        Json::Null,
    ] {
        match translate_request(&body, true, None, None) {
            Err(ProxyError::RequestParse(message)) => {
                assert_eq!(message, "missing or invalid 'input' array")
            }
            Ok(_) => panic!("expected an error"),
        }
    }
}

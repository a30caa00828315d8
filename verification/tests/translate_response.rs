use sgp_proxy::json::Json;
use sgp_proxy::sse_writer::SseEvent;
use sgp_proxy::tool_routing::route_tool;
use sgp_proxy::tool_routing::StringHashSet;
use sgp_proxy::tool_routing::ToolRoute;
use sgp_proxy::translate::response::close_active_item;
use sgp_proxy::translate::response::function_call_event;
use sgp_proxy::translate::response::translate_content_item;
use sgp_proxy::translate::response::translate_message_result;
use sgp_proxy::translate::response::translate_stream_event;
use sgp_proxy::translate::response::ToolDeltaBuffer;
use sgp_proxy::translate::types::MessageSendResult;
use sgp_proxy::translate::types::StreamDelta;
use sgp_proxy::translate::types::TaskMessageContent;
use sgp_proxy::translate::types::TaskMessageUpdate;

fn no_tools() -> StringHashSet {
    StringHashSet::new()
}

fn tools(names: &[&str]) -> StringHashSet {
    let mut set = StringHashSet::new();
    for name in names {
        set.insert(name.to_string());
    }
    set
}

fn object(members: Vec<(&str, Json)>) -> Json {
    Json::Object(members.into_iter().map(|(name, value)| (name.to_string(), value)).collect())
}

/// The string at a path of member names and array positions.
fn at(data: &Json, path: &[&str]) -> String {
    let mut here = data.clone();
    for step in path {
        here = match (&here, step.parse::<usize>()) {
            (Json::Array(items), Ok(i)) => items[i].clone(),
            _ => here.get(step).unwrap().clone(),
        };
    }
    here.as_str().unwrap().to_string()
}

fn kind(event: &SseEvent) -> String {
    at(&event.data_json(), &["type"])
}

fn texts(content: &str, author: &str) -> TaskMessageContent {
    TaskMessageContent::Text {
        author: author.to_string(),
        content: content.to_string(),
        format: None,
        style: None,
        attachments: None,
    }
}

fn tool_request(call_id: &str, name: &str, arguments: Json) -> TaskMessageContent {
    TaskMessageContent::ToolRequest {
        author: "agent".to_string(),
        tool_call_id: call_id.to_string(),
        name: name.to_string(),
        arguments,
    }
}

fn reasoning(summary: &[&str], content: Option<&[&str]>) -> TaskMessageContent {
    TaskMessageContent::Reasoning {
        author: "agent".to_string(),
        summary: summary.iter().map(|s| s.to_string()).collect(),
        content: content.map(|c| c.iter().map(|s| s.to_string()).collect()),
    }
}

fn single(content: TaskMessageContent) -> MessageSendResult {
    MessageSendResult { task: None, content: Some(content), contents: None }
}

fn delta(delta: StreamDelta) -> TaskMessageUpdate {
    TaskMessageUpdate::Delta { delta, parent_task_message: None }
}

fn text_delta(text: &str) -> TaskMessageUpdate {
    delta(StreamDelta::Text { text_delta: Some(text.to_string()) })
}

fn arguments(call_id: Option<&str>, name: Option<&str>, piece: Option<&str>) -> TaskMessageUpdate {
    delta(StreamDelta::Arguments {
        tool_call_id: call_id.map(String::from),
        name: name.map(String::from),
        arguments_delta: piece.map(String::from),
    })
}

fn start(content: Option<TaskMessageContent>) -> TaskMessageUpdate {
    TaskMessageUpdate::Start { content, parent_task_message: None }
}

fn full(content: TaskMessageContent) -> TaskMessageUpdate {
    TaskMessageUpdate::Full { content, parent_task_message: None }
}

fn done(content: Option<TaskMessageContent>) -> TaskMessageUpdate {
    TaskMessageUpdate::Done { content, parent_task_message: None }
}

/// The events of a stream of updates, and the number of the next item.
fn run(updates: &[TaskMessageUpdate], agent_tools: &StringHashSet) -> (Vec<SseEvent>, u32) {
    let mut buffer = ToolDeltaBuffer::default();
    let mut index: u32 = 0;
    let mut events = Vec::new();
    for update in updates {
        events.extend(translate_stream_event(update, agent_tools, &mut buffer, "r", &mut index));
    }
    (events, index)
}

fn data(events: &[SseEvent]) -> Vec<String> {
    events.iter().map(|e| e.data_json().render().unwrap()).collect()
}

#[test]
fn test_translate_text_content() {
    let result = MessageSendResult {
        task: None,
        content: Some(TaskMessageContent::Text {
            author: "agent".to_string(),
            content: "Hello!".to_string(),
            format: None,
            style: None,
            attachments: None,
        }),
        contents: None,
    };

    let events = translate_message_result(&result, &no_tools(), "resp_1");
    assert_eq!(events.len(), 1);
    let data = events[0].data_json();
    assert_eq!(at(&data, &["type"]), "response.output_item.done");
    assert_eq!(at(&data, &["item", "content", "0", "text"]), "Hello!");
}

#[test]
fn test_translate_tool_request_codex_local() {
    let result = MessageSendResult {
        task: None,
        content: Some(TaskMessageContent::ToolRequest {
            author: "agent".to_string(),
            tool_call_id: "call_1".to_string(),
            name: "read_file".to_string(),
            arguments: object(vec![("path", Json::text("/tmp"))]),
        }),
        contents: None,
    };

    let events = translate_message_result(&result, &no_tools(), "resp_1");
    assert_eq!(events.len(), 1);
    let data = events[0].data_json();
    assert_eq!(at(&data, &["item", "type"]), "function_call");
    assert_eq!(at(&data, &["item", "call_id"]), "call_1");
}

#[test]
fn test_agent_tool_suppressed() {
    let mut agent_tools = StringHashSet::new();
    agent_tools.insert("search".to_string());

    let result = MessageSendResult {
        task: None,
        content: Some(TaskMessageContent::ToolRequest {
            author: "agent".to_string(),
            tool_call_id: "call_1".to_string(),
            name: "search".to_string(),
            arguments: object(vec![]),
        }),
        contents: None,
    };

    let events = translate_message_result(&result, &agent_tools, "resp_1");
    assert_eq!(events.len(), 0);
}

#[test]
fn test_stream_text_delta_emits_added_first() {
    let update = TaskMessageUpdate::Delta {
        delta: StreamDelta::Text { text_delta: Some("Hello".to_string()) },
        parent_task_message: None,
    };

    let mut buffer = ToolDeltaBuffer::default();
    let mut idx = 0;
    let events = translate_stream_event(&update, &no_tools(), &mut buffer, "resp_1", &mut idx);
    // Should emit: output_item.added + output_text.delta
    assert_eq!(events.len(), 2);
    assert_eq!(at(&events[0].data_json(), &["type"]), "response.output_item.added");
    assert_eq!(at(&events[0].data_json(), &["item", "type"]), "message");
    assert_eq!(at(&events[1].data_json(), &["type"]), "response.output_text.delta");
    assert_eq!(at(&events[1].data_json(), &["delta"]), "Hello");
}

#[test]
fn test_stream_reasoning_delta_emits_added_first() {
    let update = TaskMessageUpdate::Delta {
        delta: StreamDelta::ReasoningContent {
            content_index: 0,
            content_delta: Some("thinking".to_string()),
        },
        parent_task_message: None,
    };

    let mut buffer = ToolDeltaBuffer::default();
    let mut idx = 0;
    let events = translate_stream_event(&update, &no_tools(), &mut buffer, "resp_1", &mut idx);
    // Should emit: output_item.added (reasoning) + reasoning_text.delta
    assert_eq!(events.len(), 2);
    assert_eq!(at(&events[0].data_json(), &["type"]), "response.output_item.added");
    assert_eq!(at(&events[0].data_json(), &["item", "type"]), "reasoning");
    assert_eq!(at(&events[1].data_json(), &["type"]), "response.reasoning_text.delta");
    assert_eq!(at(&events[1].data_json(), &["delta"]), "thinking");
}

#[test]
fn test_stream_reasoning_then_text_closes_previous() {
    let mut buffer = ToolDeltaBuffer::default();
    let mut idx = 0;

    // First: reasoning delta
    let events = translate_stream_event(
        &TaskMessageUpdate::Delta {
            delta: StreamDelta::ReasoningContent {
                content_index: 0,
                content_delta: Some("think".to_string()),
            },
            parent_task_message: None,
        },
        &no_tools(),
        &mut buffer,
        "resp_1",
        &mut idx,
    );
    assert_eq!(events.len(), 2); // added + delta

    // Second: text delta — should close reasoning, open message
    let events = translate_stream_event(
        &TaskMessageUpdate::Delta {
            delta: StreamDelta::Text { text_delta: Some("Hello".to_string()) },
            parent_task_message: None,
        },
        &no_tools(),
        &mut buffer,
        "resp_1",
        &mut idx,
    );
    // reasoning.done + message.added + text.delta
    assert_eq!(events.len(), 3);
    assert_eq!(at(&events[0].data_json(), &["type"]), "response.output_item.done");
    assert_eq!(at(&events[0].data_json(), &["item", "type"]), "reasoning");
    assert_eq!(at(&events[1].data_json(), &["type"]), "response.output_item.added");
    assert_eq!(at(&events[1].data_json(), &["item", "type"]), "message");
    assert_eq!(at(&events[2].data_json(), &["type"]), "response.output_text.delta");
}

#[test]
fn test_stream_done_closes_active() {
    let mut buffer = ToolDeltaBuffer::default();
    let mut idx = 0;

    // Start text
    translate_stream_event(
        &TaskMessageUpdate::Delta {
            delta: StreamDelta::Text { text_delta: Some("hi".to_string()) },
            parent_task_message: None,
        },
        &no_tools(),
        &mut buffer,
        "resp_1",
        &mut idx,
    );

    // Done
    let events = translate_stream_event(
        &TaskMessageUpdate::Done { content: None, parent_task_message: None },
        &no_tools(),
        &mut buffer,
        "resp_1",
        &mut idx,
    );
    assert_eq!(events.len(), 1);
    assert_eq!(at(&events[0].data_json(), &["type"]), "response.output_item.done");
    assert_eq!(at(&events[0].data_json(), &["item", "content", "0", "text"]), "hi");
}

#[test]
fn routes_go_by_the_set_of_agent_tools() {
    let set = tools(&["search"]);
    assert_eq!(route_tool("search", &set), ToolRoute::Agent);
    assert_eq!(route_tool("Search", &set), ToolRoute::CodexLocal);
    assert_eq!(route_tool("read_file", &no_tools()), ToolRoute::CodexLocal);
}

#[test]
fn whole_items_are_numbered_through() {
    let result = MessageSendResult {
        task: None,
        content: Some(texts("one", "assistant")),
        contents: Some(vec![
            texts("from the user", "user"),
            tool_request("c1", "search", object(vec![])),
            reasoning(&["s"], Some(&["a", "b"])),
            TaskMessageContent::Data { author: "agent".to_string(), data: Json::Null },
            TaskMessageContent::ToolResponse {
                author: "agent".to_string(),
                tool_call_id: "c1".to_string(),
                name: "search".to_string(),
                content: Json::Null,
            },
            tool_request("c2", "ls", object(vec![("z", Json::Bool(true)), ("a", Json::Null)])),
            texts("two", "agent"),
        ]),
    };
    let events = translate_message_result(&result, &tools(&["search"]), "r");
    assert_eq!(
        data(&events),
        vec![
            "{\"item\":{\"content\":[{\"text\":\"one\",\"type\":\"output_text\"}],\
             \"id\":\"r_item_0\",\"role\":\"assistant\",\"type\":\"message\"},\
             \"type\":\"response.output_item.done\"}",
            "{\"item\":{\"content\":[{\"text\":\"a\",\"type\":\"reasoning_text\"},\
             {\"text\":\"b\",\"type\":\"reasoning_text\"}],\"id\":\"r_item_1\",\
             \"summary\":[{\"text\":\"s\",\"type\":\"summary_text\"}],\"type\":\"reasoning\"},\
             \"type\":\"response.output_item.done\"}",
            "{\"item\":{\"arguments\":\"{\\\"a\\\":null,\\\"z\\\":true}\",\"call_id\":\"c2\",\
             \"name\":\"ls\",\"type\":\"function_call\"},\"type\":\"response.output_item.done\"}",
            "{\"item\":{\"content\":[{\"text\":\"two\",\"type\":\"output_text\"}],\
             \"id\":\"r_item_3\",\"role\":\"assistant\",\"type\":\"message\"},\
             \"type\":\"response.output_item.done\"}",
        ]
    );
}

#[test]
fn whole_items_are_counted_one_by_one() {
    let mut index = 7;
    let mut events = Vec::new();
    translate_content_item(&texts("x", "agent"), &no_tools(), "r", &mut index, &mut events);
    translate_content_item(&texts("y", "user"), &no_tools(), "r", &mut index, &mut events);
    assert_eq!(index, 8);
    assert_eq!(events.len(), 1);
    assert_eq!(at(&events[0].data_json(), &["item", "id"]), "r_item_7");
}

#[test]
fn reasoning_without_content_has_no_paragraphs() {
    let events = translate_message_result(&single(reasoning(&[], None)), &no_tools(), "r");
    let item = events[0].data_json().get("item").unwrap().clone();
    assert_eq!(item.get("summary"), Some(&Json::Array(vec![])));
    assert_eq!(item.get("content"), Some(&Json::Array(vec![])));
}

#[test]
fn empty_reply_has_no_events() {
    let result = MessageSendResult { task: None, content: None, contents: None };
    assert!(translate_message_result(&result, &no_tools(), "r").is_empty());
}

#[test]
fn arguments_that_cannot_be_written_out_are_empty() {
    let event = function_call_event("c", "ls", None);
    assert_eq!(at(&event.data_json(), &["item", "arguments"]), "");
    let event = function_call_event("c", "ls", Some("{}".to_string()));
    assert_eq!(at(&event.data_json(), &["item", "arguments"]), "{}");
}

#[test]
fn message_is_done_with_the_text_of_its_deltas() {
    let (events, index) = run(
        &[
            start(Some(texts("", "agent"))),
            text_delta("Hel"),
            delta(StreamDelta::Text { text_delta: None }),
            text_delta("lo"),
            done(None),
        ],
        &no_tools(),
    );
    assert_eq!(index, 1);
    assert_eq!(
        events.iter().map(kind).collect::<Vec<_>>(),
        vec![
            "response.output_item.added",
            "response.output_text.delta",
            "response.output_text.delta",
            "response.output_item.done",
        ]
    );
    assert_eq!(at(&events[0].data_json(), &["item", "id"]), "r_item_0");
    assert_eq!(at(&events[0].data_json(), &["item", "role"]), "assistant");
    assert_eq!(at(&events[3].data_json(), &["item", "id"]), "r_item_0");
    assert_eq!(at(&events[3].data_json(), &["item", "content", "0", "text"]), "Hello");
}

#[test]
fn start_with_text_begins_a_message() {
    let (events, index) =
        run(&[start(Some(texts("So ", "user"))), text_delta("far"), done(None)], &no_tools());
    assert_eq!(index, 1);
    assert_eq!(events.len(), 3);
    assert_eq!(kind(&events[0]), "response.output_item.added");
    assert_eq!(at(&events[1].data_json(), &["delta"]), "far");
    assert_eq!(at(&events[2].data_json(), &["item", "content", "0", "text"]), "So far");
}

#[test]
fn start_ends_the_item_in_progress() {
    let (events, index) =
        run(&[text_delta("a"), start(None), text_delta("b"), start(None)], &no_tools());
    assert_eq!(index, 2);
    assert_eq!(
        events.iter().map(kind).collect::<Vec<_>>(),
        vec![
            "response.output_item.added",
            "response.output_text.delta",
            "response.output_item.done",
            "response.output_item.added",
            "response.output_text.delta",
            "response.output_item.done",
        ]
    );
    assert_eq!(at(&events[2].data_json(), &["item", "id"]), "r_item_0");
    assert_eq!(at(&events[5].data_json(), &["item", "id"]), "r_item_1");
}

#[test]
fn items_have_ids_of_their_own() {
    let (events, index) = run(
        &[
            text_delta("a"),
            delta(StreamDelta::ReasoningSummary {
                summary_index: 3,
                summary_delta: Some("s".to_string()),
            }),
            delta(StreamDelta::ReasoningContent {
                content_index: 2,
                content_delta: Some("c".to_string()),
            }),
            full(texts("whole", "agent")),
            full(reasoning(&["x"], None)),
            text_delta("b"),
            done(Some(texts("end", "assistant"))),
        ],
        &no_tools(),
    );
    assert_eq!(index, 6);
    let mut ids = Vec::new();
    for event in &events {
        let data = event.data_json();
        let id = data.get("item").and_then(|i| i.get("id").cloned());
        if let Some(Json::String(id)) = id {
            if !ids.contains(&id) {
                ids.push(id);
            }
        }
    }
    assert_eq!(ids, ["r_item_0", "r_item_1", "r_item_2", "r_item_3", "r_item_4", "r_item_5"]);
    assert_eq!(
        events.iter().map(kind).collect::<Vec<_>>(),
        vec![
            "response.output_item.added",
            "response.output_text.delta",
            "response.output_item.done",
            "response.output_item.added",
            "response.reasoning_summary_text.delta",
            "response.reasoning_text.delta",
            "response.output_item.done",
            "response.output_item.done",
            "response.output_item.done",
            "response.output_item.added",
            "response.output_text.delta",
            "response.output_item.done",
            "response.output_item.done",
        ]
    );
    assert_eq!(
        events[4].data_json().render().unwrap(),
        "{\"delta\":\"s\",\"summary_index\":3,\"type\":\"response.reasoning_summary_text.delta\"}"
    );
    assert_eq!(
        events[5].data_json().render().unwrap(),
        "{\"content_index\":2,\"delta\":\"c\",\"type\":\"response.reasoning_text.delta\"}"
    );
}

#[test]
fn reasoning_in_progress_is_done_without_paragraphs() {
    let mut buffer = ToolDeltaBuffer::default();
    let mut index = 0;
    let update = delta(StreamDelta::ReasoningContent { content_index: 0, content_delta: None });
    let events = translate_stream_event(&update, &no_tools(), &mut buffer, "r", &mut index);
    assert_eq!(events.len(), 1);
    assert_eq!(at(&events[0].data_json(), &["item", "type"]), "reasoning");

    let events = close_active_item(&mut buffer, "r");
    assert_eq!(events.len(), 1);
    let item = events[0].data_json().get("item").unwrap().clone();
    assert_eq!(at(&item, &["id"]), "r_item_0");
    assert_eq!(item.get("summary"), Some(&Json::Array(vec![])));
    assert!(close_active_item(&mut buffer, "r").is_empty());
}

#[test]
fn streamed_call_is_sent_whole_when_the_message_is_done() {
    let (events, index) = run(
        &[
            arguments(Some("c1"), Some("ls"), Some("{\"a\"")),
            arguments(Some("c2"), None, Some("x")),
            text_delta("meanwhile"),
            arguments(Some("c1"), None, Some(":1")),
            arguments(None, Some("lost"), Some("lost")),
            arguments(Some("c2"), Some("cat"), None),
            arguments(Some("c1"), None, Some("}")),
            arguments(Some("c3"), Some("search"), Some("{}")),
            done(None),
        ],
        &tools(&["search"]),
    );
    assert_eq!(index, 3);
    assert_eq!(events.len(), 5);
    assert_eq!(at(&events[2].data_json(), &["item", "content", "0", "text"]), "meanwhile");
    let call = events[3].data_json();
    assert_eq!(at(&call, &["item", "type"]), "function_call");
    assert_eq!(at(&call, &["item", "call_id"]), "c1");
    assert_eq!(at(&call, &["item", "name"]), "ls");
    assert_eq!(at(&call, &["item", "arguments"]), "{\"a\":1}");
    let call = events[4].data_json();
    assert_eq!(at(&call, &["item", "call_id"]), "c2");
    assert_eq!(at(&call, &["item", "name"]), "cat");
    assert_eq!(at(&call, &["item", "arguments"]), "x");
}

#[test]
fn pieces_of_a_call_can_be_joined() {
    let apart = run(
        &[
            arguments(Some("c"), Some("ls"), Some("ab")),
            arguments(Some("c"), None, Some("cd")),
            done(None),
        ],
        &no_tools(),
    );
    let joined = run(&[arguments(Some("c"), Some("ls"), Some("abcd")), done(None)], &no_tools());
    assert_eq!(data(&apart.0), data(&joined.0));
    assert_eq!(apart.1, joined.1);
}

#[test]
fn pending_calls_wait_and_are_forgotten_when_done() {
    let mut buffer = ToolDeltaBuffer::default();
    let mut index = 0;
    let update = arguments(Some("c"), Some("ls"), Some("{}"));
    assert!(translate_stream_event(&update, &no_tools(), &mut buffer, "r", &mut index).is_empty());
    assert_eq!(buffer.pending.len(), 1);
    assert_eq!(buffer.pending[0].call_id, "c");
    assert_eq!(buffer.pending[0].name, "ls");
    assert_eq!(buffer.pending[0].arguments, "{}");
    let events = translate_stream_event(&start(None), &no_tools(), &mut buffer, "r", &mut index);
    assert!(events.is_empty());
    assert_eq!(buffer.pending.len(), 1);
    assert_eq!(
        translate_stream_event(&done(None), &no_tools(), &mut buffer, "r", &mut index).len(),
        1
    );
    assert!(buffer.pending.is_empty());
    assert!(translate_stream_event(&done(None), &no_tools(), &mut buffer, "r", &mut index)
        .is_empty());
}

#[test]
fn items_can_be_streamed_one_by_one() {
    let items = vec![
        texts("one", "agent"),
        tool_request("c1", "search", object(vec![])),
        reasoning(&["s"], None),
        tool_request("c2", "ls", object(vec![])),
    ];
    let set = tools(&["search"]);
    let whole = MessageSendResult { task: None, content: None, contents: Some(items.clone()) };
    let updates: Vec<TaskMessageUpdate> = items.into_iter().map(full).collect();
    let streamed = run(&updates, &set);
    assert_eq!(data(&streamed.0), data(&translate_message_result(&whole, &set, "r")));
    assert_eq!(streamed.1, 3);
}

#[test]
fn agent_tools_are_never_handed_to_the_client() {
    let set = tools(&["search"]);
    let (events, index) = run(
        &[
            full(tool_request("c1", "search", object(vec![]))),
            arguments(Some("c2"), Some("search"), Some("{}")),
            done(Some(tool_request("c3", "search", object(vec![])))),
        ],
        &set,
    );
    assert!(events.is_empty());
    assert_eq!(index, 0);
}

#[test]
fn error_fails_the_response_and_changes_nothing() {
    let mut buffer = ToolDeltaBuffer::default();
    let mut index = 0;
    translate_stream_event(&text_delta("a"), &no_tools(), &mut buffer, "r", &mut index);
    let update = TaskMessageUpdate::Error { message: "boom".to_string() };
    let events = translate_stream_event(&update, &no_tools(), &mut buffer, "r", &mut index);
    assert_eq!(
        data(&events),
        vec![
            "{\"response\":{\"error\":{\"code\":\"proxy_error\",\"message\":\"boom\"}},\
             \"type\":\"response.failed\"}"
        ]
    );
    assert_eq!(index, 1);
    let events = translate_stream_event(&done(None), &no_tools(), &mut buffer, "r", &mut index);
    assert_eq!(at(&events[0].data_json(), &["item", "content", "0", "text"]), "a");
}

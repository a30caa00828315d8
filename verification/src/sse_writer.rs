//! Server-sent events of the Responses API.

use crate::json::json_number;
use crate::json::lemma_array_view;
use crate::json::members_view;
use crate::json::number;
use crate::json::put;
use crate::json::views;
use crate::json::Json;
use crate::json::JsonView;
use crate::translate::types::content_texts;
use crate::translate::types::summary_texts;
use crate::translate::types::ReasoningContentEntry;
use crate::translate::types::ReasoningSummaryEntry;
use vstd::prelude::*;

verus! {

/// An event that the proxy sends to its client.
#[derive(Debug, Clone)]
pub enum SseEvent {
    /// A message begins.
    MessageAdded { id: String },
    /// Reasoning begins.
    ReasoningAdded { id: String },
    /// More text of the message in progress.
    TextDelta { delta: String },
    /// More of the reasoning in progress.
    ReasoningTextDelta { delta: String, content_index: u32 },
    /// More of the summary of the reasoning in progress.
    ReasoningSummaryDelta { delta: String, summary_index: u32 },
    /// A message is complete.
    MessageDone { id: String, role: String, text: String },
    /// Reasoning is complete.
    ReasoningDone {
        id: String,
        summary: Vec<ReasoningSummaryEntry>,
        content: Vec<ReasoningContentEntry>,
    },
    /// The client is to run a tool.
    FunctionCallDone { call_id: String, name: String, arguments: String },
    /// The response failed.
    Failed { code: String, message: String },
}

/// What an `SseEvent` says.
#[verifier::ext_equal]
pub enum EventView {
    MessageAdded { id: Seq<char> },
    ReasoningAdded { id: Seq<char> },
    TextDelta { delta: Seq<char> },
    ReasoningTextDelta { delta: Seq<char>, content_index: u32 },
    ReasoningSummaryDelta { delta: Seq<char>, summary_index: u32 },
    MessageDone { id: Seq<char>, role: Seq<char>, text: Seq<char> },
    ReasoningDone { id: Seq<char>, summary: Seq<Seq<char>>, content: Seq<Seq<char>> },
    FunctionCallDone { call_id: Seq<char>, name: Seq<char>, arguments: Seq<char> },
    Failed { code: Seq<char>, message: Seq<char> },
}

impl View for SseEvent {
    type V = EventView;

    open spec fn view(&self) -> EventView {
        match *self {
            SseEvent::MessageAdded { id } => EventView::MessageAdded { id: id@ },
            SseEvent::ReasoningAdded { id } => EventView::ReasoningAdded { id: id@ },
            SseEvent::TextDelta { delta } => EventView::TextDelta { delta: delta@ },
            SseEvent::ReasoningTextDelta { delta, content_index } =>
                EventView::ReasoningTextDelta { delta: delta@, content_index },
            SseEvent::ReasoningSummaryDelta { delta, summary_index } =>
                EventView::ReasoningSummaryDelta { delta: delta@, summary_index },
            SseEvent::MessageDone { id, role, text } => EventView::MessageDone {
                id: id@,
                role: role@,
                text: text@,
            },
            SseEvent::ReasoningDone { id, summary, content } => EventView::ReasoningDone {
                id: id@,
                summary: summary_texts(summary@),
                content: content_texts(content@),
            },
            SseEvent::FunctionCallDone { call_id, name, arguments } =>
                EventView::FunctionCallDone {
                    call_id: call_id@,
                    name: name@,
                    arguments: arguments@,
                },
            SseEvent::Failed { code, message } => EventView::Failed {
                code: code@,
                message: message@,
            },
        }
    }
}

/// What a sequence of events says.
pub open spec fn event_views(events: Seq<SseEvent>) -> Seq<EventView> {
    events.map_values(|e: SseEvent| e@)
}

impl SseEvent {
    /// A message begins.
    pub fn output_item_added_message(id: &str) -> (e: SseEvent)
        ensures
            e@ == (EventView::MessageAdded { id: id@ }),
    {
        SseEvent::MessageAdded { id: id.to_owned() }
    }

    /// Reasoning begins.
    pub fn output_item_added_reasoning(id: &str) -> (e: SseEvent)
        ensures
            e@ == (EventView::ReasoningAdded { id: id@ }),
    {
        SseEvent::ReasoningAdded { id: id.to_owned() }
    }

    /// More text of the message in progress.
    pub fn output_text_delta(delta: &str) -> (e: SseEvent)
        ensures
            e@ == (EventView::TextDelta { delta: delta@ }),
    {
        SseEvent::TextDelta { delta: delta.to_owned() }
    }

    /// More of the reasoning in progress.
    pub fn reasoning_text_delta(delta: &str, content_index: u32) -> (e: SseEvent)
        ensures
            e@ == (EventView::ReasoningTextDelta { delta: delta@, content_index }),
    {
        SseEvent::ReasoningTextDelta { delta: delta.to_owned(), content_index }
    }

    /// More of the summary of the reasoning in progress.
    pub fn reasoning_summary_text_delta(delta: &str, summary_index: u32) -> (e: SseEvent)
        ensures
            e@ == (EventView::ReasoningSummaryDelta { delta: delta@, summary_index }),
    {
        SseEvent::ReasoningSummaryDelta { delta: delta.to_owned(), summary_index }
    }

    /// A message is complete.
    pub fn output_item_done_message(id: &str, role: &str, text: &str) -> (e: SseEvent)
        ensures
            e@ == (EventView::MessageDone { id: id@, role: role@, text: text@ }),
    {
        SseEvent::MessageDone { id: id.to_owned(), role: role.to_owned(), text: text.to_owned() }
    }

    /// Reasoning is complete.
    pub fn output_item_done_reasoning(
        id: &str,
        summary: Vec<ReasoningSummaryEntry>,
        content: Vec<ReasoningContentEntry>,
    ) -> (e: SseEvent)
        ensures
            e@ == (EventView::ReasoningDone {
                id: id@,
                summary: summary_texts(summary@),
                content: content_texts(content@),
            }),
    {
        SseEvent::ReasoningDone { id: id.to_owned(), summary, content }
    }

    /// The client is to run the tool `name`.
    pub fn output_item_done_function_call(call_id: &str, name: &str, arguments: &str) -> (e:
        SseEvent)
        ensures
            e@ == (EventView::FunctionCallDone {
                call_id: call_id@,
                name: name@,
                arguments: arguments@,
            }),
    {
        SseEvent::FunctionCallDone {
            call_id: call_id.to_owned(),
            name: name.to_owned(),
            arguments: arguments.to_owned(),
        }
    }

    /// The response failed.
    pub fn response_failed(code: &str, message: &str) -> (e: SseEvent)
        ensures
            e@ == (EventView::Failed { code: code@, message: message@ }),
    {
        SseEvent::Failed { code: code.to_owned(), message: message.to_owned() }
    }
}

// ---------------------------------------------------------------------------
// The data of an event
// ---------------------------------------------------------------------------

/// The members of a JSON object that has none.
pub open spec fn no_members() -> Map<Seq<char>, JsonView> {
    Map::empty()
}

/// A piece of text with its type.
pub open spec fn part_json(kind: Seq<char>, text: Seq<char>) -> JsonView {
    JsonView::Object(
        no_members().insert("type"@, JsonView::String(kind)).insert(
            "text"@,
            JsonView::String(text),
        ),
    )
}

/// Pieces of text, all of one type.
pub open spec fn parts_json(kind: Seq<char>, texts: Seq<Seq<char>>) -> JsonView {
    JsonView::Array(texts.map_values(|t: Seq<char>| part_json(kind, t)))
}

/// The members of an item of the type `kind`.
pub open spec fn item_members(kind: Seq<char>) -> Map<Seq<char>, JsonView> {
    no_members().insert("type"@, JsonView::String(kind))
}

/// The data of an event of the type `kind` about the item with the members `item`.
pub open spec fn item_event_json(kind: Seq<char>, item: Map<Seq<char>, JsonView>) -> JsonView {
    JsonView::Object(item_members(kind).insert("item"@, JsonView::Object(item)))
}

/// The data of an event of the type `kind` that carries more text.
pub open spec fn delta_members(kind: Seq<char>, delta: Seq<char>) -> Map<Seq<char>, JsonView> {
    item_members(kind).insert("delta"@, JsonView::String(delta))
}

/// The data of an event.
pub open spec fn event_json(e: EventView) -> JsonView {
    match e {
        EventView::MessageAdded { id } => item_event_json(
            "response.output_item.added"@,
            item_members("message"@).insert("id"@, JsonView::String(id)).insert(
                "role"@,
                JsonView::String("assistant"@),
            ).insert("content"@, JsonView::Array(Seq::empty())),
        ),
        EventView::ReasoningAdded { id } => item_event_json(
            "response.output_item.added"@,
            item_members("reasoning"@).insert("id"@, JsonView::String(id)).insert(
                "summary"@,
                JsonView::Array(Seq::empty()),
            ),
        ),
        EventView::TextDelta { delta } => JsonView::Object(
            delta_members("response.output_text.delta"@, delta),
        ),
        EventView::ReasoningTextDelta { delta, content_index } => JsonView::Object(
            delta_members("response.reasoning_text.delta"@, delta).insert(
                "content_index"@,
                JsonView::Number(json_number(content_index)),
            ),
        ),
        EventView::ReasoningSummaryDelta { delta, summary_index } => JsonView::Object(
            delta_members("response.reasoning_summary_text.delta"@, delta).insert(
                "summary_index"@,
                JsonView::Number(json_number(summary_index)),
            ),
        ),
        EventView::MessageDone { id, role, text } => item_event_json(
            "response.output_item.done"@,
            item_members("message"@).insert("id"@, JsonView::String(id)).insert(
                "role"@,
                JsonView::String(role),
            ).insert("content"@, parts_json("output_text"@, seq![text])),
        ),
        EventView::ReasoningDone { id, summary, content } => item_event_json(
            "response.output_item.done"@,
            item_members("reasoning"@).insert("id"@, JsonView::String(id)).insert(
                "summary"@,
                parts_json("summary_text"@, summary),
            ).insert("content"@, parts_json("reasoning_text"@, content)),
        ),
        EventView::FunctionCallDone { call_id, name, arguments } => item_event_json(
            "response.output_item.done"@,
            item_members("function_call"@).insert("call_id"@, JsonView::String(call_id)).insert(
                "name"@,
                JsonView::String(name),
            ).insert("arguments"@, JsonView::String(arguments)),
        ),
        EventView::Failed { code, message } => JsonView::Object(
            item_members("response.failed"@).insert(
                "response"@,
                JsonView::Object(
                    no_members().insert(
                        "error"@,
                        JsonView::Object(
                            no_members().insert("code"@, JsonView::String(code)).insert(
                                "message"@,
                                JsonView::String(message),
                            ),
                        ),
                    ),
                ),
            ),
        ),
    }
}

/// An object whose first member is its type.
fn typed(kind: &str) -> (members: Vec<(String, Json)>)
    ensures
        members_view(members@) == item_members(kind@),
{
    let mut members: Vec<(String, Json)> = Vec::new();
    put(&mut members, "type", Json::text(kind));
    members
}

/// A piece of text with its type.
fn part(kind: &str, text: &str) -> (j: Json)
    ensures
        j@ == part_json(kind@, text@),
{
    let mut members = typed(kind);
    put(&mut members, "text", Json::text(text));
    Json::Object(members)
}

/// The data of an event of the type `kind` about `item`.
fn item_event(kind: &str, item: Vec<(String, Json)>) -> (j: Json)
    ensures
        j@ == item_event_json(kind@, members_view(item@)),
{
    let mut members = typed(kind);
    put(&mut members, "item", Json::Object(item));
    Json::Object(members)
}

/// The data of an event of the type `kind` that carries more text.
fn delta_event(kind: &str, delta: &str) -> (members: Vec<(String, Json)>)
    ensures
        members_view(members@) == delta_members(kind@, delta@),
{
    let mut members = typed(kind);
    put(&mut members, "delta", Json::text(delta));
    members
}

/// The paragraphs of a summary as pieces of text.
fn summary_parts(entries: &Vec<ReasoningSummaryEntry>) -> (j: Json)
    ensures
        j@ == parts_json("summary_text"@, summary_texts(entries@)),
{
    let ghost all = parts_json("summary_text"@, summary_texts(entries@))->Array_0;
    let mut parts: Vec<Json> = Vec::new();
    let mut i: usize = 0;
    while i < entries.len()
        invariant
            i <= entries.len(),
            all == parts_json("summary_text"@, summary_texts(entries@))->Array_0,
            views(parts@) == all.take(i as int),
        decreases entries.len() - i,
    {
        let ghost done = views(parts@);
        let next = part("summary_text", entries[i].text.as_str());
        parts.push(next);
        assert(views(parts@) =~= done.push(next@));
        assert(all.take(i + 1) =~= done.push(all[i as int]));
        i += 1;
    }
    assert(all.take(i as int) =~= all);
    proof {
        lemma_array_view(parts);
    }
    Json::Array(parts)
}

/// The paragraphs of reasoning as pieces of text.
fn content_parts(entries: &Vec<ReasoningContentEntry>) -> (j: Json)
    ensures
        j@ == parts_json("reasoning_text"@, content_texts(entries@)),
{
    let ghost all = parts_json("reasoning_text"@, content_texts(entries@))->Array_0;
    let mut parts: Vec<Json> = Vec::new();
    let mut i: usize = 0;
    while i < entries.len()
        invariant
            i <= entries.len(),
            all == parts_json("reasoning_text"@, content_texts(entries@))->Array_0,
            views(parts@) == all.take(i as int),
        decreases entries.len() - i,
    {
        let ghost done = views(parts@);
        let next = part("reasoning_text", entries[i].text.as_str());
        parts.push(next);
        assert(views(parts@) =~= done.push(next@));
        assert(all.take(i + 1) =~= done.push(all[i as int]));
        i += 1;
    }
    assert(all.take(i as int) =~= all);
    proof {
        lemma_array_view(parts);
    }
    Json::Array(parts)
}

/// An empty array.
fn no_parts() -> (j: Json)
    ensures
        j@ == JsonView::Array(Seq::empty()),
{
    let parts: Vec<Json> = Vec::new();
    proof {
        lemma_array_view(parts);
        assert(views(parts@) =~= Seq::empty());
    }
    Json::Array(parts)
}

impl SseEvent {
    /// The data of this event.
    pub fn data_json(&self) -> (data: Json)
        ensures
            data@ == event_json(self@),
    {
        match self {
            SseEvent::MessageAdded { id } => {
                let mut item = typed("message");
                put(&mut item, "id", Json::text(id.as_str()));
                put(&mut item, "role", Json::text("assistant"));
                put(&mut item, "content", no_parts());
                item_event("response.output_item.added", item)
            },
            SseEvent::ReasoningAdded { id } => {
                let mut item = typed("reasoning");
                put(&mut item, "id", Json::text(id.as_str()));
                put(&mut item, "summary", no_parts());
                item_event("response.output_item.added", item)
            },
            SseEvent::TextDelta { delta } => {
                Json::Object(delta_event("response.output_text.delta", delta.as_str()))
            },
            SseEvent::ReasoningTextDelta { delta, content_index } => {
                let mut members = delta_event("response.reasoning_text.delta", delta.as_str());
                put(&mut members, "content_index", Json::Number(number(*content_index)));
                Json::Object(members)
            },
            SseEvent::ReasoningSummaryDelta { delta, summary_index } => {
                let mut members = delta_event(
                    "response.reasoning_summary_text.delta",
                    delta.as_str(),
                );
                put(&mut members, "summary_index", Json::Number(number(*summary_index)));
                Json::Object(members)
            },
            SseEvent::MessageDone { id, role, text } => {
                let mut parts: Vec<Json> = Vec::new();
                parts.push(part("output_text", text.as_str()));
                proof {
                    lemma_array_view(parts);
                    assert(views(parts@) =~= parts_json("output_text"@, seq![text@])->Array_0);
                }
                let mut item = typed("message");
                put(&mut item, "id", Json::text(id.as_str()));
                put(&mut item, "role", Json::text(role.as_str()));
                put(&mut item, "content", Json::Array(parts));
                item_event("response.output_item.done", item)
            },
            SseEvent::ReasoningDone { id, summary, content } => {
                let mut item = typed("reasoning");
                put(&mut item, "id", Json::text(id.as_str()));
                put(&mut item, "summary", summary_parts(summary));
                put(&mut item, "content", content_parts(content));
                item_event("response.output_item.done", item)
            },
            SseEvent::FunctionCallDone { call_id, name, arguments } => {
                let mut item = typed("function_call");
                put(&mut item, "call_id", Json::text(call_id.as_str()));
                put(&mut item, "name", Json::text(name.as_str()));
                put(&mut item, "arguments", Json::text(arguments.as_str()));
                item_event("response.output_item.done", item)
            },
            SseEvent::Failed { code, message } => {
                let mut error: Vec<(String, Json)> = Vec::new();
                put(&mut error, "code", Json::text(code.as_str()));
                put(&mut error, "message", Json::text(message.as_str()));
                let mut response: Vec<(String, Json)> = Vec::new();
                put(&mut response, "error", Json::Object(error));
                let mut members = typed("response.failed");
                put(&mut members, "response", Json::Object(response));
                Json::Object(members)
            },
        }
    }
}

} // verus!

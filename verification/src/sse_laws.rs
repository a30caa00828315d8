//! What an event puts on the wire.

use crate::json::json_number;
use crate::json::Json;
use crate::json::JsonView;
use crate::sse_writer::part_json;
use crate::sse_writer::SseEvent;
use crate::translate::types::content_texts;
use crate::translate::types::summary_texts;
use crate::translate::types::ReasoningContentEntry;
use crate::translate::types::ReasoningSummaryEntry;
use vstd::prelude::*;

verus! {

/// The data of an event is the object with the members `members` and no others.
pub open spec fn is_object(data: Json, members: Map<Seq<char>, JsonView>) -> bool {
    data@ == JsonView::Object(members)
}

/// A JSON string.
pub open spec fn string(text: Seq<char>) -> JsonView {
    JsonView::String(text)
}

/// The pieces of text of an array: as many as there are texts, in order, each whole.
pub open spec fn holds_texts(array: JsonView, kind: Seq<char>, texts: Seq<Seq<char>>) -> bool {
    &&& array is Array
    &&& array->Array_0.len() == texts.len()
    &&& forall|i: int|
        0 <= i < texts.len() ==> #[trigger] array->Array_0[i] == JsonView::Object(
            map!["type"@ => string(kind), "text"@ => string(texts[i])],
        )
}

/// The member names of an event are different names.
proof fn lemma_names()
    ensures
        "type"@ != "item"@,
        "type"@ != "id"@,
        "type"@ != "summary"@,
        "type"@ != "content"@,
        "id"@ != "summary"@,
        "id"@ != "content"@,
        "summary"@ != "content"@,
{
    reveal_strlit("type");
    reveal_strlit("item");
    reveal_strlit("id");
    reveal_strlit("summary");
    reveal_strlit("content");
    assert("type"@[0] != "item"@[0]);
    assert("id"@.len() != "type"@.len());
    assert("summary"@.len() != "type"@.len());
    assert("content"@.len() != "type"@.len());
    assert("summary"@.len() != "id"@.len());
    assert("content"@.len() != "id"@.len());
    assert("summary"@[0] != "content"@[0]);
}

/// The data of an event that adds an item has the type and the id of the item, and nothing in it
/// yet.
pub proof fn added_item_is_empty(event: &SseEvent, data: Json)
    requires
        call_ensures(SseEvent::data_json, (event,), data),
    ensures
        match *event {
            SseEvent::MessageAdded { id } => is_object(
                data,
                map![
                    "type"@ => string("response.output_item.added"@),
                    "item"@ => JsonView::Object(map![
                        "type"@ => string("message"@),
                        "id"@ => string(id@),
                        "role"@ => string("assistant"@),
                        "content"@ => JsonView::Array(Seq::empty()),
                    ]),
                ],
            ),
            SseEvent::ReasoningAdded { id } => is_object(
                data,
                map![
                    "type"@ => string("response.output_item.added"@),
                    "item"@ => JsonView::Object(map![
                        "type"@ => string("reasoning"@),
                        "id"@ => string(id@),
                        "summary"@ => JsonView::Array(Seq::empty()),
                    ]),
                ],
            ),
            _ => true,
        },
{
}

/// The data of a delta has the text of the delta, whole, and the number of the part that it
/// belongs to.
pub proof fn delta_carries_its_text(event: &SseEvent, data: Json)
    requires
        call_ensures(SseEvent::data_json, (event,), data),
    ensures
        match *event {
            SseEvent::TextDelta { delta } => is_object(
                data,
                map!["type"@ => string("response.output_text.delta"@), "delta"@ => string(delta@)],
            ),
            SseEvent::ReasoningTextDelta { delta, content_index } => is_object(
                data,
                map![
                    "type"@ => string("response.reasoning_text.delta"@),
                    "delta"@ => string(delta@),
                    "content_index"@ => JsonView::Number(json_number(content_index)),
                ],
            ),
            SseEvent::ReasoningSummaryDelta { delta, summary_index } => is_object(
                data,
                map![
                    "type"@ => string("response.reasoning_summary_text.delta"@),
                    "delta"@ => string(delta@),
                    "summary_index"@ => JsonView::Number(json_number(summary_index)),
                ],
            ),
            _ => true,
        },
{
}

/// The data of a message that is done has its id, its role and its text, whole, in one piece.
pub proof fn done_message_carries_its_text(event: &SseEvent, data: Json)
    requires
        call_ensures(SseEvent::data_json, (event,), data),
    ensures
        match *event {
            SseEvent::MessageDone { id, role, text } => is_object(
                data,
                map![
                    "type"@ => string("response.output_item.done"@),
                    "item"@ => JsonView::Object(map![
                        "type"@ => string("message"@),
                        "id"@ => string(id@),
                        "role"@ => string(role@),
                        "content"@ => JsonView::Array(seq![JsonView::Object(map![
                            "type"@ => string("output_text"@),
                            "text"@ => string(text@),
                        ])]),
                    ]),
                ],
            ),
            _ => true,
        },
{
    if let SseEvent::MessageDone { id, role, text } = *event {
        let part = JsonView::Object(
            map!["type"@ => string("output_text"@), "text"@ => string(text@)],
        );
        assert(seq![text@].map_values(
            |t: Seq<char>| part_json("output_text"@, t),
        ) =~= seq![part]);
    }
}

/// The data of reasoning that is done has its id, and the paragraphs of its summary and of its
/// content, all of them, in order and whole.
pub proof fn done_reasoning_carries_its_paragraphs(event: &SseEvent, data: Json)
    requires
        call_ensures(SseEvent::data_json, (event,), data),
    ensures
        match *event {
            SseEvent::ReasoningDone { id, summary, content } => {
                &&& data@ is Object
                &&& data@->Object_0.dom() == set!["type"@, "item"@]
                &&& data@->Object_0["type"@] == string("response.output_item.done"@)
                &&& data@->Object_0["item"@] is Object
                &&& ({
                    let item = data@->Object_0["item"@]->Object_0;
                    &&& item.dom() == set!["type"@, "id"@, "summary"@, "content"@]
                    &&& item["type"@] == string("reasoning"@)
                    &&& item["id"@] == string(id@)
                    &&& holds_texts(
                        item["summary"@],
                        "summary_text"@,
                        Seq::new(summary@.len(), |i: int| summary@[i].text@),
                    )
                    &&& holds_texts(
                        item["content"@],
                        "reasoning_text"@,
                        Seq::new(content@.len(), |i: int| content@[i].text@),
                    )
                })
            },
            _ => true,
        },
{
    lemma_names();
    if let SseEvent::ReasoningDone { id, summary, content } = *event {
        assert(summary_texts(summary@) =~= Seq::new(summary@.len(), |i: int| summary@[i].text@));
        assert(content_texts(content@) =~= Seq::new(content@.len(), |i: int| content@[i].text@));
        let item = data@->Object_0["item"@]->Object_0;
        assert(data@->Object_0.dom() =~= set!["type"@, "item"@]);
        assert(item.dom() =~= set!["type"@, "id"@, "summary"@, "content"@]);
    }
}

/// The data of a tool call has the id of the call, the name of the tool and the arguments, whole.
pub proof fn tool_call_carries_its_arguments(event: &SseEvent, data: Json)
    requires
        call_ensures(SseEvent::data_json, (event,), data),
    ensures
        match *event {
            SseEvent::FunctionCallDone { call_id, name, arguments } => is_object(
                data,
                map![
                    "type"@ => string("response.output_item.done"@),
                    "item"@ => JsonView::Object(map![
                        "type"@ => string("function_call"@),
                        "call_id"@ => string(call_id@),
                        "name"@ => string(name@),
                        "arguments"@ => string(arguments@),
                    ]),
                ],
            ),
            _ => true,
        },
{
}

/// The data of a failure has its code and its message, whole.
pub proof fn failure_carries_its_message(event: &SseEvent, data: Json)
    requires
        call_ensures(SseEvent::data_json, (event,), data),
    ensures
        match *event {
            SseEvent::Failed { code, message } => is_object(
                data,
                map![
                    "type"@ => string("response.failed"@),
                    "response"@ => JsonView::Object(map![
                        "error"@ => JsonView::Object(map![
                            "code"@ => string(code@),
                            "message"@ => string(message@),
                        ]),
                    ]),
                ],
            ),
            _ => true,
        },
{
}

/// The events are made of just what is handed in.
pub proof fn events_hold_what_they_are_made_of(
    id: &str,
    role: &str,
    text: &str,
    index: u32,
    summary: Vec<ReasoningSummaryEntry>,
    content: Vec<ReasoningContentEntry>,
    made: (SseEvent, SseEvent, SseEvent, SseEvent, SseEvent),
    done: (SseEvent, SseEvent, SseEvent, SseEvent),
)
    requires
        call_ensures(SseEvent::output_item_added_message, (id,), made.0),
        call_ensures(SseEvent::output_item_added_reasoning, (id,), made.1),
        call_ensures(SseEvent::output_text_delta, (text,), made.2),
        call_ensures(SseEvent::reasoning_text_delta, (text, index), made.3),
        call_ensures(SseEvent::reasoning_summary_text_delta, (text, index), made.4),
        call_ensures(SseEvent::output_item_done_message, (id, role, text), done.0),
        call_ensures(SseEvent::output_item_done_reasoning, (id, summary, content), done.1),
        call_ensures(SseEvent::output_item_done_function_call, (id, role, text), done.2),
        call_ensures(SseEvent::response_failed, (id, text), done.3),
    ensures
        made.0 matches SseEvent::MessageAdded { id: i } && i@ == id@,
        made.1 matches SseEvent::ReasoningAdded { id: i } && i@ == id@,
        made.2 matches SseEvent::TextDelta { delta } && delta@ == text@,
        made.3 matches SseEvent::ReasoningTextDelta { delta, content_index } && delta@ == text@
            && content_index == index,
        made.4 matches SseEvent::ReasoningSummaryDelta { delta, summary_index } && delta@ == text@
            && summary_index == index,
        done.0 matches SseEvent::MessageDone { id: i, role: r, text: t } && i@ == id@ && r@ == role@
            && t@ == text@,
        done.1 matches SseEvent::ReasoningDone { id: i, summary: s, content: c } && i@ == id@
            && s@.len() == summary@.len() && c@.len() == content@.len() && (forall|k: int|
            0 <= k < s@.len() ==> (#[trigger] s@[k]).text@ == summary@[k].text@) && (forall|k: int|
            0 <= k < c@.len() ==> (#[trigger] c@[k]).text@ == content@[k].text@),
        done.2 matches SseEvent::FunctionCallDone { call_id, name, arguments } && call_id@ == id@
            && name@ == role@ && arguments@ == text@,
        done.3 matches SseEvent::Failed { code, message } && code@ == id@ && message@ == text@,
{
    if let SseEvent::ReasoningDone { id: _, summary: s, content: c } = done.1 {
        let (a, b) = (summary_texts(s@), summary_texts(summary@));
        let (e, f) = (content_texts(c@), content_texts(content@));
        assert(a == b && e == f);
        assert(a.len() == s@.len() && b.len() == summary@.len());
        assert(e.len() == c@.len() && f.len() == content@.len());
        assert forall|k: int| 0 <= k < s@.len() implies (#[trigger] s@[k]).text@
            == summary@[k].text@ by {
            assert(a[k] == b[k]);
        }
        assert forall|k: int| 0 <= k < c@.len() implies (#[trigger] c@[k]).text@
            == content@[k].text@ by {
            assert(e[k] == f[k]);
        }
    }
}

} // verus!

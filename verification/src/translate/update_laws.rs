//! What each update of a reply becomes, in terms of the update itself.

use crate::json::json_text;
use crate::sse_writer::event_views;
use crate::sse_writer::EventView;
use crate::sse_writer::SseEvent;
use crate::text::decimal;
use crate::tool_routing::route_tool;
use crate::tool_routing::StringHashSet;
use crate::tool_routing::ToolRoute;
use crate::translate::lifecycle::run;
use crate::translate::response::call_events;
use crate::translate::response::call_position;
use crate::translate::response::close_active_item;
use crate::translate::response::emitted;
use crate::translate::response::emits;
use crate::translate::response::function_call_event;
use crate::translate::response::items_events;
use crate::translate::response::lemma_call_position;
use crate::translate::response::lemma_single_item;
use crate::translate::response::local_calls;
use crate::translate::response::step;
use crate::translate::response::translate_content_item;
use crate::translate::response::translate_message_result;
use crate::translate::response::translate_stream_event;
use crate::translate::response::ActiveView;
use crate::translate::response::BufferView;
use crate::translate::response::CallView;
use crate::translate::response::ToolDeltaBuffer;
use crate::translate::type_laws::content_says_what_it_holds;
use crate::translate::type_laws::reply_holds_its_items;
use crate::translate::types::content_texts;
use crate::translate::types::summary_texts;
use crate::translate::types::ContentView;
use crate::translate::types::DeltaView;
use crate::translate::types::MessageSendResult;
use crate::translate::types::StreamDelta;
use crate::translate::types::TaskMessageContent;
use crate::translate::types::TaskMessageUpdate;
use crate::translate::types::UpdateView;
use vstd::prelude::*;

verus! {

// ---------------------------------------------------------------------------
// What the laws speak of
// ---------------------------------------------------------------------------

/// The id of a new item.
pub open spec fn fresh_item(response_id: Seq<char>, index: nat) -> Seq<char> {
    response_id + "_item_"@ + decimal(index)
}

/// The end of the item in progress, as the client hears of it: a message with its text, reasoning
/// with nothing, since its deltas brought it.
pub open spec fn end_of(active: Option<ActiveView>) -> Seq<EventView> {
    match active {
        None => Seq::empty(),
        Some(ActiveView::Message { id, text }) => seq![
            EventView::MessageDone { id, role: "assistant"@, text },
        ],
        Some(ActiveView::Reasoning { id }) => seq![
            EventView::ReasoningDone { id, summary: Seq::empty(), content: Seq::empty() },
        ],
    }
}

/// Whether the client hears of a whole item: of a text of the agent, of a call of a tool that the
/// agent does not run, and of reasoning.
pub open spec fn goes_out(content: ContentView, agent_tools: Set<Seq<char>>) -> bool {
    match content {
        ContentView::Text { author, .. } => author == "agent"@ || author == "assistant"@,
        ContentView::ToolRequest { name, .. } => !agent_tools.contains(name),
        ContentView::Reasoning { .. } => true,
        ContentView::ToolResponse { .. } => false,
        ContentView::Data { .. } => false,
    }
}

/// Whether `event` tells the client of the whole item `content`, under the id `id`: its text, its
/// call or its paragraphs, all of it.
pub open spec fn tells_of(event: EventView, content: ContentView, id: Seq<char>) -> bool {
    match content {
        ContentView::Text { content: text, .. } => event == (EventView::MessageDone {
            id,
            role: "assistant"@,
            text,
        }),
        ContentView::ToolRequest { tool_call_id, name, arguments, .. } => {
            &&& event is FunctionCallDone
            &&& event->FunctionCallDone_call_id == tool_call_id
            &&& event->FunctionCallDone_name == name
            &&& match json_text(arguments) {
                Some(text) => event->FunctionCallDone_arguments == text,
                None => event->FunctionCallDone_arguments.len() == 0,
            }
        },
        ContentView::Reasoning { summary, content: paragraphs, .. } => {
            &&& event is ReasoningDone
            &&& event->ReasoningDone_id == id
            &&& event->ReasoningDone_summary.len() == summary.len()
            &&& forall|i: int|
                0 <= i < summary.len() ==> #[trigger] event->ReasoningDone_summary[i] == summary[i]
            &&& match paragraphs {
                Some(paragraphs) => {
                    &&& event->ReasoningDone_content.len() == paragraphs.len()
                    &&& forall|i: int|
                        0 <= i < paragraphs.len() ==> #[trigger] event->ReasoningDone_content[i]
                            == paragraphs[i]
                },
                None => event->ReasoningDone_content.len() == 0,
            }
        },
        ContentView::ToolResponse { .. } | ContentView::Data { .. } => false,
    }
}

/// The calls among `pending` that the client is to run, in order.
pub open spec fn for_the_client(pending: Seq<CallView>, agent_tools: Set<Seq<char>>) -> Seq<
    CallView,
> {
    pending.filter(|c: CallView| !agent_tools.contains(c.name))
}

/// The items among `items` that the client hears of, in order.
pub open spec fn heard_of(items: Seq<ContentView>, agent_tools: Set<Seq<char>>) -> Seq<
    ContentView,
> {
    items.filter(|c: ContentView| goes_out(c, agent_tools))
}

// ---------------------------------------------------------------------------
// Whole items
// ---------------------------------------------------------------------------

/// A whole item that the client hears of becomes one event, which tells of all of it; any other
/// becomes none.
pub proof fn whole_item_is_told_of(
    content: ContentView,
    agent_tools: Set<Seq<char>>,
    response_id: Seq<char>,
    index: nat,
)
    ensures
        ({
            let events = items_events(seq![content], agent_tools, response_id, index);
            &&& goes_out(content, agent_tools) ==> events.len() == 1 && tells_of(
                events[0],
                content,
                fresh_item(response_id, index),
            ) && emitted(seq![content], agent_tools) == 1
            &&& !goes_out(content, agent_tools) ==> events.len() == 0 && emitted(
                seq![content],
                agent_tools,
            ) == 0
        }),
{
    lemma_single_item(content, agent_tools, response_id, index);
    assert(goes_out(content, agent_tools) == emits(content, agent_tools));
}

/// Each item of a reply that the client hears of becomes one event, in the order of the items,
/// which tells of all of it under the next number; there are no other events.
pub proof fn each_item_is_told_of(
    items: Seq<ContentView>,
    agent_tools: Set<Seq<char>>,
    response_id: Seq<char>,
    index: nat,
)
    ensures
        ({
            let events = items_events(items, agent_tools, response_id, index);
            let told = heard_of(items, agent_tools);
            &&& events.len() == told.len()
            &&& emitted(items, agent_tools) == told.len()
            &&& forall|k: int|
                0 <= k < told.len() ==> tells_of(
                    #[trigger] events[k],
                    told[k],
                    fresh_item(response_id, (index + k) as nat),
                )
        }),
    decreases items.len(),
{
    let keep = |c: ContentView| goes_out(c, agent_tools);
    let events = items_events(items, agent_tools, response_id, index);
    let told = heard_of(items, agent_tools);
    reveal(Seq::filter);
    if items.len() > 0 {
        let rest = items.drop_last();
        let last = items.last();
        let earlier = items_events(rest, agent_tools, response_id, index);
        each_item_is_told_of(rest, agent_tools, response_id, index);
        whole_item_is_told_of(
            last,
            agent_tools,
            response_id,
            index + emitted(rest, agent_tools),
        );
        lemma_single_item(last, agent_tools, response_id, index + emitted(rest, agent_tools));
        assert(told == if keep(last) {
            heard_of(rest, agent_tools).push(last)
        } else {
            heard_of(rest, agent_tools)
        });
        assert forall|k: int| 0 <= k < told.len() implies tells_of(
            #[trigger] events[k],
            told[k],
            fresh_item(response_id, (index + k) as nat),
        ) by {
            if k < earlier.len() {
                assert(events[k] == earlier[k]);
            }
        }
    }
}

/// The events of a reply that is not streamed tell of each of its items that the client is to
/// hear of, one by one and in order.
pub proof fn reply_is_told_item_by_item(
    result: &MessageSendResult,
    agent_tools: &StringHashSet,
    response_id: &str,
    events: Vec<SseEvent>,
)
    requires
        call_ensures(translate_message_result, (result, agent_tools, response_id), events),
    ensures
        ({
            let told = heard_of(result.items(), agent_tools@);
            &&& events@.len() == told.len()
            &&& forall|k: int|
                0 <= k < told.len() ==> tells_of(
                    (#[trigger] events@[k])@,
                    told[k],
                    fresh_item(response_id@, k as nat),
                )
        }),
{
    each_item_is_told_of(result.items(), agent_tools@, response_id@, 0);
    let told = heard_of(result.items(), agent_tools@);
    assert(event_views(events@).len() == events@.len());
    assert forall|k: int| 0 <= k < told.len() implies tells_of(
        (#[trigger] events@[k])@,
        told[k],
        fresh_item(response_id@, k as nat),
    ) by {
        assert(event_views(events@)[k] == events@[k]@);
    }
}

/// The reasoning of a reply reaches the client whole: all paragraphs of its summary and all of
/// its content, in order.
pub proof fn reasoning_is_told_whole(
    result: &MessageSendResult,
    agent_tools: &StringHashSet,
    response_id: &str,
    events: Vec<SseEvent>,
)
    requires
        call_ensures(translate_message_result, (result, agent_tools, response_id), events),
        result.content matches Some(TaskMessageContent::Reasoning { .. }),
        result.contents is None,
    ensures
        events@.len() == 1,
        match (result.content, events@[0]) {
            (
                Some(TaskMessageContent::Reasoning { summary, content, .. }),
                SseEvent::ReasoningDone { id, summary: sent, content: sent_content },
            ) => {
                &&& id@ == response_id@ + "_item_"@ + decimal(0)
                &&& sent@.len() == summary@.len()
                &&& forall|i: int|
                    0 <= i < summary@.len() ==> (#[trigger] sent@[i]).text@ == summary@[i]@
                &&& match content {
                    Some(content) => {
                        &&& sent_content@.len() == content@.len()
                        &&& forall|i: int|
                            0 <= i < content@.len() ==> (#[trigger] sent_content@[i]).text@
                                == content@[i]@
                    },
                    None => sent_content@.len() == 0,
                }
            },
            _ => false,
        },
{
    let item = result.content->0;
    reply_is_told_item_by_item(result, agent_tools, response_id, events);
    reply_holds_its_items(*result);
    content_says_what_it_holds(item);
    assert(result.items() =~= seq![item@]);
    reveal(Seq::filter);
    assert(seq![item@].drop_last() =~= Seq::empty());
    assert(heard_of(Seq::empty(), agent_tools@) =~= Seq::empty());
    assert(heard_of(seq![item@], agent_tools@) =~= seq![item@]);
    let event = events@[0];
    assert(tells_of(event@, item@, fresh_item(response_id@, 0)));
    if let SseEvent::ReasoningDone { id: _, summary: sent, content: sent_content } = event {
        assert(event@->ReasoningDone_summary == summary_texts(sent@));
        assert(event@->ReasoningDone_content == content_texts(sent_content@));
        assert forall|i: int| 0 <= i < sent@.len() implies (#[trigger] sent@[i]).text@
            == item->summary@[i]@ by {
            assert(summary_texts(sent@)[i] == sent@[i].text@);
            assert(event@->ReasoningDone_summary[i] == item@->summary[i]);
        }
        if item->Reasoning_content is Some {
            let content = item->Reasoning_content->0;
            assert forall|i: int|
                0 <= i < sent_content@.len() implies (#[trigger] sent_content@[i]).text@
                == content@[i]@ by {
                assert(content_texts(sent_content@)[i] == sent_content@[i].text@);
                assert(event@->ReasoningDone_content[i] == item@->Reasoning_content->0[i]);
            }
        }
    }
}

// ---------------------------------------------------------------------------
// Deltas
// ---------------------------------------------------------------------------

/// A delta of text is passed on as it is, and is added as it is to the text of the message in
/// progress. Where no message is in progress, the item that is ends and a message is added.
pub proof fn text_delta_is_passed_on(
    text: Seq<char>,
    agent_tools: Set<Seq<char>>,
    buffer: BufferView,
    response_id: Seq<char>,
    index: nat,
)
    ensures
        ({
            let update = UpdateView::Delta { delta: DeltaView::Text { text: Some(text) } };
            let next = step(update, agent_tools, buffer, response_id, index);
            let id = fresh_item(response_id, index);
            let delta = EventView::TextDelta { delta: text };
            &&& next.buffer.pending == buffer.pending
            &&& match buffer.active {
                Some(ActiveView::Message { id: known, text: before }) => {
                    &&& next.events == seq![delta]
                    &&& next.buffer.active == Some(
                        ActiveView::Message { id: known, text: before + text },
                    )
                    &&& next.index == index
                },
                _ => {
                    &&& next.events == end_of(buffer.active).push(
                        EventView::MessageAdded { id },
                    ).push(delta)
                    &&& next.buffer.active == Some(ActiveView::Message { id, text })
                    &&& next.index == index + 1
                },
            }
        }),
{
    let update = UpdateView::Delta { delta: DeltaView::Text { text: Some(text) } };
    let next = step(update, agent_tools, buffer, response_id, index);
    let delta = EventView::TextDelta { delta: text };
    assert(Seq::<char>::empty() + text =~= text);
    assert(Seq::<EventView>::empty().push(delta) =~= seq![delta]);
}

/// A delta without text only makes sure that a message is in progress.
pub proof fn empty_text_delta_opens_a_message(
    agent_tools: Set<Seq<char>>,
    buffer: BufferView,
    response_id: Seq<char>,
    index: nat,
)
    ensures
        ({
            let update = UpdateView::Delta { delta: DeltaView::Text { text: None } };
            let next = step(update, agent_tools, buffer, response_id, index);
            let id = fresh_item(response_id, index);
            match buffer.active {
                Some(ActiveView::Message { .. }) => {
                    &&& next.events.len() == 0
                    &&& next.buffer == buffer
                    &&& next.index == index
                },
                _ => {
                    &&& next.events == end_of(buffer.active).push(EventView::MessageAdded { id })
                    &&& next.buffer.pending == buffer.pending
                    &&& next.buffer.active == Some(
                        ActiveView::Message { id, text: Seq::empty() },
                    )
                    &&& next.index == index + 1
                },
            }
        }),
{
}

/// A delta of reasoning, or of its summary, is passed on as it is, with the number of its part.
/// Where no reasoning is in progress, the item that is ends and reasoning is added.
pub proof fn reasoning_delta_is_passed_on(
    part: u32,
    of_summary: bool,
    text: Option<Seq<char>>,
    agent_tools: Set<Seq<char>>,
    buffer: BufferView,
    response_id: Seq<char>,
    index: nat,
)
    ensures
        ({
            let update = UpdateView::Delta {
                delta: if of_summary {
                    DeltaView::ReasoningSummary { index: part, text }
                } else {
                    DeltaView::ReasoningContent { index: part, text }
                },
            };
            let next = step(update, agent_tools, buffer, response_id, index);
            let id = fresh_item(response_id, index);
            let passed_on = match text {
                Some(text) => if of_summary {
                    seq![EventView::ReasoningSummaryDelta { delta: text, summary_index: part }]
                } else {
                    seq![EventView::ReasoningTextDelta { delta: text, content_index: part }]
                },
                None => Seq::empty(),
            };
            &&& next.buffer.pending == buffer.pending
            &&& match buffer.active {
                Some(ActiveView::Reasoning { id: known }) => {
                    &&& next.events == passed_on
                    &&& next.buffer.active == buffer.active
                    &&& next.index == index
                },
                _ => {
                    &&& next.events == end_of(buffer.active).push(
                        EventView::ReasoningAdded { id },
                    ) + passed_on
                    &&& next.buffer.active == Some(ActiveView::Reasoning { id })
                    &&& next.index == index + 1
                },
            }
        }),
{
}

/// A piece of a call that is pending is added to it: the name replaces the one so far, the
/// arguments follow those so far as they are. The other calls stay as they are, nothing is sent.
pub proof fn piece_of_a_pending_call_is_added(
    call_id: Seq<char>,
    name: Option<Seq<char>>,
    arguments: Option<Seq<char>>,
    at: int,
    agent_tools: Set<Seq<char>>,
    buffer: BufferView,
    response_id: Seq<char>,
    index: nat,
)
    requires
        0 <= at < buffer.pending.len(),
        buffer.pending[at].call_id == call_id,
        forall|k: int| 0 <= k < at ==> (#[trigger] buffer.pending[k]).call_id != call_id,
    ensures
        ({
            let update = UpdateView::Delta {
                delta: DeltaView::Arguments { call_id: Some(call_id), name, arguments },
            };
            let next = step(update, agent_tools, buffer, response_id, index);
            let known = buffer.pending[at];
            let grown = next.buffer.pending;
            &&& next.events.len() == 0
            &&& next.index == index
            &&& next.buffer.active == buffer.active
            &&& grown.len() == buffer.pending.len()
            &&& grown[at].call_id == call_id
            &&& grown[at].name == match name {
                Some(name) => name,
                None => known.name,
            }
            &&& grown[at].arguments == match arguments {
                Some(arguments) => known.arguments + arguments,
                None => known.arguments,
            }
            &&& forall|k: int|
                0 <= k < grown.len() && k != at ==> #[trigger] grown[k] == buffer.pending[k]
        }),
{
    lemma_call_position(buffer.pending, call_id);
    let found = call_position(buffer.pending, call_id);
    if found < at {
        assert(buffer.pending[found].call_id != call_id);
    }
    assert(buffer.pending[at].arguments + Seq::<char>::empty() =~= buffer.pending[at].arguments);
}

/// A piece of a call that is not pending yet makes it pending, after the others, with the name
/// and the arguments of the piece. Nothing is sent.
pub proof fn piece_of_a_new_call_makes_it_pending(
    call_id: Seq<char>,
    name: Option<Seq<char>>,
    arguments: Option<Seq<char>>,
    agent_tools: Set<Seq<char>>,
    buffer: BufferView,
    response_id: Seq<char>,
    index: nat,
)
    requires
        forall|k: int|
            0 <= k < buffer.pending.len() ==> (#[trigger] buffer.pending[k]).call_id != call_id,
    ensures
        ({
            let update = UpdateView::Delta {
                delta: DeltaView::Arguments { call_id: Some(call_id), name, arguments },
            };
            let next = step(update, agent_tools, buffer, response_id, index);
            &&& next.events.len() == 0
            &&& next.index == index
            &&& next.buffer.active == buffer.active
            &&& next.buffer.pending == buffer.pending.push(
                CallView {
                    call_id,
                    name: match name {
                        Some(name) => name,
                        None => Seq::empty(),
                    },
                    arguments: match arguments {
                        Some(arguments) => arguments,
                        None => Seq::empty(),
                    },
                },
            )
        }),
{
    lemma_call_position(buffer.pending, call_id);
    let piece = match arguments {
        Some(arguments) => arguments,
        None => Seq::empty(),
    };
    assert(Seq::<char>::empty() + piece =~= piece);
}

/// A piece of a call without an id is lost.
pub proof fn piece_without_an_id_is_lost(
    name: Option<Seq<char>>,
    arguments: Option<Seq<char>>,
    agent_tools: Set<Seq<char>>,
    buffer: BufferView,
    response_id: Seq<char>,
    index: nat,
)
    ensures
        ({
            let update = UpdateView::Delta {
                delta: DeltaView::Arguments { call_id: None, name, arguments },
            };
            let next = step(update, agent_tools, buffer, response_id, index);
            next.events.len() == 0 && next.buffer == buffer && next.index == index
        }),
{
}

// ---------------------------------------------------------------------------
// The other updates
// ---------------------------------------------------------------------------

/// A start ends the item in progress. Where it brings text, whoever wrote it, a message with just
/// that text is in progress then; else nothing is.
pub proof fn start_begins_with_its_text(
    content: Option<ContentView>,
    agent_tools: Set<Seq<char>>,
    buffer: BufferView,
    response_id: Seq<char>,
    index: nat,
)
    ensures
        ({
            let update = UpdateView::Start { content };
            let next = step(update, agent_tools, buffer, response_id, index);
            let id = fresh_item(response_id, index);
            &&& next.buffer.pending == buffer.pending
            &&& match content {
                Some(ContentView::Text { content: text, .. }) if text.len() > 0 => {
                    &&& next.events == end_of(buffer.active).push(EventView::MessageAdded { id })
                    &&& next.buffer.active == Some(ActiveView::Message { id, text })
                    &&& next.index == index + 1
                },
                _ => {
                    &&& next.events == end_of(buffer.active)
                    &&& next.buffer.active is None
                    &&& next.index == index
                },
            }
        }),
{
    let next = step(UpdateView::Start { content }, agent_tools, buffer, response_id, index);
    assert(emitted(Seq::empty(), agent_tools) == 0);
    assert(end_of(buffer.active) + Seq::<EventView>::empty() =~= end_of(buffer.active));
}

/// An item in one piece ends the item in progress, and is told of where the client is to hear of
/// it.
pub proof fn full_item_is_told_of(
    content: ContentView,
    agent_tools: Set<Seq<char>>,
    buffer: BufferView,
    response_id: Seq<char>,
    index: nat,
)
    ensures
        ({
            let update = UpdateView::Full { content };
            let next = step(update, agent_tools, buffer, response_id, index);
            let end = end_of(buffer.active);
            &&& next.buffer.pending == buffer.pending
            &&& next.buffer.active is None
            &&& if goes_out(content, agent_tools) {
                &&& next.events.len() == end.len() + 1
                &&& next.events.drop_last() == end
                &&& tells_of(next.events.last(), content, fresh_item(response_id, index))
                &&& next.index == index + 1
            } else {
                next.events == end && next.index == index
            }
        }),
{
    let next = step(UpdateView::Full { content }, agent_tools, buffer, response_id, index);
    let whole = items_events(seq![content], agent_tools, response_id, index);
    whole_item_is_told_of(content, agent_tools, response_id, index);
    if goes_out(content, agent_tools) {
        assert(next.events.drop_last() =~= end_of(buffer.active));
        assert(next.events.last() == whole[0]);
    } else {
        assert(next.events =~= end_of(buffer.active));
    }
}

/// The calls that are sent on are those that the agent does not run.
proof fn lemma_local_calls_are_filtered(pending: Seq<CallView>, agent_tools: Set<Seq<char>>)
    ensures
        local_calls(pending, agent_tools) == for_the_client(pending, agent_tools),
    decreases pending.len(),
{
    reveal(Seq::filter);
    if pending.len() > 0 {
        lemma_local_calls_are_filtered(pending.drop_last(), agent_tools);
    }
}

/// When a message is done, the item in progress ends, the content that comes with it is told of
/// where the client is to hear of it, and each pending call that the client is to run is sent, in
/// order and with all of its arguments. Nothing is left then.
pub proof fn done_sends_what_is_left(
    content: Option<ContentView>,
    agent_tools: Set<Seq<char>>,
    buffer: BufferView,
    response_id: Seq<char>,
    index: nat,
)
    ensures
        ({
            let update = UpdateView::Done { content };
            let next = step(update, agent_tools, buffer, response_id, index);
            let end = end_of(buffer.active);
            let calls = for_the_client(buffer.pending, agent_tools);
            let told: int = match content {
                Some(content) if goes_out(content, agent_tools) => 1,
                _ => 0,
            };
            &&& next.buffer.pending.len() == 0
            &&& next.buffer.active is None
            &&& next.index == index + told + calls.len()
            &&& next.events.len() == end.len() + told + calls.len()
            &&& next.events.take(end.len() as int) == end
            &&& told == 1 ==> tells_of(
                next.events[end.len() as int],
                content->0,
                fresh_item(response_id, index),
            )
            &&& forall|k: int|
                #![trigger calls[k]]
                0 <= k < calls.len() ==> next.events[end.len() + told + k] == (
                EventView::FunctionCallDone {
                    call_id: calls[k].call_id,
                    name: calls[k].name,
                    arguments: calls[k].arguments,
                })
        }),
{
    let next = step(UpdateView::Done { content }, agent_tools, buffer, response_id, index);
    let end = end_of(buffer.active);
    let calls = for_the_client(buffer.pending, agent_tools);
    lemma_local_calls_are_filtered(buffer.pending, agent_tools);
    let whole = match content {
        Some(content) => items_events(seq![content], agent_tools, response_id, index),
        None => Seq::empty(),
    };
    if let Some(content) = content {
        whole_item_is_told_of(content, agent_tools, response_id, index);
    } else {
        assert(emitted(Seq::empty(), agent_tools) == 0);
    }
    assert(next.events =~= end + whole + call_events(calls));
    assert(next.events.take(end.len() as int) =~= end);
    if whole.len() > 0 {
        assert(next.events[end.len() as int] == whole[0]);
    }
    assert forall|k: int|
        #![trigger calls[k]]
        0 <= k < calls.len() implies next.events[end.len() + whole.len() + k] == (
    EventView::FunctionCallDone {
        call_id: calls[k].call_id,
        name: calls[k].name,
        arguments: calls[k].arguments,
    }) by {
        assert(next.events[end.len() + whole.len() + k] == call_events(calls)[k]);
    }
}

/// An error fails the response with its message, whole, and changes nothing else.
pub proof fn error_fails_the_response(
    message: Seq<char>,
    agent_tools: Set<Seq<char>>,
    buffer: BufferView,
    response_id: Seq<char>,
    index: nat,
)
    ensures
        ({
            let next = step(
                UpdateView::Error { message },
                agent_tools,
                buffer,
                response_id,
                index,
            );
            &&& next.events == seq![EventView::Failed { code: "proxy_error"@, message }]
            &&& next.buffer == buffer
            &&& next.index == index
        }),
{
}

/// A call of a tool goes to the agent exactly where the tool is among those that the agent runs.
pub proof fn agent_runs_its_own_tools(name: &str, agent_tools: &StringHashSet, r: ToolRoute)
    requires
        call_ensures(route_tool, (name, agent_tools), r),
    ensures
        r is Agent <==> agent_tools@.contains(name@),
        r is CodexLocal <==> !agent_tools@.contains(name@),
{
}

// ---------------------------------------------------------------------------
// The translation of updates
// ---------------------------------------------------------------------------

/// What `translate_stream_event` gives and leaves behind is what the update leads to.
pub proof fn stream_event_is_a_step(
    update: &TaskMessageUpdate,
    agent_tools: &StringHashSet,
    buffer: &mut ToolDeltaBuffer,
    response_id: &str,
    item_index: &mut u32,
    events: Vec<SseEvent>,
)
    requires
        call_ensures(
            translate_stream_event,
            (update, agent_tools, buffer, response_id, item_index),
            events,
        ),
    ensures
        ({
            let next = step(
                update@,
                agent_tools@,
                old(buffer)@,
                response_id@,
                *old(item_index) as nat,
            );
            &&& events@.len() == next.events.len()
            &&& forall|i: int|
                0 <= i < events@.len() ==> (#[trigger] events@[i])@ == next.events[i]
            &&& final(buffer)@ == next.buffer
            &&& *final(item_index) == next.index
        }),
{
    assert(event_views(events@).len() == events@.len());
    assert forall|i: int| 0 <= i < events@.len() implies (#[trigger] events@[i])@ == event_views(
        events@,
    )[i] by {}
}

/// A delta of text reaches the client as it is: the last event that `translate_stream_event`
/// gives for it is a delta with exactly its text, and the text of the message in progress is what
/// it was before followed by exactly that text.
pub proof fn streamed_text_reaches_the_client(
    update: &TaskMessageUpdate,
    agent_tools: &StringHashSet,
    buffer: &mut ToolDeltaBuffer,
    response_id: &str,
    item_index: &mut u32,
    events: Vec<SseEvent>,
    text: String,
)
    requires
        call_ensures(
            translate_stream_event,
            (update, agent_tools, buffer, response_id, item_index),
            events,
        ),
        *update matches TaskMessageUpdate::Delta {
            delta: StreamDelta::Text { text_delta: Some(t) },
            ..
        } && t == text,
    ensures
        events@.len() > 0,
        events@.last() matches SseEvent::TextDelta { delta } && delta@ == text@,
        final(buffer)@.active matches Some(ActiveView::Message { text: now, .. }) && now
            == match old(buffer)@.active {
            Some(ActiveView::Message { text: before, .. }) => before + text@,
            _ => text@,
        },
{
    stream_event_is_a_step(update, agent_tools, buffer, response_id, item_index, events);
    text_delta_is_passed_on(
        text@,
        agent_tools@,
        old(buffer)@,
        response_id@,
        *old(item_index) as nat,
    );
    let last = events@.len() - 1;
    assert(events@[last]@ == EventView::TextDelta { delta: text@ });
}

// ---------------------------------------------------------------------------
// A message from its start to its end
// ---------------------------------------------------------------------------

/// The text that an update brings in a delta.
pub open spec fn text_of(update: UpdateView) -> Seq<char> {
    match update {
        UpdateView::Delta { delta: DeltaView::Text { text: Some(text) } } => text,
        _ => Seq::empty(),
    }
}

/// The texts that updates bring in deltas, one after the other.
pub open spec fn texts_of(updates: Seq<UpdateView>) -> Seq<char> {
    updates.map_values(|u: UpdateView| text_of(u)).flatten_alt()
}

/// Whether an update leaves a message in progress: a delta of text or of a call, or an error.
pub open spec fn goes_on(update: UpdateView) -> bool {
    match update {
        UpdateView::Delta { delta } => delta is Text || delta is Arguments,
        UpdateView::Error { .. } => true,
        _ => false,
    }
}

/// A message in progress grows by the texts of the updates themselves, and keeps its id.
pub proof fn message_grows_by_the_texts_of_its_updates(
    updates: Seq<UpdateView>,
    agent_tools: Set<Seq<char>>,
    buffer: BufferView,
    response_id: Seq<char>,
    index: nat,
    id: Seq<char>,
    start: Seq<char>,
)
    requires
        buffer.active == Some(ActiveView::Message { id, text: start }),
        forall|i: int| 0 <= i < updates.len() ==> goes_on(#[trigger] updates[i]),
    ensures
        run(updates, agent_tools, buffer, response_id, index).buffer.active == Some(
            ActiveView::Message { id, text: start + texts_of(updates) },
        ),
        run(updates, agent_tools, buffer, response_id, index).index == index,
    decreases updates.len(),
{
    let brought = updates.map_values(|u: UpdateView| text_of(u));
    if updates.len() == 0 {
        assert(brought.flatten_alt() =~= Seq::empty());
        assert(start + texts_of(updates) =~= start);
    } else {
        let rest = updates.drop_last();
        let before = run(rest, agent_tools, buffer, response_id, index);
        message_grows_by_the_texts_of_its_updates(
            rest,
            agent_tools,
            buffer,
            response_id,
            index,
            id,
            start,
        );
        let last = updates.last();
        assert(goes_on(updates[updates.len() - 1]));
        assert(brought.drop_last() =~= rest.map_values(|u: UpdateView| text_of(u)));
        assert(texts_of(updates) =~= texts_of(rest) + text_of(last));
        assert(start + texts_of(updates) =~= start + texts_of(rest) + text_of(last));
        if let UpdateView::Delta { delta: DeltaView::Text { text: Some(text) } } = last {
            text_delta_is_passed_on(
                text,
                agent_tools,
                before.buffer,
                response_id,
                before.index,
            );
        } else {
            assert(start + texts_of(rest) + text_of(last) =~= start + texts_of(rest));
        }
    }
}

/// Whether an update ends a message in progress.
pub open spec fn ends_message(update: UpdateView) -> bool {
    match update {
        UpdateView::Start { .. } | UpdateView::Full { .. } | UpdateView::Done { .. } => true,
        UpdateView::Delta { delta } => delta is ReasoningContent || delta is ReasoningSummary,
        UpdateView::Error { .. } => false,
    }
}

/// A message is done with the text that it began with followed by the texts of the updates
/// themselves, in order and as they are; that is the first that the client hears of the update
/// that ends it.
pub proof fn message_is_done_with_the_texts_of_its_updates(
    updates: Seq<UpdateView>,
    ending: UpdateView,
    agent_tools: Set<Seq<char>>,
    buffer: BufferView,
    response_id: Seq<char>,
    index: nat,
    id: Seq<char>,
    start: Seq<char>,
)
    requires
        buffer.active == Some(ActiveView::Message { id, text: start }),
        forall|i: int| 0 <= i < updates.len() ==> goes_on(#[trigger] updates[i]),
        ends_message(ending),
    ensures
        ({
            let before = run(updates, agent_tools, buffer, response_id, index);
            let last = step(ending, agent_tools, before.buffer, response_id, before.index);
            &&& last.events.len() > 0
            &&& last.events[0] == (EventView::MessageDone {
                id,
                role: "assistant"@,
                text: start + texts_of(updates),
            })
        }),
{
    message_grows_by_the_texts_of_its_updates(
        updates,
        agent_tools,
        buffer,
        response_id,
        index,
        id,
        start,
    );
    let before = run(updates, agent_tools, buffer, response_id, index);
    let state = before.buffer;
    let end = end_of(state.active);
    let last = step(ending, agent_tools, state, response_id, before.index);
    match ending {
        UpdateView::Start { content } => {
            start_begins_with_its_text(content, agent_tools, state, response_id, before.index);
        },
        UpdateView::Full { content } => {
            full_item_is_told_of(content, agent_tools, state, response_id, before.index);
            if goes_out(content, agent_tools) {
                assert(last.events[0] == last.events.drop_last()[0]);
            }
        },
        UpdateView::Done { content } => {
            done_sends_what_is_left(content, agent_tools, state, response_id, before.index);
            assert(last.events[0] == last.events.take(end.len() as int)[0]);
        },
        UpdateView::Delta { delta } => match delta {
            DeltaView::ReasoningContent { index: part, text } => {
                reasoning_delta_is_passed_on(
                    part,
                    false,
                    text,
                    agent_tools,
                    state,
                    response_id,
                    before.index,
                );
            },
            DeltaView::ReasoningSummary { index: part, text } => {
                reasoning_delta_is_passed_on(
                    part,
                    true,
                    text,
                    agent_tools,
                    state,
                    response_id,
                    before.index,
                );
            },
            _ => {},
        },
        UpdateView::Error { .. } => {},
    }
}

/// The client gets the text of a message in progress delta by delta, each as it is in its update
/// and in order.
pub proof fn deltas_are_passed_on_in_order(
    pieces: Seq<Seq<char>>,
    agent_tools: Set<Seq<char>>,
    buffer: BufferView,
    response_id: Seq<char>,
    index: nat,
)
    requires
        buffer.active matches Some(ActiveView::Message { .. }),
    ensures
        ({
            let updates = pieces.map_values(
                |t: Seq<char>| UpdateView::Delta { delta: DeltaView::Text { text: Some(t) } },
            );
            let end = run(updates, agent_tools, buffer, response_id, index);
            &&& end.events.len() == pieces.len()
            &&& forall|i: int|
                0 <= i < pieces.len() ==> #[trigger] end.events[i] == (EventView::TextDelta {
                    delta: pieces[i],
                })
            &&& end.buffer.active matches Some(ActiveView::Message { .. })
        }),
    decreases pieces.len(),
{
    let updates = pieces.map_values(
        |t: Seq<char>| UpdateView::Delta { delta: DeltaView::Text { text: Some(t) } },
    );
    if pieces.len() > 0 {
        let rest = pieces.drop_last();
        let earlier = rest.map_values(
            |t: Seq<char>| UpdateView::Delta { delta: DeltaView::Text { text: Some(t) } },
        );
        deltas_are_passed_on_in_order(rest, agent_tools, buffer, response_id, index);
        assert(updates.drop_last() =~= earlier);
        let before = run(earlier, agent_tools, buffer, response_id, index);
        text_delta_is_passed_on(
            pieces.last(),
            agent_tools,
            before.buffer,
            response_id,
            before.index,
        );
        let end = run(updates, agent_tools, buffer, response_id, index);
        assert forall|i: int| 0 <= i < pieces.len() implies #[trigger] end.events[i] == (
        EventView::TextDelta { delta: pieces[i] }) by {
            if i < rest.len() {
                assert(end.events[i] == before.events[i]);
            }
        }
    }
}

/// A call that the client is to run is sent with its id, its name and its arguments as they were
/// written out, or without arguments where they could not be.
pub proof fn call_is_sent_with_its_arguments(
    tool_call_id: &str,
    name: &str,
    arguments: Option<String>,
    event: SseEvent,
)
    requires
        call_ensures(function_call_event, (tool_call_id, name, arguments), event),
    ensures
        event matches SseEvent::FunctionCallDone { call_id, name: tool, arguments: sent }
            && call_id@ == tool_call_id@ && tool@ == name@ && sent@ == match arguments {
            Some(arguments) => arguments@,
            None => Seq::empty(),
        },
{
}

/// The item in progress ends as the client has to hear of it, and nothing else changes.
pub proof fn item_in_progress_ends(
    buffer: &mut ToolDeltaBuffer,
    response_id: &str,
    events: Vec<SseEvent>,
)
    requires
        call_ensures(close_active_item, (buffer, response_id), events),
    ensures
        events@.len() == end_of(old(buffer)@.active).len(),
        events@.len() > 0 ==> events@[0]@ == end_of(old(buffer)@.active)[0],
        final(buffer)@.active is None,
        final(buffer)@.pending == old(buffer)@.pending,
{
    assert(event_views(events@).len() == events@.len());
    if events@.len() > 0 {
        assert(event_views(events@)[0] == events@[0]@);
    }
}

/// A whole item is told of after the events so far, under the next number.
pub proof fn content_item_is_told_of(
    content: &TaskMessageContent,
    agent_tools: &StringHashSet,
    response_id: &str,
    item_index: &mut u32,
    events: &mut Vec<SseEvent>,
)
    requires
        call_ensures(
            translate_content_item,
            (content, agent_tools, response_id, item_index, events),
            (),
        ),
    ensures
        forall|i: int|
            0 <= i < old(events)@.len() ==> (#[trigger] final(events)@[i])@ == old(events)@[i]@,
        if goes_out(content@, agent_tools@) {
            &&& final(events)@.len() == old(events)@.len() + 1
            &&& tells_of(
                final(events)@.last()@,
                content@,
                fresh_item(response_id@, *old(item_index) as nat),
            )
            &&& *final(item_index) == *old(item_index) + 1
        } else {
            &&& final(events)@.len() == old(events)@.len()
            &&& *final(item_index) == *old(item_index)
        },
{
    let index = *old(item_index) as nat;
    let whole = items_events(seq![content@], agent_tools@, response_id@, index);
    let before = old(events)@;
    let after = final(events)@;
    whole_item_is_told_of(content@, agent_tools@, response_id@, index);
    assert(event_views(after) == event_views(before) + whole);
    assert(event_views(after).len() == after.len() && event_views(before).len() == before.len());
    assert forall|i: int| 0 <= i < before.len() implies (#[trigger] after[i])@ == before[i]@ by {
        assert(event_views(after)[i] == event_views(before)[i]);
    }
    if goes_out(content@, agent_tools@) {
        assert(event_views(after)[before.len() as int] == whole[0]);
    }
}

/// A new buffer has nothing pending and no item in progress.
pub proof fn new_buffer_is_empty(buffer: ToolDeltaBuffer)
    requires
        call_ensures(ToolDeltaBuffer::default, (), buffer),
    ensures
        buffer@.pending.len() == 0,
        buffer@.active is None,
{
}

} // verus!

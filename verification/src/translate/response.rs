//! From what the agent sends back to server-sent events.

use crate::json::json_text;
use crate::sse_writer::event_views;
use crate::sse_writer::EventView;
use crate::sse_writer::SseEvent;
use crate::text::decimal;
use crate::text::decimal_text;
use crate::text::opt_text;
use crate::text::same_text;
use crate::text::text_or_empty;
use crate::text::texts;
use crate::tool_routing::route;
use crate::tool_routing::route_tool;
use crate::tool_routing::StringHashSet;
use crate::tool_routing::ToolRoute;
use crate::translate::types::as_items;
use crate::translate::types::content_texts;
use crate::translate::types::content_views;
use crate::translate::types::opt_content;
use crate::translate::types::opt_contents;
use crate::translate::types::summary_texts;
use crate::translate::types::ContentView;
use crate::translate::types::DeltaView;
use crate::translate::types::MessageSendResult;
use crate::translate::types::ReasoningContentEntry;
use crate::translate::types::ReasoningSummaryEntry;
use crate::translate::types::StreamDelta;
use crate::translate::types::TaskMessageContent;
use crate::translate::types::TaskMessageUpdate;
use crate::translate::types::UpdateView;
use vstd::prelude::*;
use vstd::string::*;

verus! {

// ---------------------------------------------------------------------------
// The state of a streamed reply
// ---------------------------------------------------------------------------

/// A tool call whose arguments are still coming in.
#[derive(Debug, Clone)]
pub struct PendingCall {
    pub call_id: String,
    pub name: String,
    /// The arguments so far.
    pub arguments: String,
}

/// The item that the stream is in the middle of.
#[derive(Debug, Clone)]
enum ActiveItem {
    Message { id: String, text: String },
    Reasoning { id: String },
}

/// State buffer for accumulating streamed tool-call deltas until the full
/// tool request is available.
#[derive(Debug)]
pub struct ToolDeltaBuffer {
    /// The calls in the order in which they were first heard of, one for each call id.
    pub pending: Vec<PendingCall>,
    /// The currently active item, used to emit `output_item.added` before the first delta and
    /// `output_item.done` when the item ends.
    active_item: Option<ActiveItem>,
}

/// What a `PendingCall` says.
#[verifier::ext_equal]
pub struct CallView {
    pub call_id: Seq<char>,
    pub name: Seq<char>,
    pub arguments: Seq<char>,
}

impl View for PendingCall {
    type V = CallView;

    open spec fn view(&self) -> CallView {
        CallView { call_id: self.call_id@, name: self.name@, arguments: self.arguments@ }
    }
}

/// What a sequence of pending calls says.
pub open spec fn call_views(calls: Seq<PendingCall>) -> Seq<CallView> {
    calls.map_values(|c: PendingCall| c@)
}

/// What an item in progress is: a message and its text so far, or reasoning.
#[verifier::ext_equal]
pub enum ActiveView {
    Message { id: Seq<char>, text: Seq<char> },
    Reasoning { id: Seq<char> },
}

impl View for ActiveItem {
    type V = ActiveView;

    closed spec fn view(&self) -> ActiveView {
        match *self {
            ActiveItem::Message { id, text } => ActiveView::Message { id: id@, text: text@ },
            ActiveItem::Reasoning { id } => ActiveView::Reasoning { id: id@ },
        }
    }
}

/// What a `ToolDeltaBuffer` says.
#[verifier::ext_equal]
pub struct BufferView {
    pub pending: Seq<CallView>,
    pub active: Option<ActiveView>,
}

impl View for ToolDeltaBuffer {
    type V = BufferView;

    closed spec fn view(&self) -> BufferView {
        BufferView {
            pending: call_views(self.pending@),
            active: match self.active_item {
                Some(item) => Some(item@),
                None => None,
            },
        }
    }
}

impl BufferView {
    /// No call id occurs twice.
    pub open spec fn wf(self) -> bool {
        forall|i: int, k: int|
            0 <= i < k < self.pending.len() ==> (#[trigger] self.pending[i]).call_id != (
            #[trigger] self.pending[k]).call_id
    }

    /// Nothing pending, no item in progress.
    pub open spec fn empty() -> BufferView {
        BufferView { pending: Seq::empty(), active: None }
    }
}

impl Default for ToolDeltaBuffer {
    fn default() -> (b: Self)
        ensures
            b@ == BufferView::empty(),
            b@.wf(),
    {
        let b = ToolDeltaBuffer { pending: Vec::new(), active_item: None };
        assert(b@.pending =~= Seq::empty());
        b
    }
}

// ---------------------------------------------------------------------------
// What is to be sent
// ---------------------------------------------------------------------------

/// The id of the item with the number `index` in the response `response_id`.
pub open spec fn item_id(response_id: Seq<char>, index: nat) -> Seq<char> {
    response_id + "_item_"@ + decimal(index)
}

/// Whether the author of a text is the agent.
pub open spec fn is_agent(author: Seq<char>) -> bool {
    author == "agent"@ || author == "assistant"@
}

/// Whether a whole content item is sent on to the client.
pub open spec fn emits(content: ContentView, agent_tools: Set<Seq<char>>) -> bool {
    match content {
        ContentView::Text { author, .. } => is_agent(author),
        ContentView::ToolRequest { name, .. } => route(name, agent_tools) == ToolRoute::CodexLocal,
        ContentView::Reasoning { .. } => true,
        ContentView::ToolResponse { .. } => false,
        ContentView::Data { .. } => false,
    }
}

/// The event for a whole content item that is sent on as item number `index`.
pub open spec fn content_event(
    content: ContentView,
    response_id: Seq<char>,
    index: nat,
) -> EventView
    recommends
        content is Text || content is ToolRequest || content is Reasoning,
{
    match content {
        ContentView::ToolRequest { tool_call_id, name, arguments, .. } =>
            EventView::FunctionCallDone {
                call_id: tool_call_id,
                name,
                arguments: text_or_empty(json_text(arguments)),
            },
        ContentView::Reasoning { summary, content, .. } => EventView::ReasoningDone {
            id: item_id(response_id, index),
            summary,
            content: match content {
                Some(content) => content,
                None => Seq::empty(),
            },
        },
        _ => EventView::MessageDone {
            id: item_id(response_id, index),
            role: "assistant"@,
            text: content->Text_content,
        },
    }
}

/// The events for a whole content item: one where it is sent on, none otherwise.
pub open spec fn content_events(
    content: ContentView,
    agent_tools: Set<Seq<char>>,
    response_id: Seq<char>,
    index: nat,
) -> Seq<EventView> {
    if emits(content, agent_tools) {
        seq![content_event(content, response_id, index)]
    } else {
        Seq::empty()
    }
}

/// How many of `items` are sent on.
pub open spec fn emitted(items: Seq<ContentView>, agent_tools: Set<Seq<char>>) -> nat
    decreases items.len(),
{
    if items.len() == 0 {
        0
    } else {
        emitted(items.drop_last(), agent_tools) + if emits(items.last(), agent_tools) {
            1nat
        } else {
            0
        }
    }
}

/// The events for whole content items, numbered from `index` on as they are sent on.
pub open spec fn items_events(
    items: Seq<ContentView>,
    agent_tools: Set<Seq<char>>,
    response_id: Seq<char>,
    index: nat,
) -> Seq<EventView>
    decreases items.len(),
{
    if items.len() == 0 {
        Seq::empty()
    } else {
        let rest = items.drop_last();
        items_events(rest, agent_tools, response_id, index) + content_events(
            items.last(),
            agent_tools,
            response_id,
            index + emitted(rest, agent_tools),
        )
    }
}

/// The events that end the item in progress.
pub open spec fn closing_events(active: Option<ActiveView>) -> Seq<EventView> {
    match active {
        Some(ActiveView::Message { id, text }) => seq![
            EventView::MessageDone { id, role: "assistant"@, text },
        ],
        Some(ActiveView::Reasoning { id }) => seq![
            EventView::ReasoningDone { id, summary: Seq::empty(), content: Seq::empty() },
        ],
        None => Seq::empty(),
    }
}

/// Where a pending call stands, or the number of pending calls where there is none with the id.
pub open spec fn call_position(pending: Seq<CallView>, call_id: Seq<char>) -> int
    decreases pending.len(),
{
    if pending.len() == 0 || pending[0].call_id == call_id {
        0
    } else {
        1 + call_position(pending.drop_first(), call_id)
    }
}

/// The pending calls after a delta for the call `call_id`: a name replaces the name so far,
/// arguments are added to those so far.
pub open spec fn with_arguments(
    pending: Seq<CallView>,
    call_id: Seq<char>,
    name: Option<Seq<char>>,
    arguments: Option<Seq<char>>,
) -> Seq<CallView> {
    let at = call_position(pending, call_id);
    let known = if at < pending.len() {
        pending[at]
    } else {
        CallView { call_id, name: Seq::empty(), arguments: Seq::empty() }
    };
    let call = CallView {
        call_id: known.call_id,
        name: match name {
            Some(name) => name,
            None => known.name,
        },
        arguments: known.arguments + text_or_empty(arguments),
    };
    if at < pending.len() {
        pending.update(at, call)
    } else {
        pending.push(call)
    }
}

/// The calls that the client is to run.
pub open spec fn local_calls(pending: Seq<CallView>, agent_tools: Set<Seq<char>>) -> Seq<CallView>
    decreases pending.len(),
{
    if pending.len() == 0 {
        Seq::empty()
    } else {
        let rest = local_calls(pending.drop_last(), agent_tools);
        if route(pending.last().name, agent_tools) == ToolRoute::CodexLocal {
            rest.push(pending.last())
        } else {
            rest
        }
    }
}

/// The event for a call that the client is to run.
pub open spec fn call_event(call: CallView) -> EventView {
    EventView::FunctionCallDone {
        call_id: call.call_id,
        name: call.name,
        arguments: call.arguments,
    }
}

/// The events for calls that the client is to run.
pub open spec fn call_events(calls: Seq<CallView>) -> Seq<EventView> {
    calls.map_values(|c: CallView| call_event(c))
}

/// What one update leads to: the events to send, the state after it, and the number of the next
/// item.
#[verifier::ext_equal]
pub struct StepView {
    pub events: Seq<EventView>,
    pub buffer: BufferView,
    pub index: nat,
}

/// A message begins, with `text` as its text so far, and the item in progress ends.
pub open spec fn begin_message(
    buffer: BufferView,
    response_id: Seq<char>,
    index: nat,
    text: Seq<char>,
) -> StepView {
    let id = item_id(response_id, index);
    StepView {
        events: closing_events(buffer.active).push(EventView::MessageAdded { id }),
        buffer: BufferView { active: Some(ActiveView::Message { id, text }), ..buffer },
        index: index + 1,
    }
}

/// Reasoning begins, and the item in progress ends.
pub open spec fn begin_reasoning(
    buffer: BufferView,
    response_id: Seq<char>,
    index: nat,
) -> StepView {
    let id = item_id(response_id, index);
    StepView {
        events: closing_events(buffer.active).push(EventView::ReasoningAdded { id }),
        buffer: BufferView { active: Some(ActiveView::Reasoning { id }), ..buffer },
        index: index + 1,
    }
}

/// A message is in progress: the one that is, or a new one.
pub open spec fn in_message(
    buffer: BufferView,
    response_id: Seq<char>,
    index: nat,
) -> StepView {
    match buffer.active {
        Some(ActiveView::Message { .. }) => StepView { events: Seq::empty(), buffer, index },
        _ => begin_message(buffer, response_id, index, Seq::empty()),
    }
}

/// Reasoning is in progress: that which is, or new one.
pub open spec fn in_reasoning(
    buffer: BufferView,
    response_id: Seq<char>,
    index: nat,
) -> StepView {
    match buffer.active {
        Some(ActiveView::Reasoning { .. }) => StepView { events: Seq::empty(), buffer, index },
        _ => begin_reasoning(buffer, response_id, index),
    }
}

/// The state with `text` added to the message in progress.
pub open spec fn with_text(buffer: BufferView, text: Seq<char>) -> BufferView {
    match buffer.active {
        Some(ActiveView::Message { id, text: so_far }) => BufferView {
            active: Some(ActiveView::Message { id, text: so_far + text }),
            ..buffer
        },
        _ => buffer,
    }
}

/// What a delta leads to.
pub open spec fn delta_step(
    delta: DeltaView,
    buffer: BufferView,
    response_id: Seq<char>,
    index: nat,
) -> StepView {
    match delta {
        DeltaView::Text { text } => {
            let open = in_message(buffer, response_id, index);
            match text {
                Some(text) => StepView {
                    events: open.events.push(EventView::TextDelta { delta: text }),
                    buffer: with_text(open.buffer, text),
                    ..open
                },
                None => open,
            }
        },
        DeltaView::ReasoningContent { index: content_index, text } => {
            let open = in_reasoning(buffer, response_id, index);
            match text {
                Some(text) => StepView {
                    events: open.events.push(
                        EventView::ReasoningTextDelta { delta: text, content_index },
                    ),
                    ..open
                },
                None => open,
            }
        },
        DeltaView::ReasoningSummary { index: summary_index, text } => {
            let open = in_reasoning(buffer, response_id, index);
            match text {
                Some(text) => StepView {
                    events: open.events.push(
                        EventView::ReasoningSummaryDelta { delta: text, summary_index },
                    ),
                    ..open
                },
                None => open,
            }
        },
        DeltaView::Arguments { call_id, name, arguments } => StepView {
            events: Seq::empty(),
            buffer: match call_id {
                Some(call_id) => BufferView {
                    pending: with_arguments(buffer.pending, call_id, name, arguments),
                    ..buffer
                },
                None => buffer,
            },
            index,
        },
    }
}

/// The item in progress ends and the whole items `items` are sent on.
pub open spec fn whole_items_step(
    items: Seq<ContentView>,
    agent_tools: Set<Seq<char>>,
    buffer: BufferView,
    response_id: Seq<char>,
    index: nat,
) -> StepView {
    StepView {
        events: closing_events(buffer.active) + items_events(
            items,
            agent_tools,
            response_id,
            index,
        ),
        buffer: BufferView { active: None, ..buffer },
        index: index + emitted(items, agent_tools),
    }
}

/// What one update leads to.
pub open spec fn step(
    update: UpdateView,
    agent_tools: Set<Seq<char>>,
    buffer: BufferView,
    response_id: Seq<char>,
    index: nat,
) -> StepView {
    match update {
        UpdateView::Start { content } => match content {
            Some(ContentView::Text { content: text, .. }) if text.len() > 0 => begin_message(
                buffer,
                response_id,
                index,
                text,
            ),
            _ => whole_items_step(Seq::empty(), agent_tools, buffer, response_id, index),
        },
        UpdateView::Delta { delta } => delta_step(delta, buffer, response_id, index),
        UpdateView::Full { content } => whole_items_step(
            seq![content],
            agent_tools,
            buffer,
            response_id,
            index,
        ),
        UpdateView::Done { content } => {
            let whole = whole_items_step(
                as_items(content),
                agent_tools,
                buffer,
                response_id,
                index,
            );
            let calls = local_calls(buffer.pending, agent_tools);
            StepView {
                events: whole.events + call_events(calls),
                buffer: BufferView::empty(),
                index: whole.index + calls.len(),
            }
        },
        UpdateView::Error { message } => StepView {
            events: seq![EventView::Failed { code: "proxy_error"@, message }],
            buffer,
            index,
        },
    }
}

/// How many items an update starts or sends on.
pub open spec fn items_of(
    update: UpdateView,
    agent_tools: Set<Seq<char>>,
    buffer: BufferView,
) -> nat {
    match update {
        UpdateView::Start { content } => match content {
            Some(ContentView::Text { content: text, .. }) if text.len() > 0 => 1,
            _ => 0,
        },
        UpdateView::Delta { delta } => match delta {
            DeltaView::Text { .. } => if buffer.active is Some && buffer.active->0 is Message {
                0
            } else {
                1
            },
            DeltaView::ReasoningContent { .. } | DeltaView::ReasoningSummary { .. } => if buffer.active is Some
                && buffer.active->0 is Reasoning {
                0
            } else {
                1
            },
            DeltaView::Arguments { .. } => 0,
        },
        UpdateView::Full { content } => emitted(seq![content], agent_tools),
        UpdateView::Done { content } => emitted(as_items(content), agent_tools) + local_calls(
            buffer.pending,
            agent_tools,
        ).len(),
        UpdateView::Error { .. } => 0,
    }
}

// ---------------------------------------------------------------------------
// Translation
// ---------------------------------------------------------------------------

/// The id of the item with the number `index` in the response `response_id`.
fn make_item_id(response_id: &str, index: u32) -> (id: String)
    ensures
        id@ == item_id(response_id@, index as nat),
{
    response_id.to_owned().concat("_item_").concat(decimal_text(index).as_str())
}

/// Adds an event to those to be sent.
fn emit(events: &mut Vec<SseEvent>, event: SseEvent)
    ensures
        event_views(final(events)@) == event_views(old(events)@).push(event@),
{
    let ghost before = events@;
    events.push(event);
    assert(event_views(events@) =~= event_views(before).push(event@));
}

/// No events.
fn no_events() -> (events: Vec<SseEvent>)
    ensures
        event_views(events@) == Seq::<EventView>::empty(),
{
    let events: Vec<SseEvent> = Vec::new();
    assert(event_views(events@) =~= Seq::<EventView>::empty());
    events
}

/// The event that asks the client to run a tool, given the arguments as they were written out.
/// Arguments that could not be written out become the empty text.
pub fn function_call_event(tool_call_id: &str, name: &str, arguments: Option<String>) -> (event:
    SseEvent)
    ensures
        event@ == (EventView::FunctionCallDone {
            call_id: tool_call_id@,
            name: name@,
            arguments: text_or_empty(opt_text(arguments)),
        }),
{
    let text = match arguments {
        Some(text) => text,
        None => String::new(),
    };
    SseEvent::output_item_done_function_call(tool_call_id, name, text.as_str())
}

/// The paragraphs of a summary.
fn summary_entries(summary: &Vec<String>) -> (entries: Vec<ReasoningSummaryEntry>)
    ensures
        summary_texts(entries@) == texts(summary@),
{
    let mut entries: Vec<ReasoningSummaryEntry> = Vec::new();
    let mut i: usize = 0;
    while i < summary.len()
        invariant
            i <= summary.len(),
            summary_texts(entries@) == texts(summary@).take(i as int),
        decreases summary.len() - i,
    {
        let ghost done = summary_texts(entries@);
        entries.push(ReasoningSummaryEntry { text: summary[i].clone() });
        assert(summary_texts(entries@) =~= done.push(summary@[i as int]@));
        assert(texts(summary@).take(i + 1) =~= done.push(summary@[i as int]@));
        i += 1;
    }
    assert(texts(summary@).take(i as int) =~= texts(summary@));
    entries
}

/// The paragraphs of reasoning.
fn content_entries(content: &Vec<String>) -> (entries: Vec<ReasoningContentEntry>)
    ensures
        content_texts(entries@) == texts(content@),
{
    let mut entries: Vec<ReasoningContentEntry> = Vec::new();
    let mut i: usize = 0;
    while i < content.len()
        invariant
            i <= content.len(),
            content_texts(entries@) == texts(content@).take(i as int),
        decreases content.len() - i,
    {
        let ghost done = content_texts(entries@);
        entries.push(ReasoningContentEntry { text: content[i].clone() });
        assert(content_texts(entries@) =~= done.push(content@[i as int]@));
        assert(texts(content@).take(i + 1) =~= done.push(content@[i as int]@));
        i += 1;
    }
    assert(texts(content@).take(i as int) =~= texts(content@));
    entries
}

/// Translates one whole content item. It takes the number `item_index` where it is sent on.
pub fn translate_content_item(
    content: &TaskMessageContent,
    agent_tools: &StringHashSet,
    response_id: &str,
    item_index: &mut u32,
    events: &mut Vec<SseEvent>,
)
    requires
        emits(content@, agent_tools@) ==> *old(item_index) < u32::MAX,
    ensures
        *final(item_index) == *old(item_index) + emitted(seq![content@], agent_tools@),
        event_views(final(events)@) == event_views(old(events)@) + items_events(
            seq![content@],
            agent_tools@,
            response_id@,
            *old(item_index) as nat,
        ),
{
    proof {
        lemma_single_item(content@, agent_tools@, response_id@, *item_index as nat);
    }
    match content {
        TaskMessageContent::Text { content: text, author, .. } => {
            if same_text(author.as_str(), "agent") || same_text(author.as_str(), "assistant") {
                let id = make_item_id(response_id, *item_index);
                emit(
                    events,
                    SseEvent::output_item_done_message(id.as_str(), "assistant", text.as_str()),
                );
                *item_index = *item_index + 1;
            }
        },
        TaskMessageContent::ToolRequest { tool_call_id, name, arguments, .. } => {
            match route_tool(name.as_str(), agent_tools) {
                ToolRoute::CodexLocal => {
                    let rendered = arguments.render();
                    emit(
                        events,
                        function_call_event(tool_call_id.as_str(), name.as_str(), rendered),
                    );
                    *item_index = *item_index + 1;
                },
                ToolRoute::Agent => {},
            }
        },
        TaskMessageContent::Reasoning { summary, content: paragraphs, .. } => {
            let id = make_item_id(response_id, *item_index);
            let summary_part = summary_entries(summary);
            let content_part = match paragraphs {
                Some(paragraphs) => content_entries(paragraphs),
                None => no_paragraphs(),
            };
            emit(
                events,
                SseEvent::output_item_done_reasoning(id.as_str(), summary_part, content_part),
            );
            *item_index = *item_index + 1;
        },
        TaskMessageContent::ToolResponse { .. } => {},
        TaskMessageContent::Data { .. } => {},
    }
}

/// No reasoning.
fn no_paragraphs() -> (entries: Vec<ReasoningContentEntry>)
    ensures
        content_texts(entries@) == Seq::<Seq<char>>::empty(),
{
    let entries: Vec<ReasoningContentEntry> = Vec::new();
    assert(content_texts(entries@) =~= Seq::<Seq<char>>::empty());
    entries
}

/// One item is counted and translated on its own.
pub proof fn lemma_single_item(
    content: ContentView,
    agent_tools: Set<Seq<char>>,
    response_id: Seq<char>,
    index: nat,
)
    ensures
        emitted(seq![content], agent_tools) == if emits(content, agent_tools) {
            1nat
        } else {
            0
        },
        items_events(seq![content], agent_tools, response_id, index) == content_events(
            content,
            agent_tools,
            response_id,
            index,
        ),
{
    let items = seq![content];
    assert(items.drop_last() =~= Seq::empty());
    assert(items.last() == content);
    assert(emitted(items.drop_last(), agent_tools) == 0);
    assert(items_events(items.drop_last(), agent_tools, response_id, index) =~= Seq::empty());
    assert(items_events(items, agent_tools, response_id, index) =~= content_events(
        content,
        agent_tools,
        response_id,
        index,
    ));
}

/// Items are translated in order and numbered through: those of `second` take the numbers that
/// follow those of `first`.
pub proof fn items_follow_on(
    first: Seq<ContentView>,
    second: Seq<ContentView>,
    agent_tools: Set<Seq<char>>,
    response_id: Seq<char>,
    index: nat,
)
    ensures
        emitted(first + second, agent_tools) == emitted(first, agent_tools) + emitted(
            second,
            agent_tools,
        ),
        items_events(first + second, agent_tools, response_id, index) == items_events(
            first,
            agent_tools,
            response_id,
            index,
        ) + items_events(second, agent_tools, response_id, index + emitted(first, agent_tools)),
    decreases second.len(),
{
    let all = first + second;
    if second.len() == 0 {
        assert(all =~= first);
        assert(items_events(all, agent_tools, response_id, index) =~= items_events(
            first,
            agent_tools,
            response_id,
            index,
        ) + Seq::empty());
    } else {
        assert(all.drop_last() =~= first + second.drop_last());
        assert(all.last() == second.last());
        items_follow_on(first, second.drop_last(), agent_tools, response_id, index);
        let next = index + emitted(first, agent_tools);
        assert(items_events(all, agent_tools, response_id, index) =~= items_events(
            first,
            agent_tools,
            response_id,
            index,
        ) + items_events(second, agent_tools, response_id, next));
    }
}

/// Translates whole content items one after the other.
fn translate_items(
    items: &Vec<TaskMessageContent>,
    agent_tools: &StringHashSet,
    response_id: &str,
    item_index: &mut u32,
    events: &mut Vec<SseEvent>,
)
    requires
        *old(item_index) + emitted(content_views(items@), agent_tools@) <= u32::MAX,
    ensures
        *final(item_index) == *old(item_index) + emitted(content_views(items@), agent_tools@),
        event_views(final(events)@) == event_views(old(events)@) + items_events(
            content_views(items@),
            agent_tools@,
            response_id@,
            *old(item_index) as nat,
        ),
{
    let ghost all = content_views(items@);
    let ghost start = *item_index as nat;
    let ghost before = event_views(events@);
    let mut i: usize = 0;
    proof {
        assert(all.take(0) =~= Seq::empty());
        assert(before + items_events(all.take(0), agent_tools@, response_id@, start) =~= before);
    }
    while i < items.len()
        invariant
            i <= items.len(),
            all == content_views(items@),
            start + emitted(all, agent_tools@) <= u32::MAX,
            *item_index == start + emitted(all.take(i as int), agent_tools@),
            event_views(events@) == before + items_events(
                all.take(i as int),
                agent_tools@,
                response_id@,
                start,
            ),
        decreases items.len() - i,
    {
        proof {
            let head = all.take(i as int);
            let one = seq![all[i as int]];
            assert(all.take(i + 1) =~= head + one);
            items_follow_on(head, one, agent_tools@, response_id@, start);
            assert(all =~= (head + one) + all.skip(i + 1));
            items_follow_on(head + one, all.skip(i + 1), agent_tools@, response_id@, start);
            lemma_single_item(all[i as int], agent_tools@, response_id@, *item_index as nat);
        }
        translate_content_item(&items[i], agent_tools, response_id, item_index, events);
        assert(event_views(events@) =~= before + items_events(
            all.take(i + 1),
            agent_tools@,
            response_id@,
            start,
        ));
        i += 1;
    }
    assert(all.take(i as int) =~= all);
}

/// Translate a complete (non-streaming) Agentex response into SSE events.
pub fn translate_message_result(
    result: &MessageSendResult,
    agent_tools: &StringHashSet,
    response_id: &str,
) -> (events: Vec<SseEvent>)
    requires
        emitted(result.items(), agent_tools@) <= u32::MAX,
    ensures
        event_views(events@) == items_events(result.items(), agent_tools@, response_id@, 0),
{
    let mut events = no_events();
    let mut item_index: u32 = 0;
    let ghost single = as_items(opt_content(result.content));
    let ghost array = opt_contents(result.contents);
    proof {
        items_follow_on(single, array, agent_tools@, response_id@, 0);
        if result.content is Some {
            lemma_single_item(result.content->0@, agent_tools@, response_id@, 0);
        }
    }
    match &result.content {
        Some(content) => {
            translate_content_item(content, agent_tools, response_id, &mut item_index, &mut events);
        },
        None => {},
    }
    assert(event_views(events@) =~= items_events(single, agent_tools@, response_id@, 0));
    match &result.contents {
        Some(contents) => {
            translate_items(contents, agent_tools, response_id, &mut item_index, &mut events);
        },
        None => {},
    }
    assert(event_views(events@) =~= items_events(result.items(), agent_tools@, response_id@, 0));
    events
}

/// Close the currently active item by emitting an `output_item.done` event.
pub fn close_active_item(buffer: &mut ToolDeltaBuffer, _response_id: &str) -> (events: Vec<
    SseEvent,
>)
    ensures
        event_views(events@) == closing_events(old(buffer)@.active),
        final(buffer)@ == (BufferView { active: None, ..old(buffer)@ }),
{
    let mut events = no_events();
    match buffer.active_item.take() {
        Some(ActiveItem::Message { id, text }) => {
            emit(
                &mut events,
                SseEvent::output_item_done_message(id.as_str(), "assistant", text.as_str()),
            );
        },
        Some(ActiveItem::Reasoning { id }) => {
            // The deltas already delivered the content.
            let summary: Vec<ReasoningSummaryEntry> = Vec::new();
            assert(summary_texts(summary@) =~= Seq::empty());
            emit(
                &mut events,
                SseEvent::output_item_done_reasoning(id.as_str(), summary, no_paragraphs()),
            );
        },
        None => {},
    }
    assert(event_views(events@) =~= closing_events(old(buffer)@.active));
    events
}

/// Begins a message, with `text` as its text so far, and ends the item in progress.
fn start_message(
    buffer: &mut ToolDeltaBuffer,
    response_id: &str,
    item_index: &mut u32,
    text: String,
) -> (events: Vec<SseEvent>)
    requires
        *old(item_index) < u32::MAX,
    ensures
        step_is(
            begin_message(old(buffer)@, response_id@, *old(item_index) as nat, text@),
            events@,
            final(buffer)@,
            *final(item_index),
        ),
{
    let mut events = close_active_item(buffer, response_id);
    let id = make_item_id(response_id, *item_index);
    emit(&mut events, SseEvent::output_item_added_message(id.as_str()));
    buffer.active_item = Some(ActiveItem::Message { id, text });
    *item_index = *item_index + 1;
    events
}

/// Begins reasoning, and ends the item in progress.
fn start_reasoning(
    buffer: &mut ToolDeltaBuffer,
    response_id: &str,
    item_index: &mut u32,
) -> (events: Vec<SseEvent>)
    requires
        *old(item_index) < u32::MAX,
    ensures
        step_is(
            begin_reasoning(old(buffer)@, response_id@, *old(item_index) as nat),
            events@,
            final(buffer)@,
            *final(item_index),
        ),
{
    let mut events = close_active_item(buffer, response_id);
    let id = make_item_id(response_id, *item_index);
    emit(&mut events, SseEvent::output_item_added_reasoning(id.as_str()));
    buffer.active_item = Some(ActiveItem::Reasoning { id });
    *item_index = *item_index + 1;
    events
}

/// The events, the state and the number of the next item are those of `expected`.
pub open spec fn step_is(
    expected: StepView,
    events: Seq<SseEvent>,
    buffer: BufferView,
    index: u32,
) -> bool {
    &&& event_views(events) == expected.events
    &&& buffer == expected.buffer
    &&& index == expected.index
}

/// Begins a message unless one is in progress.
fn ensure_message(
    buffer: &mut ToolDeltaBuffer,
    response_id: &str,
    item_index: &mut u32,
) -> (events: Vec<SseEvent>)
    requires
        in_message(old(buffer)@, response_id@, *old(item_index) as nat).index <= u32::MAX,
    ensures
        step_is(
            in_message(old(buffer)@, response_id@, *old(item_index) as nat),
            events@,
            final(buffer)@,
            *final(item_index),
        ),
        final(buffer)@.active is Some && final(buffer)@.active->0 is Message,
{
    let in_progress = match &buffer.active_item {
        Some(ActiveItem::Message { .. }) => true,
        _ => false,
    };
    if in_progress {
        no_events()
    } else {
        start_message(buffer, response_id, item_index, String::new())
    }
}

/// Begins reasoning unless it is in progress.
fn ensure_reasoning(
    buffer: &mut ToolDeltaBuffer,
    response_id: &str,
    item_index: &mut u32,
) -> (events: Vec<SseEvent>)
    requires
        in_reasoning(old(buffer)@, response_id@, *old(item_index) as nat).index <= u32::MAX,
    ensures
        step_is(
            in_reasoning(old(buffer)@, response_id@, *old(item_index) as nat),
            events@,
            final(buffer)@,
            *final(item_index),
        ),
{
    let in_progress = match &buffer.active_item {
        Some(ActiveItem::Reasoning { .. }) => true,
        _ => false,
    };
    if in_progress {
        no_events()
    } else {
        start_reasoning(buffer, response_id, item_index)
    }
}

/// Adds `text` to the message in progress.
fn add_text(buffer: &mut ToolDeltaBuffer, text: &str)
    ensures
        final(buffer)@ == with_text(old(buffer)@, text@),
{
    match buffer.active_item.take() {
        Some(ActiveItem::Message { id, text: so_far }) => {
            buffer.active_item = Some(ActiveItem::Message { id, text: so_far.concat(text) });
        },
        other => {
            buffer.active_item = other;
        },
    }
}

/// Where a pending call stands, or the number of pending calls where there is none with the id.
fn find_call(pending: &Vec<PendingCall>, call_id: &str) -> (at: usize)
    ensures
        at == call_position(call_views(pending@), call_id@),
        at <= pending.len(),
{
    let ghost all = call_views(pending@);
    let mut i: usize = 0;
    assert(all.skip(0) =~= all);
    while i < pending.len()
        invariant
            i <= pending.len(),
            all == call_views(pending@),
            call_position(all, call_id@) == i + call_position(all.skip(i as int), call_id@),
        decreases pending.len() - i,
    {
        assert(all.skip(i as int)[0] == pending@[i as int]@);
        if same_text(pending[i].call_id.as_str(), call_id) {
            return i;
        }
        assert(all.skip(i as int).drop_first() =~= all.skip(i + 1));
        i += 1;
    }
    i
}

/// Takes in a delta for the pending call `call_id`.
fn add_arguments(
    buffer: &mut ToolDeltaBuffer,
    call_id: &String,
    name: &Option<String>,
    arguments: &Option<String>,
)
    ensures
        final(buffer)@ == (BufferView {
            pending: with_arguments(
                old(buffer)@.pending,
                call_id@,
                opt_text(*name),
                opt_text(*arguments),
            ),
            ..old(buffer)@
        }),
{
    let at = find_call(&buffer.pending, call_id.as_str());
    let known = at < buffer.pending.len();
    let ghost before = call_views(buffer.pending@);
    let mut call = if known {
        PendingCall {
            call_id: buffer.pending[at].call_id.clone(),
            name: buffer.pending[at].name.clone(),
            arguments: buffer.pending[at].arguments.clone(),
        }
    } else {
        PendingCall { call_id: call_id.clone(), name: String::new(), arguments: String::new() }
    };
    match name {
        Some(name) => {
            call.name = name.clone();
        },
        None => {},
    }
    match arguments {
        Some(arguments) => {
            call.arguments.append(arguments.as_str());
        },
        None => {},
    }
    let ghost updated = with_arguments(before, call_id@, opt_text(*name), opt_text(*arguments));
    if known {
        assert(before[at as int] == buffer.pending@[at as int]@);
        assert(updated =~= before.update(at as int, call@));
        buffer.pending[at] = call;
        assert(call_views(buffer.pending@) =~= updated);
    } else {
        assert(updated =~= before.push(call@));
        buffer.pending.push(call);
        assert(call_views(buffer.pending@) =~= updated);
    }
}

/// Sends off the pending calls that the client is to run and forgets all of them.
fn flush_calls(
    buffer: &mut ToolDeltaBuffer,
    agent_tools: &StringHashSet,
    item_index: &mut u32,
    events: &mut Vec<SseEvent>,
)
    requires
        *old(item_index) + local_calls(old(buffer)@.pending, agent_tools@).len() <= u32::MAX,
    ensures
        *final(item_index) == *old(item_index) + local_calls(
            old(buffer)@.pending,
            agent_tools@,
        ).len(),
        event_views(final(events)@) == event_views(old(events)@) + call_events(
            local_calls(old(buffer)@.pending, agent_tools@),
        ),
        final(buffer)@ == (BufferView { pending: Seq::empty(), ..old(buffer)@ }),
{
    let mut pending: Vec<PendingCall> = Vec::new();
    pending.append(&mut buffer.pending);
    assert(call_views(pending@) =~= old(buffer)@.pending);
    assert(call_views(buffer.pending@) =~= Seq::empty());
    let ghost all = call_views(pending@);
    let ghost start = *item_index;
    let ghost before = event_views(events@);
    let mut i: usize = 0;
    proof {
        assert(all.take(0) =~= Seq::empty());
        assert(before + call_events(local_calls(all.take(0), agent_tools@)) =~= before);
    }
    while i < pending.len()
        invariant
            i <= pending.len(),
            all == call_views(pending@),
            start + local_calls(all, agent_tools@).len() <= u32::MAX,
            *item_index == start + local_calls(all.take(i as int), agent_tools@).len(),
            event_views(events@) == before + call_events(
                local_calls(all.take(i as int), agent_tools@),
            ),
        decreases pending.len() - i,
    {
        let ghost done = local_calls(all.take(i as int), agent_tools@);
        proof {
            assert(all.take(i + 1).drop_last() =~= all.take(i as int));
            assert(all.take(i + 1).last() == pending@[i as int]@);
            lemma_local_calls_grow(all, i + 1, agent_tools@);
        }
        match route_tool(pending[i].name.as_str(), agent_tools) {
            ToolRoute::CodexLocal => {
                emit(
                    events,
                    SseEvent::output_item_done_function_call(
                        pending[i].call_id.as_str(),
                        pending[i].name.as_str(),
                        pending[i].arguments.as_str(),
                    ),
                );
                *item_index = *item_index + 1;
                proof {
                    let call = pending@[i as int]@;
                    assert(call_events(done.push(call)) =~= call_events(done).push(
                        call_event(call),
                    ));
                    assert(before + call_events(done).push(call_event(call)) =~= (before
                        + call_events(done)).push(call_event(call)));
                }
            },
            ToolRoute::Agent => {},
        }
        i += 1;
    }
    assert(all.take(i as int) =~= all);
}

/// A prefix of the pending calls holds at most as many for the client as all of them.
proof fn lemma_local_calls_grow(pending: Seq<CallView>, n: int, agent_tools: Set<Seq<char>>)
    requires
        0 <= n <= pending.len(),
    ensures
        local_calls(pending.take(n), agent_tools).len() <= local_calls(pending, agent_tools).len(),
    decreases pending.len(),
{
    if n == pending.len() {
        assert(pending.take(n) =~= pending);
    } else {
        assert(pending.drop_last().take(n) =~= pending.take(n));
        lemma_local_calls_grow(pending.drop_last(), n, agent_tools);
    }
}

/// The number of the next item grows by the number of items that the update starts or sends on.
proof fn lemma_step_index(
    update: UpdateView,
    agent_tools: Set<Seq<char>>,
    buffer: BufferView,
    response_id: Seq<char>,
    index: nat,
)
    ensures
        step(update, agent_tools, buffer, response_id, index).index == index + items_of(
            update,
            agent_tools,
            buffer,
        ),
{
}

/// Translate a delta into zero or more SSE events.
fn translate_delta(
    delta: &StreamDelta,
    buffer: &mut ToolDeltaBuffer,
    response_id: &str,
    item_index: &mut u32,
) -> (events: Vec<SseEvent>)
    requires
        delta_step(delta@, old(buffer)@, response_id@, *old(item_index) as nat).index <= u32::MAX,
    ensures
        step_is(
            delta_step(delta@, old(buffer)@, response_id@, *old(item_index) as nat),
            events@,
            final(buffer)@,
            *final(item_index),
        ),
{
    match delta {
        StreamDelta::Text { text_delta } => {
            let mut events = ensure_message(buffer, response_id, item_index);
            match text_delta {
                Some(t) => {
                    add_text(buffer, t.as_str());
                    emit(&mut events, SseEvent::output_text_delta(t.as_str()));
                },
                None => {},
            }
            events
        },
        StreamDelta::ReasoningContent { content_delta, content_index } => {
            let mut events = ensure_reasoning(buffer, response_id, item_index);
            match content_delta {
                Some(t) => {
                    emit(
                        &mut events,
                        SseEvent::reasoning_text_delta(t.as_str(), *content_index),
                    );
                },
                None => {},
            }
            events
        },
        StreamDelta::ReasoningSummary { summary_delta, summary_index } => {
            let mut events = ensure_reasoning(buffer, response_id, item_index);
            match summary_delta {
                Some(t) => {
                    emit(
                        &mut events,
                        SseEvent::reasoning_summary_text_delta(t.as_str(), *summary_index),
                    );
                },
                None => {},
            }
            events
        },
        StreamDelta::Arguments { tool_call_id, name, arguments_delta } => {
            match tool_call_id {
                Some(call_id) => {
                    add_arguments(buffer, call_id, name, arguments_delta);
                },
                None => {},
            }
            no_events()
        },
    }
}

/// Translate a single streaming update into zero or more SSE events.
pub fn translate_stream_event(
    update: &TaskMessageUpdate,
    agent_tools: &StringHashSet,
    buffer: &mut ToolDeltaBuffer,
    response_id: &str,
    item_index: &mut u32,
) -> (events: Vec<SseEvent>)
    requires
        *old(item_index) + items_of(update@, agent_tools@, old(buffer)@) <= u32::MAX,
    ensures
        step_is(
            step(
                update@,
                agent_tools@,
                old(buffer)@,
                response_id@,
                *old(item_index) as nat,
            ),
            events@,
            final(buffer)@,
            *final(item_index),
        ),
        *final(item_index) == *old(item_index) + items_of(update@, agent_tools@, old(buffer)@),
        old(buffer)@.wf() ==> final(buffer)@.wf(),
{
    let ghost start = buffer@;
    let ghost first = *item_index as nat;
    proof {
        lemma_step_index(update@, agent_tools@, start, response_id@, first);
        lemma_step_wf(update@, agent_tools@, start, response_id@, first);
    }
    match update {
        TaskMessageUpdate::Start { content, .. } => {
            match content {
                Some(TaskMessageContent::Text { content: text, .. }) => {
                    if !text.as_str().is_empty() {
                        return start_message(buffer, response_id, item_index, text.clone());
                    }
                },
                _ => {},
            }
            // The first delta tells what kind of item begins.
            let events = close_active_item(buffer, response_id);
            assert(event_views(events@) =~= closing_events(start.active) + Seq::empty());
            events
        },
        TaskMessageUpdate::Delta { delta, .. } => {
            translate_delta(delta, buffer, response_id, item_index)
        },
        TaskMessageUpdate::Full { content, .. } => {
            let mut events = close_active_item(buffer, response_id);
            proof {
                lemma_single_item(content@, agent_tools@, response_id@, first);
            }
            translate_content_item(content, agent_tools, response_id, item_index, &mut events);
            events
        },
        TaskMessageUpdate::Done { content, .. } => {
            let mut events = close_active_item(buffer, response_id);
            match content {
                Some(content) => {
                    proof {
                        lemma_single_item(content@, agent_tools@, response_id@, first);
                    }
                    translate_content_item(
                        content,
                        agent_tools,
                        response_id,
                        item_index,
                        &mut events,
                    );
                },
                None => {
                    assert(event_views(events@) =~= closing_events(start.active) + items_events(
                        Seq::empty(),
                        agent_tools@,
                        response_id@,
                        first,
                    ));
                },
            }
            flush_calls(buffer, agent_tools, item_index, &mut events);
            events
        },
        TaskMessageUpdate::Error { message } => {
            let mut events = no_events();
            emit(&mut events, SseEvent::response_failed("proxy_error", message.as_str()));
            assert(event_views(events@) =~= step(
                update@,
                agent_tools@,
                start,
                response_id@,
                first,
            ).events);
            events
        },
    }
}

/// A pending call is found where it stands.
pub proof fn lemma_call_position(pending: Seq<CallView>, call_id: Seq<char>)
    ensures
        0 <= call_position(pending, call_id) <= pending.len(),
        call_position(pending, call_id) < pending.len() ==> pending[call_position(
            pending,
            call_id,
        )].call_id == call_id,
        forall|i: int|
            0 <= i < call_position(pending, call_id) ==> (#[trigger] pending[i]).call_id
                != call_id,
    decreases pending.len(),
{
    if pending.len() > 0 && pending[0].call_id != call_id {
        let rest = pending.drop_first();
        lemma_call_position(rest, call_id);
        assert forall|i: int| 0 <= i < call_position(pending, call_id) implies (
        #[trigger] pending[i]).call_id != call_id by {
            if i > 0 {
                assert(rest[i - 1] == pending[i]);
            }
        }
    }
}

/// No update makes a call id occur twice.
proof fn lemma_step_wf(
    update: UpdateView,
    agent_tools: Set<Seq<char>>,
    buffer: BufferView,
    response_id: Seq<char>,
    index: nat,
)
    ensures
        buffer.wf() ==> step(update, agent_tools, buffer, response_id, index).buffer.wf(),
{
    if let UpdateView::Delta { delta: DeltaView::Arguments { call_id: Some(call_id), .. } } = update {
        lemma_call_position(buffer.pending, call_id);
    }
}

} // verus!

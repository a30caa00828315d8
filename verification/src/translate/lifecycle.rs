//! The life of an item in a streamed reply, as the client sees it: the item is added, its deltas
//! come in, it is done.

use crate::sse_writer::EventView;
use crate::text::decimal;
use crate::text::decimal_is_injective;
use crate::translate::response::call_events;
use crate::translate::response::closing_events;
use crate::translate::response::content_event;
use crate::translate::response::delta_step;
use crate::translate::response::emits;
use crate::translate::response::emitted;
use crate::translate::response::item_id;
use crate::translate::response::items_events;
use crate::translate::response::local_calls;
use crate::translate::response::lemma_single_item;
use crate::translate::response::step;
use crate::translate::response::ActiveView;
use crate::translate::response::BufferView;
use crate::translate::response::CallView;
use crate::translate::response::StepView;
use crate::translate::types::as_items;
use crate::translate::types::ContentView;
use crate::translate::types::DeltaView;
use crate::translate::types::UpdateView;
use vstd::prelude::*;

verus! {

// ---------------------------------------------------------------------------
// What the client has to expect
// ---------------------------------------------------------------------------

/// What the client knows of the item in progress: a message, with the text that was delivered,
/// or reasoning.
pub type Open = Option<ActiveView>;

/// What the client knows after `event`, where it knew `open` before; `None` where `event` must
/// not come then.
///
/// - An item is added only where none is in progress.
/// - A delta comes only where an item of its kind is in progress.
/// - An item in progress is done under its own id, before anything else is added or done.
/// - Where no item is in progress, an item can be done at once.
pub open spec fn after(open: Open, event: EventView) -> Option<Open> {
    match event {
        EventView::MessageAdded { id } => if open is None {
            Some(Some(ActiveView::Message { id, text: Seq::empty() }))
        } else {
            None
        },
        EventView::ReasoningAdded { id } => if open is None {
            Some(Some(ActiveView::Reasoning { id }))
        } else {
            None
        },
        EventView::TextDelta { delta } => match open {
            Some(ActiveView::Message { id, text }) => Some(
                Some(ActiveView::Message { id, text: text + delta }),
            ),
            _ => None,
        },
        EventView::ReasoningTextDelta { .. } | EventView::ReasoningSummaryDelta { .. } => match open {
            Some(ActiveView::Reasoning { .. }) => Some(open),
            _ => None,
        },
        EventView::MessageDone { id, .. } => match open {
            Some(ActiveView::Message { id: added, .. }) if added == id => Some(None),
            None => Some(None),
            _ => None,
        },
        EventView::ReasoningDone { id, .. } => match open {
            Some(ActiveView::Reasoning { id: added }) if added == id => Some(None),
            None => Some(None),
            _ => None,
        },
        EventView::FunctionCallDone { .. } => if open is None {
            Some(None)
        } else {
            None
        },
        EventView::Failed { .. } => Some(open),
    }
}

/// What the client knows after `events`; `None` where one of them came when it must not.
pub open spec fn after_all(open: Open, events: Seq<EventView>) -> Option<Open>
    decreases events.len(),
{
    if events.len() == 0 {
        Some(open)
    } else {
        match after_all(open, events.drop_last()) {
            Some(known) => after(known, events.last()),
            None => None,
        }
    }
}

/// The same item: the same kind and the same id.
pub open spec fn same_item(a: Open, b: Open) -> bool {
    match (a, b) {
        (Some(ActiveView::Message { id: x, .. }), Some(ActiveView::Message { id: y, .. })) => x
            == y,
        (Some(ActiveView::Reasoning { id: x }), Some(ActiveView::Reasoning { id: y })) => x == y,
        (None, None) => true,
        _ => false,
    }
}

/// What a stream of updates leads to.
pub open spec fn run(
    updates: Seq<UpdateView>,
    agent_tools: Set<Seq<char>>,
    buffer: BufferView,
    response_id: Seq<char>,
    index: nat,
) -> StepView
    decreases updates.len(),
{
    if updates.len() == 0 {
        StepView { events: Seq::empty(), buffer, index }
    } else {
        let before = run(updates.drop_last(), agent_tools, buffer, response_id, index);
        let last = step(updates.last(), agent_tools, before.buffer, response_id, before.index);
        StepView { events: before.events + last.events, ..last }
    }
}

/// Events in two parts are followed one part after the other.
proof fn lemma_after_concat(open: Open, first: Seq<EventView>, second: Seq<EventView>)
    ensures
        after_all(open, first + second) == match after_all(open, first) {
            Some(known) => after_all(known, second),
            None => None,
        },
    decreases second.len(),
{
    let all = first + second;
    if second.len() == 0 {
        assert(all =~= first);
    } else {
        assert(all.drop_last() =~= first + second.drop_last());
        assert(all.last() == second.last());
        lemma_after_concat(open, first, second.drop_last());
    }
}

/// One event is followed on its own.
proof fn lemma_after_one(open: Open, event: EventView)
    ensures
        after_all(open, seq![event]) == after(open, event),
{
    let events = seq![event];
    assert(events.drop_last() =~= Seq::empty());
    assert(after_all(open, events.drop_last()) == Some(open));
}

/// One more event is followed after the others.
proof fn lemma_after_push(open: Open, events: Seq<EventView>, event: EventView)
    ensures
        after_all(open, events.push(event)) == match after_all(open, events) {
            Some(known) => after(known, event),
            None => None,
        },
{
    assert(events.push(event).drop_last() =~= events);
}

/// The item in progress ends.
proof fn lemma_after_closing(active: Option<ActiveView>, open: Open)
    requires
        same_item(open, active),
    ensures
        after_all(open, closing_events(active)) == Some(None::<ActiveView>),
{
    match active {
        Some(ActiveView::Message { id, text }) => {
            lemma_after_one(open, closing_events(active)[0]);
            assert(closing_events(active) =~= seq![closing_events(active)[0]]);
        },
        Some(ActiveView::Reasoning { id }) => {
            lemma_after_one(open, closing_events(active)[0]);
            assert(closing_events(active) =~= seq![closing_events(active)[0]]);
        },
        None => {
            assert(after_all(open, closing_events(active)) == Some(open));
        },
    }
}

/// Tool calls change nothing where no item is in progress.
proof fn lemma_after_calls(events: Seq<EventView>)
    requires
        forall|i: int| 0 <= i < events.len() ==> (#[trigger] events[i]) is FunctionCallDone,
    ensures
        after_all(None, events) == Some(None::<ActiveView>),
    decreases events.len(),
{
    if events.len() > 0 {
        assert forall|i: int| 0 <= i < events.drop_last().len() implies (
        #[trigger] events.drop_last()[i]) is FunctionCallDone by {
            assert(events[i] is FunctionCallDone);
        }
        lemma_after_calls(events.drop_last());
        assert(events[events.len() - 1] is FunctionCallDone);
    }
}

/// A whole item changes nothing where no item is in progress.
proof fn lemma_after_whole_item(
    content: Option<ContentView>,
    agent_tools: Set<Seq<char>>,
    response_id: Seq<char>,
    index: nat,
)
    ensures
        after_all(None, items_events(as_items(content), agent_tools, response_id, index)) == Some(
            None::<ActiveView>,
        ),
{
    if let Some(content) = content {
        lemma_single_item(content, agent_tools, response_id, index);
        if emits(content, agent_tools) {
            lemma_after_one(None, content_event(content, response_id, index));
        }
    }
}

/// What an update leads to is what the client has to expect: where the client knows of the item
/// in progress before the update, each event may come when it does, and the client knows of the
/// item in progress after it.
pub proof fn update_keeps_order(
    update: UpdateView,
    agent_tools: Set<Seq<char>>,
    buffer: BufferView,
    response_id: Seq<char>,
    index: nat,
    open: Open,
)
    requires
        same_item(open, buffer.active),
    ensures
        ({
            let next = step(update, agent_tools, buffer, response_id, index);
            &&& after_all(open, next.events) is Some
            &&& same_item(after_all(open, next.events)->0, next.buffer.active)
        }),
{
    let next = step(update, agent_tools, buffer, response_id, index);
    let closing = closing_events(buffer.active);
    lemma_after_closing(buffer.active, open);
    match update {
        UpdateView::Start { content } => {
            match content {
                Some(ContentView::Text { content: text, .. }) if text.len() > 0 => {
                    lemma_after_push(open, closing, next.events.last());
                },
                _ => {
                    assert(next.events =~= closing);
                },
            }
        },
        UpdateView::Delta { delta } => {
            update_keeps_order_delta(delta, buffer, response_id, index, open);
        },
        UpdateView::Full { content } => {
            let whole = items_events(seq![content], agent_tools, response_id, index);
            lemma_after_whole_item(Some(content), agent_tools, response_id, index);
            lemma_after_concat(open, closing, whole);
        },
        UpdateView::Done { content } => {
            let whole = items_events(as_items(content), agent_tools, response_id, index);
            let calls = call_events(local_calls(buffer.pending, agent_tools));
            lemma_after_whole_item(content, agent_tools, response_id, index);
            lemma_after_concat(open, closing, whole);
            lemma_after_calls(calls);
            lemma_after_concat(open, closing + whole, calls);
        },
        UpdateView::Error { message } => {
            lemma_after_one(open, next.events[0]);
        },
    }
}

/// The same for a delta.
proof fn update_keeps_order_delta(
    delta: DeltaView,
    buffer: BufferView,
    response_id: Seq<char>,
    index: nat,
    open: Open,
)
    requires
        same_item(open, buffer.active),
    ensures
        ({
            let next = delta_step(delta, buffer, response_id, index);
            &&& after_all(open, next.events) is Some
            &&& same_item(after_all(open, next.events)->0, next.buffer.active)
        }),
{
    let next = delta_step(delta, buffer, response_id, index);
    let closing = closing_events(buffer.active);
    let id = item_id(response_id, index);
    lemma_after_closing(buffer.active, open);
    lemma_after_push(open, closing, EventView::MessageAdded { id });
    lemma_after_push(open, closing, EventView::ReasoningAdded { id });
    if next.events.len() > 0 {
        lemma_after_push(open, next.events.drop_last(), next.events.last());
        assert(next.events.drop_last().push(next.events.last()) =~= next.events);
        match delta {
            DeltaView::Text { text: Some(text) } => {
                if buffer.active is Some && buffer.active->0 is Message {
                    assert(next.events.drop_last() =~= Seq::empty());
                } else {
                    assert(next.events.drop_last() =~= closing.push(EventView::MessageAdded { id }));
                }
            },
            DeltaView::ReasoningContent { text: Some(text), .. } => {
                if buffer.active is Some && buffer.active->0 is Reasoning {
                    assert(next.events.drop_last() =~= Seq::empty());
                } else {
                    assert(next.events.drop_last() =~= closing.push(
                        EventView::ReasoningAdded { id },
                    ));
                }
            },
            DeltaView::ReasoningSummary { text: Some(text), .. } => {
                if buffer.active is Some && buffer.active->0 is Reasoning {
                    assert(next.events.drop_last() =~= Seq::empty());
                } else {
                    assert(next.events.drop_last() =~= closing.push(
                        EventView::ReasoningAdded { id },
                    ));
                }
            },
            _ => {},
        }
    }
}

/// The events of a streamed reply come in the order that the client has to expect: each item is
/// added before its first delta and done when it ends, under one id, and no two items overlap.
pub proof fn reply_keeps_order(
    updates: Seq<UpdateView>,
    agent_tools: Set<Seq<char>>,
    buffer: BufferView,
    response_id: Seq<char>,
    index: nat,
    open: Open,
)
    requires
        same_item(open, buffer.active),
    ensures
        ({
            let end = run(updates, agent_tools, buffer, response_id, index);
            &&& after_all(open, end.events) is Some
            &&& same_item(after_all(open, end.events)->0, end.buffer.active)
        }),
    decreases updates.len(),
{
    if updates.len() > 0 {
        let before = run(updates.drop_last(), agent_tools, buffer, response_id, index);
        let last = step(updates.last(), agent_tools, before.buffer, response_id, before.index);
        reply_keeps_order(updates.drop_last(), agent_tools, buffer, response_id, index, open);
        let known = after_all(open, before.events)->0;
        update_keeps_order(
            updates.last(),
            agent_tools,
            before.buffer,
            response_id,
            before.index,
            known,
        );
        lemma_after_concat(open, before.events, last.events);
    }
}

// ---------------------------------------------------------------------------
// Nothing is left behind
// ---------------------------------------------------------------------------

/// After a `Done` update no item is in progress, no call is pending, and the client knows it.
pub proof fn done_ends_everything(
    content: Option<ContentView>,
    agent_tools: Set<Seq<char>>,
    buffer: BufferView,
    response_id: Seq<char>,
    index: nat,
    open: Open,
)
    requires
        same_item(open, buffer.active),
    ensures
        ({
            let next = step(
                UpdateView::Done { content },
                agent_tools,
                buffer,
                response_id,
                index,
            );
            &&& next.buffer == BufferView::empty()
            &&& after_all(open, next.events) == Some(None::<ActiveView>)
        }),
{
    update_keeps_order(
        UpdateView::Done { content },
        agent_tools,
        buffer,
        response_id,
        index,
        open,
    );
}

// ---------------------------------------------------------------------------
// The text of a message
// ---------------------------------------------------------------------------

/// Each message in progress is done with the text that was delivered for it.
pub open spec fn delivers_texts(open: Open, events: Seq<EventView>) -> bool
    decreases events.len(),
{
    events.len() == 0 || {
        &&& delivers_texts(open, events.drop_last())
        &&& match (after_all(open, events.drop_last()), events.last()) {
            (
                Some(Some(ActiveView::Message { text: delivered, .. })),
                EventView::MessageDone { text, .. },
            ) => text == delivered,
            _ => true,
        }
    }
}

/// Whether an update begins a message with text of its own, which comes with no delta.
pub open spec fn brings_text(update: UpdateView) -> bool {
    match update {
        UpdateView::Start { content: Some(ContentView::Text { content: text, .. }) } => text.len()
            > 0,
        _ => false,
    }
}

/// Events in two parts deliver their texts one part after the other.
proof fn lemma_delivers_concat(open: Open, first: Seq<EventView>, second: Seq<EventView>)
    requires
        delivers_texts(open, first),
        after_all(open, first) is Some,
        delivers_texts(after_all(open, first)->0, second),
    ensures
        delivers_texts(open, first + second),
    decreases second.len(),
{
    let all = first + second;
    if second.len() == 0 {
        assert(all =~= first);
    } else {
        assert(all.drop_last() =~= first + second.drop_last());
        assert(all.last() == second.last());
        lemma_delivers_concat(open, first, second.drop_last());
        lemma_after_concat(open, first, second.drop_last());
    }
}

/// Events that are no end of a message in progress deliver all texts there are to deliver.
proof fn lemma_delivers_without_end(open: Open, events: Seq<EventView>)
    requires
        forall|i: int|
            0 <= i < events.len() && (#[trigger] events[i]) is MessageDone ==> match after_all(
                open,
                events.take(i),
            ) {
                Some(Some(ActiveView::Message { text, .. })) => text
                    == events[i]->MessageDone_text,
                _ => true,
            },
    ensures
        delivers_texts(open, events),
    decreases events.len(),
{
    if events.len() > 0 {
        let rest = events.drop_last();
        assert forall|i: int|
            0 <= i < rest.len() && (#[trigger] rest[i]) is MessageDone implies match after_all(
            open,
            rest.take(i),
        ) {
            Some(Some(ActiveView::Message { text, .. })) => text == rest[i]->MessageDone_text,
            _ => true,
        } by {
            assert(events[i] is MessageDone);
            assert(events.take(i) =~= rest.take(i));
        }
        lemma_delivers_without_end(open, rest);
        assert(events.take(events.len() - 1) =~= rest);
        assert(events[events.len() - 1] == events.last());
    }
}

/// The events of an update are those that end the item in progress and then others, none of
/// which ends a message in progress.
proof fn lemma_update_delivers(
    update: UpdateView,
    agent_tools: Set<Seq<char>>,
    buffer: BufferView,
    response_id: Seq<char>,
    index: nat,
)
    requires
        !brings_text(update),
    ensures
        ({
            let next = step(update, agent_tools, buffer, response_id, index);
            &&& delivers_texts(buffer.active, next.events)
            &&& after_all(buffer.active, next.events) == Some(next.buffer.active)
        }),
{
    let next = step(update, agent_tools, buffer, response_id, index);
    let open = buffer.active;
    let closing = closing_events(buffer.active);
    let id = item_id(response_id, index);
    lemma_after_closing(buffer.active, open);
    update_keeps_order(update, agent_tools, buffer, response_id, index, open);
    assert(delivers_texts(open, closing)) by {
        lemma_delivers_without_end(open, closing);
    }
    match update {
        UpdateView::Start { .. } => {
            assert(next.events =~= closing);
        },
        UpdateView::Delta { delta } => {
            let adds_message = closing.push(EventView::MessageAdded { id });
            let adds_reasoning = closing.push(EventView::ReasoningAdded { id });
            lemma_after_push(open, closing, EventView::MessageAdded { id });
            lemma_after_push(open, closing, EventView::ReasoningAdded { id });
            assert(adds_message.drop_last() =~= closing);
            assert(adds_reasoning.drop_last() =~= closing);
            assert(delivers_texts(open, adds_message));
            assert(delivers_texts(open, adds_reasoning));
            if next.events.len() > 0 {
                let init = next.events.drop_last();
                lemma_after_push(open, init, next.events.last());
                assert(init.push(next.events.last()) =~= next.events);
                match delta {
                    DeltaView::Text { text: Some(text) } => {
                        if open is Some && open->0 is Message {
                            assert(init =~= Seq::empty());
                        } else {
                            assert(init =~= adds_message);
                            assert(Seq::<char>::empty() + text =~= text);
                        }
                        assert(delivers_texts(open, init));
                    },
                    DeltaView::ReasoningContent { text: Some(_), .. }
                    | DeltaView::ReasoningSummary { text: Some(_), .. } => {
                        if open is Some && open->0 is Reasoning {
                            assert(init =~= Seq::empty());
                        } else {
                            assert(init =~= adds_reasoning);
                        }
                        assert(delivers_texts(open, init));
                    },
                    _ => {},
                }
            }
        },
        UpdateView::Full { content } => {
            lemma_whole_delivers(Some(content), agent_tools, response_id, index);
            let whole = items_events(seq![content], agent_tools, response_id, index);
            lemma_delivers_concat(open, closing, whole);
        },
        UpdateView::Done { content } => {
            lemma_whole_delivers(content, agent_tools, response_id, index);
            lemma_after_whole_item(content, agent_tools, response_id, index);
            let whole = items_events(as_items(content), agent_tools, response_id, index);
            let calls = call_events(local_calls(buffer.pending, agent_tools));
            lemma_delivers_concat(open, closing, whole);
            lemma_after_concat(open, closing, whole);
            lemma_delivers_without_end(None, calls);
            lemma_delivers_concat(open, closing + whole, calls);
        },
        UpdateView::Error { message } => {
            lemma_after_one(open, next.events[0]);
            lemma_delivers_without_end(open, next.events);
        },
    }
}

/// A whole item is no end of a message in progress.
proof fn lemma_whole_delivers(
    content: Option<ContentView>,
    agent_tools: Set<Seq<char>>,
    response_id: Seq<char>,
    index: nat,
)
    ensures
        delivers_texts(None, items_events(as_items(content), agent_tools, response_id, index)),
{
    let events = items_events(as_items(content), agent_tools, response_id, index);
    if let Some(content) = content {
        lemma_single_item(content, agent_tools, response_id, index);
    }
    assert(events.len() <= 1);
    if events.len() == 1 {
        assert(events.drop_last() =~= Seq::empty());
        assert(delivers_texts(None, events.drop_last()));
        assert(after_all(None, events.drop_last()) == Some(None::<ActiveView>));
    }
}

/// One update and the events that it led to.
pub struct Turn {
    pub update: UpdateView,
    pub events: Seq<EventView>,
}

/// A stream of updates, each with the events that it leads to.
pub open spec fn turns(
    updates: Seq<UpdateView>,
    agent_tools: Set<Seq<char>>,
    buffer: BufferView,
    response_id: Seq<char>,
    index: nat,
) -> Seq<Turn>
    decreases updates.len(),
{
    if updates.len() == 0 {
        Seq::empty()
    } else {
        let rest = updates.drop_last();
        let before = run(rest, agent_tools, buffer, response_id, index);
        let last = step(updates.last(), agent_tools, before.buffer, response_id, before.index);
        turns(rest, agent_tools, buffer, response_id, index).push(
            Turn { update: updates.last(), events: last.events },
        )
    }
}

/// The item in progress after `update`, where `open` is what its events say: a message begins
/// with the text that the update brings.
pub open spec fn with_start(open: Open, update: UpdateView) -> Open {
    match (open, update) {
        (
            Some(ActiveView::Message { id, text }),
            UpdateView::Start { content: Some(ContentView::Text { content: start, .. }) },
        ) => Some(ActiveView::Message { id, text: start + text }),
        _ => open,
    }
}

/// The item in progress after `turns`, a message with the text that its start brought followed
/// by the text of its deltas; `None` where an event came when it must not.
pub open spec fn after_turns(open: Open, turns: Seq<Turn>) -> Option<Open>
    decreases turns.len(),
{
    if turns.len() == 0 {
        Some(open)
    } else {
        match after_turns(open, turns.drop_last()) {
            Some(known) => match after_all(known, turns.last().events) {
                Some(now) => Some(with_start(now, turns.last().update)),
                None => None,
            },
            None => None,
        }
    }
}

/// Each message in progress is done with the text that its start brought followed by the text of
/// its deltas.
pub open spec fn turns_deliver_texts(open: Open, turns: Seq<Turn>) -> bool
    decreases turns.len(),
{
    turns.len() == 0 || {
        &&& turns_deliver_texts(open, turns.drop_last())
        &&& match after_turns(open, turns.drop_last()) {
            Some(known) => delivers_texts(known, turns.last().events),
            None => false,
        }
    }
}

/// The events of the turns, one turn after the other, are the events of the reply.
pub proof fn turns_make_up_the_reply(
    updates: Seq<UpdateView>,
    agent_tools: Set<Seq<char>>,
    buffer: BufferView,
    response_id: Seq<char>,
    index: nat,
)
    ensures
        turns(updates, agent_tools, buffer, response_id, index).map_values(
            |t: Turn| t.events,
        ).flatten_alt() == run(updates, agent_tools, buffer, response_id, index).events,
    decreases updates.len(),
{
    let all = turns(updates, agent_tools, buffer, response_id, index);
    let events = all.map_values(|t: Turn| t.events);
    if updates.len() > 0 {
        let rest = updates.drop_last();
        turns_make_up_the_reply(rest, agent_tools, buffer, response_id, index);
        assert(events.drop_last() =~= turns(
            rest,
            agent_tools,
            buffer,
            response_id,
            index,
        ).map_values(|t: Turn| t.events));
    }
}

/// An update that begins a message with text of its own ends the item in progress and adds the
/// message.
proof fn lemma_start_delivers(
    update: UpdateView,
    agent_tools: Set<Seq<char>>,
    buffer: BufferView,
    response_id: Seq<char>,
    index: nat,
)
    requires
        brings_text(update),
    ensures
        ({
            let next = step(update, agent_tools, buffer, response_id, index);
            &&& delivers_texts(buffer.active, next.events)
            &&& after_all(buffer.active, next.events) is Some
            &&& with_start(after_all(buffer.active, next.events)->0, update) == next.buffer.active
        }),
{
    let closing = closing_events(buffer.active);
    let added = EventView::MessageAdded { id: item_id(response_id, index) };
    let next = step(update, agent_tools, buffer, response_id, index);
    let text = update->Start_content->0->Text_content;
    lemma_after_closing(buffer.active, buffer.active);
    lemma_after_push(buffer.active, closing, added);
    lemma_delivers_without_end(buffer.active, closing);
    assert(closing.push(added).drop_last() =~= closing);
    assert(text + Seq::<char>::empty() =~= text);
}

/// A streamed message is done with the text that its start brought followed by the text of its
/// deltas, in order, and nothing else.
pub proof fn reply_delivers_texts(
    updates: Seq<UpdateView>,
    agent_tools: Set<Seq<char>>,
    buffer: BufferView,
    response_id: Seq<char>,
    index: nat,
)
    ensures
        ({
            let end = run(updates, agent_tools, buffer, response_id, index);
            let turns = turns(updates, agent_tools, buffer, response_id, index);
            &&& turns_deliver_texts(buffer.active, turns)
            &&& after_turns(buffer.active, turns) == Some(end.buffer.active)
        }),
    decreases updates.len(),
{
    if updates.len() > 0 {
        let rest = updates.drop_last();
        let update = updates.last();
        let before = run(rest, agent_tools, buffer, response_id, index);
        let all = turns(updates, agent_tools, buffer, response_id, index);
        reply_delivers_texts(rest, agent_tools, buffer, response_id, index);
        assert(all.drop_last() =~= turns(rest, agent_tools, buffer, response_id, index));
        if brings_text(update) {
            lemma_start_delivers(update, agent_tools, before.buffer, response_id, before.index);
        } else {
            lemma_update_delivers(update, agent_tools, before.buffer, response_id, before.index);
            let now = step(update, agent_tools, before.buffer, response_id, before.index);
            if let UpdateView::Start { .. } = update {
                assert(now.buffer.active is None);
            }
        }
    }
}

/// Where no update begins a message with text of its own, a streamed message is done with the
/// text of the deltas that the client got for it, in order, and nothing else.
pub proof fn deltas_deliver_texts(
    updates: Seq<UpdateView>,
    agent_tools: Set<Seq<char>>,
    buffer: BufferView,
    response_id: Seq<char>,
    index: nat,
)
    requires
        forall|i: int| 0 <= i < updates.len() ==> !brings_text(#[trigger] updates[i]),
    ensures
        ({
            let end = run(updates, agent_tools, buffer, response_id, index);
            &&& delivers_texts(buffer.active, end.events)
            &&& after_all(buffer.active, end.events) == Some(end.buffer.active)
        }),
    decreases updates.len(),
{
    if updates.len() > 0 {
        let rest = updates.drop_last();
        assert forall|i: int| 0 <= i < rest.len() implies !brings_text(#[trigger] rest[i]) by {
            assert(rest[i] == updates[i]);
        }
        let before = run(rest, agent_tools, buffer, response_id, index);
        let last = step(updates.last(), agent_tools, before.buffer, response_id, before.index);
        deltas_deliver_texts(rest, agent_tools, buffer, response_id, index);
        assert(!brings_text(updates[updates.len() - 1]));
        lemma_update_delivers(
            updates.last(),
            agent_tools,
            before.buffer,
            response_id,
            before.index,
        );
        lemma_delivers_concat(buffer.active, before.events, last.events);
        lemma_after_concat(buffer.active, before.events, last.events);
    }
}

// ---------------------------------------------------------------------------
// Ids
// ---------------------------------------------------------------------------

/// The id of the item that an event brings up for the first time: one that is added, or done
/// without having been added.
pub open spec fn new_id(open: Open, event: EventView) -> Option<Seq<char>> {
    match event {
        EventView::MessageAdded { id } | EventView::ReasoningAdded { id } => Some(id),
        EventView::MessageDone { id, .. } | EventView::ReasoningDone { id, .. } => if open is None {
            Some(id)
        } else {
            None
        },
        _ => None,
    }
}

/// The ids of the items that events bring up, in order.
pub open spec fn new_ids(open: Open, events: Seq<EventView>) -> Seq<Seq<char>>
    decreases events.len(),
{
    if events.len() == 0 {
        Seq::empty()
    } else {
        let before = new_ids(open, events.drop_last());
        match after_all(open, events.drop_last()) {
            Some(known) => match new_id(known, events.last()) {
                Some(id) => before.push(id),
                None => before,
            },
            None => before,
        }
    }
}

/// Each of `ids` is that of an item with a number from `low` up to, but not including, `high`.
pub open spec fn numbered(
    ids: Seq<Seq<char>>,
    response_id: Seq<char>,
    low: nat,
    high: nat,
) -> bool {
    forall|i: int|
        0 <= i < ids.len() ==> exists|k: nat|
            low <= k < high && #[trigger] item_id(response_id, k) == #[trigger] ids[i]
}

/// Items of one response with the same id have the same number.
pub proof fn item_id_is_injective(response_id: Seq<char>, a: nat, b: nat)
    requires
        item_id(response_id, a) == item_id(response_id, b),
    ensures
        a == b,
{
    let lead = response_id + "_item_"@;
    let n = lead.len() as int;
    assert(item_id(response_id, a).skip(n) =~= decimal(a));
    assert(item_id(response_id, b).skip(n) =~= decimal(b));
    decimal_is_injective(a, b);
}

/// Events in two parts bring up their items one part after the other.
proof fn lemma_new_ids_concat(open: Open, first: Seq<EventView>, second: Seq<EventView>)
    requires
        after_all(open, first) is Some,
    ensures
        new_ids(open, first + second) == new_ids(open, first) + new_ids(
            after_all(open, first)->0,
            second,
        ),
    decreases second.len(),
{
    let all = first + second;
    if second.len() == 0 {
        assert(all =~= first);
        assert(new_ids(open, all) =~= new_ids(open, first) + Seq::empty());
    } else {
        assert(all.drop_last() =~= first + second.drop_last());
        assert(all.last() == second.last());
        lemma_new_ids_concat(open, first, second.drop_last());
        lemma_after_concat(open, first, second.drop_last());
        assert(new_ids(open, all) =~= new_ids(open, first) + new_ids(
            after_all(open, first)->0,
            second,
        ));
    }
}

/// One event brings up at most one item.
proof fn lemma_new_ids_one(open: Open, event: EventView)
    ensures
        new_ids(open, seq![event]) == match new_id(open, event) {
            Some(id) => seq![id],
            None => Seq::empty(),
        },
{
    let events = seq![event];
    assert(events.drop_last() =~= Seq::empty());
    assert(after_all(open, events.drop_last()) == Some(open));
    assert(new_ids(open, events.drop_last()) =~= Seq::empty());
    assert(new_ids(open, events) =~= match new_id(open, event) {
        Some(id) => seq![id],
        None => Seq::empty(),
    });
}

/// The end of the item in progress brings up no item.
proof fn lemma_closing_brings_nothing(active: Option<ActiveView>, open: Open)
    requires
        same_item(open, active),
    ensures
        new_ids(open, closing_events(active)) == Seq::<Seq<char>>::empty(),
{
    if active is Some {
        let events = closing_events(active);
        lemma_new_ids_one(open, events[0]);
        assert(events =~= seq![events[0]]);
    }
}

/// Tool calls bring up no item with an id.
proof fn lemma_calls_bring_nothing(open: Open, events: Seq<EventView>)
    requires
        forall|i: int| 0 <= i < events.len() ==> (#[trigger] events[i]) is FunctionCallDone,
    ensures
        new_ids(open, events) == Seq::<Seq<char>>::empty(),
    decreases events.len(),
{
    if events.len() > 0 {
        assert forall|i: int| 0 <= i < events.drop_last().len() implies (
        #[trigger] events.drop_last()[i]) is FunctionCallDone by {
            assert(events[i] is FunctionCallDone);
        }
        lemma_calls_bring_nothing(open, events.drop_last());
        assert(events[events.len() - 1] is FunctionCallDone);
    }
}

/// An update brings up at most one item with an id, which has the number that was next.
proof fn lemma_update_new_ids(
    update: UpdateView,
    agent_tools: Set<Seq<char>>,
    buffer: BufferView,
    response_id: Seq<char>,
    index: nat,
    open: Open,
)
    requires
        same_item(open, buffer.active),
    ensures
        ({
            let next = step(update, agent_tools, buffer, response_id, index);
            let ids = new_ids(open, next.events);
            &&& next.index >= index
            &&& (ids == Seq::<Seq<char>>::empty() || ids == seq![item_id(response_id, index)]
                && next.index > index)
        }),
{
    let next = step(update, agent_tools, buffer, response_id, index);
    let closing = closing_events(buffer.active);
    let id = item_id(response_id, index);
    lemma_after_closing(buffer.active, open);
    lemma_closing_brings_nothing(buffer.active, open);
    match update {
        UpdateView::Start { .. } => {
            let added = EventView::MessageAdded { id };
            lemma_new_ids_concat(open, closing, seq![added]);
            lemma_new_ids_one(None, added);
            assert(closing.push(added) =~= closing + seq![added]);
            assert(Seq::<Seq<char>>::empty() + seq![id] =~= seq![id]);
            assert(closing + Seq::empty() =~= closing);
        },
        UpdateView::Delta { delta } => {
            lemma_delta_new_ids(delta, buffer, response_id, index, open);
        },
        UpdateView::Full { content } => {
            lemma_whole_new_ids(Some(content), agent_tools, response_id, index);
            let whole = items_events(seq![content], agent_tools, response_id, index);
            lemma_new_ids_concat(open, closing, whole);
            assert(new_ids(open, next.events) =~= new_ids(None, whole));
        },
        UpdateView::Done { content } => {
            lemma_whole_new_ids(content, agent_tools, response_id, index);
            lemma_after_whole_item(content, agent_tools, response_id, index);
            let whole = items_events(as_items(content), agent_tools, response_id, index);
            let calls = call_events(local_calls(buffer.pending, agent_tools));
            lemma_new_ids_concat(open, closing, whole);
            lemma_after_concat(open, closing, whole);
            lemma_calls_bring_nothing(None, calls);
            lemma_new_ids_concat(open, closing + whole, calls);
            assert(new_ids(open, next.events) =~= new_ids(None, whole));
        },
        UpdateView::Error { message } => {
            lemma_new_ids_one(open, next.events[0]);
        },
    }
}

/// The same for a delta.
proof fn lemma_delta_new_ids(
    delta: DeltaView,
    buffer: BufferView,
    response_id: Seq<char>,
    index: nat,
    open: Open,
)
    requires
        same_item(open, buffer.active),
    ensures
        ({
            let next = delta_step(delta, buffer, response_id, index);
            let ids = new_ids(open, next.events);
            &&& next.index >= index
            &&& (ids == Seq::<Seq<char>>::empty() || ids == seq![item_id(response_id, index)]
                && next.index > index)
        }),
{
    let next = delta_step(delta, buffer, response_id, index);
    let closing = closing_events(buffer.active);
    let id = item_id(response_id, index);
    lemma_after_closing(buffer.active, open);
    lemma_closing_brings_nothing(buffer.active, open);
    let added = match delta {
        DeltaView::Text { .. } => EventView::MessageAdded { id },
        _ => EventView::ReasoningAdded { id },
    };
    let begin = closing.push(added);
    lemma_new_ids_concat(open, closing, seq![added]);
    lemma_new_ids_one(None, added);
    assert(begin =~= closing + seq![added]);
    assert(new_ids(open, begin) =~= seq![id]);
    lemma_after_push(open, closing, added);
    if next.events.len() > 0 {
        let init = next.events.drop_last();
        let last = next.events.last();
        assert(next.events =~= init + seq![last]);
        if last is TextDelta || last is ReasoningTextDelta || last is ReasoningSummaryDelta {
            if next.index == index {
                assert(init =~= Seq::empty());
                lemma_new_ids_one(open, last);
                assert(next.events =~= seq![last]);
            } else {
                assert(init =~= begin);
                lemma_new_ids_concat(open, init, seq![last]);
                lemma_new_ids_one(after_all(open, init)->0, last);
                assert(new_ids(open, next.events) =~= seq![id]);
            }
        } else {
            assert(next.events =~= begin);
        }
    }
}

/// The same for a whole item.
proof fn lemma_whole_new_ids(
    content: Option<ContentView>,
    agent_tools: Set<Seq<char>>,
    response_id: Seq<char>,
    index: nat,
)
    ensures
        ({
            let events = items_events(as_items(content), agent_tools, response_id, index);
            let ids = new_ids(None, events);
            ids == Seq::<Seq<char>>::empty() || ids == seq![item_id(response_id, index)]
                && emitted(as_items(content), agent_tools) > 0
        }),
{
    if let Some(content) = content {
        lemma_single_item(content, agent_tools, response_id, index);
        if emits(content, agent_tools) {
            lemma_new_ids_one(None, content_event(content, response_id, index));
        }
    }
}

/// Each item of a streamed reply has an id of its own: no two of the items that are added, or
/// done without having been added, have the same id.
pub proof fn reply_ids_are_distinct(
    updates: Seq<UpdateView>,
    agent_tools: Set<Seq<char>>,
    buffer: BufferView,
    response_id: Seq<char>,
    index: nat,
    open: Open,
)
    requires
        same_item(open, buffer.active),
    ensures
        ({
            let end = run(updates, agent_tools, buffer, response_id, index);
            &&& new_ids(open, end.events).no_duplicates()
            &&& numbered(new_ids(open, end.events), response_id, index, end.index)
        }),
    decreases updates.len(),
{
    if updates.len() > 0 {
        let before = run(updates.drop_last(), agent_tools, buffer, response_id, index);
        let last = step(updates.last(), agent_tools, before.buffer, response_id, before.index);
        let end = run(updates, agent_tools, buffer, response_id, index);
        reply_ids_are_distinct(updates.drop_last(), agent_tools, buffer, response_id, index, open);
        reply_keeps_order(updates.drop_last(), agent_tools, buffer, response_id, index, open);
        lemma_run_index(updates.drop_last(), agent_tools, buffer, response_id, index);
        let known = after_all(open, before.events)->0;
        lemma_update_new_ids(
            updates.last(),
            agent_tools,
            before.buffer,
            response_id,
            before.index,
            known,
        );
        lemma_new_ids_concat(open, before.events, last.events);
        let old_ids = new_ids(open, before.events);
        let ids = new_ids(open, end.events);
        let fresh = item_id(response_id, before.index);
        if new_ids(known, last.events).len() > 0 {
            assert(ids =~= old_ids.push(fresh));
            assert forall|i: int| 0 <= i < old_ids.len() implies #[trigger] old_ids[i] != fresh by {
                let k = choose|k: nat|
                    index <= k < before.index && #[trigger] item_id(response_id, k) == old_ids[i];
                if old_ids[i] == fresh {
                    item_id_is_injective(response_id, k, before.index);
                }
            }
        } else {
            assert(ids =~= old_ids);
        }
        assert forall|i: int| 0 <= i < ids.len() implies exists|k: nat|
            index <= k < end.index && #[trigger] item_id(response_id, k) == #[trigger] ids[i] by {
            if i < old_ids.len() {
                assert(ids[i] == old_ids[i]);
                let k = choose|k: nat|
                    index <= k < before.index && #[trigger] item_id(response_id, k) == old_ids[i];
                assert(index <= k < end.index && item_id(response_id, k) == ids[i]);
            } else {
                assert(index <= before.index < end.index && item_id(response_id, before.index)
                    == ids[i]);
            }
        }
    }
}

/// The number of the next item never goes back.
proof fn lemma_run_index(
    updates: Seq<UpdateView>,
    agent_tools: Set<Seq<char>>,
    buffer: BufferView,
    response_id: Seq<char>,
    index: nat,
)
    ensures
        run(updates, agent_tools, buffer, response_id, index).index >= index,
    decreases updates.len(),
{
    if updates.len() > 0 {
        lemma_run_index(updates.drop_last(), agent_tools, buffer, response_id, index);
    }
}

// ---------------------------------------------------------------------------
// Tools of the agent
// ---------------------------------------------------------------------------

/// No event asks the client to run a tool that the agent runs.
pub open spec fn spares_agent_tools(events: Seq<EventView>, agent_tools: Set<Seq<char>>) -> bool {
    forall|i: int|
        0 <= i < events.len() && (#[trigger] events[i]) is FunctionCallDone
            ==> !agent_tools.contains(events[i]->FunctionCallDone_name)
}

/// Whole items never make the client run a tool that the agent runs.
pub proof fn items_spare_agent_tools(
    items: Seq<ContentView>,
    agent_tools: Set<Seq<char>>,
    response_id: Seq<char>,
    index: nat,
)
    ensures
        spares_agent_tools(items_events(items, agent_tools, response_id, index), agent_tools),
    decreases items.len(),
{
    if items.len() > 0 {
        items_spare_agent_tools(items.drop_last(), agent_tools, response_id, index);
    }
}

/// Of the pending calls, only those that the agent does not run are for the client.
proof fn lemma_local_calls(pending: Seq<CallView>, agent_tools: Set<Seq<char>>)
    ensures
        forall|i: int|
            0 <= i < local_calls(pending, agent_tools).len() ==> !agent_tools.contains(
                (#[trigger] local_calls(pending, agent_tools)[i]).name,
            ),
    decreases pending.len(),
{
    if pending.len() > 0 {
        let rest = local_calls(pending.drop_last(), agent_tools);
        let calls = local_calls(pending, agent_tools);
        lemma_local_calls(pending.drop_last(), agent_tools);
        assert forall|i: int| 0 <= i < calls.len() implies !agent_tools.contains(
            (#[trigger] calls[i]).name,
        ) by {
            if i < rest.len() {
                assert(calls[i] == rest[i]);
            }
        }
    }
}

/// A streamed reply never makes the client run a tool that the agent runs.
pub proof fn reply_spares_agent_tools(
    updates: Seq<UpdateView>,
    agent_tools: Set<Seq<char>>,
    buffer: BufferView,
    response_id: Seq<char>,
    index: nat,
)
    ensures
        spares_agent_tools(
            run(updates, agent_tools, buffer, response_id, index).events,
            agent_tools,
        ),
    decreases updates.len(),
{
    if updates.len() > 0 {
        let before = run(updates.drop_last(), agent_tools, buffer, response_id, index);
        reply_spares_agent_tools(updates.drop_last(), agent_tools, buffer, response_id, index);
        lemma_local_calls(before.buffer.pending, agent_tools);
        match updates.last() {
            UpdateView::Full { content } => {
                items_spare_agent_tools(seq![content], agent_tools, response_id, before.index);
            },
            UpdateView::Done { content } => {
                items_spare_agent_tools(as_items(content), agent_tools, response_id, before.index);
            },
            _ => {
                items_spare_agent_tools(Seq::empty(), agent_tools, response_id, before.index);
            },
        }
    }
}

} // verus!

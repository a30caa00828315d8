//! Tool calls that are streamed in pieces.

use crate::text::text_or_empty;
use crate::translate::lifecycle::run;
use crate::translate::response::call_event;
use crate::translate::response::call_events;
use crate::translate::response::call_position;
use crate::translate::response::closing_events;
use crate::translate::response::items_events;
use crate::translate::response::lemma_call_position;
use crate::translate::response::local_calls;
use crate::translate::response::step;
use crate::translate::response::with_arguments;
use crate::translate::response::BufferView;
use crate::translate::response::CallView;
use crate::translate::types::as_items;
use crate::translate::types::ContentView;
use crate::translate::types::DeltaView;
use crate::translate::types::UpdateView;
use vstd::prelude::*;

verus! {

/// The pending call with the id `call_id`, where there is one.
pub open spec fn call_of(pending: Seq<CallView>, call_id: Seq<char>) -> Option<CallView> {
    let at = call_position(pending, call_id);
    if at < pending.len() {
        Some(pending[at])
    } else {
        None
    }
}

/// What is known of the call `call_id` after a piece of it, where `known` was known before: a
/// name replaces the name so far, arguments are added to those so far.
pub open spec fn with_piece(
    known: Option<CallView>,
    call_id: Seq<char>,
    name: Option<Seq<char>>,
    arguments: Option<Seq<char>>,
) -> CallView {
    CallView {
        call_id,
        name: match (name, known) {
            (Some(name), _) => name,
            (None, Some(known)) => known.name,
            (None, None) => Seq::empty(),
        },
        arguments: match known {
            Some(known) => known.arguments + text_or_empty(arguments),
            None => text_or_empty(arguments),
        },
    }
}

/// What is known of the call `call_id` after `updates`, where `known` was known before. A call is
/// forgotten when the message is done.
pub open spec fn heard(
    known: Option<CallView>,
    call_id: Seq<char>,
    updates: Seq<UpdateView>,
) -> Option<CallView>
    decreases updates.len(),
{
    if updates.len() == 0 {
        known
    } else {
        let before = heard(known, call_id, updates.drop_last());
        match updates.last() {
            UpdateView::Delta {
                delta: DeltaView::Arguments { call_id: Some(id), name, arguments },
            } => if id == call_id {
                Some(with_piece(before, call_id, name, arguments))
            } else {
                before
            },
            UpdateView::Done { .. } => None,
            _ => before,
        }
    }
}

/// A call id stands where it is first found.
proof fn lemma_first_position(pending: Seq<CallView>, call_id: Seq<char>, at: int)
    requires
        0 <= at <= pending.len(),
        at < pending.len() ==> pending[at].call_id == call_id,
        forall|i: int| 0 <= i < at ==> (#[trigger] pending[i]).call_id != call_id,
    ensures
        call_position(pending, call_id) == at,
{
    lemma_call_position(pending, call_id);
    let found = call_position(pending, call_id);
    if found < at {
        assert(pending[found].call_id != call_id);
    } else if at < found {
        assert(pending[at].call_id != call_id);
    }
}

/// A piece of one call adds to that call and leaves every other call as it was.
pub proof fn piece_adds_to_its_call(
    pending: Seq<CallView>,
    call_id: Seq<char>,
    name: Option<Seq<char>>,
    arguments: Option<Seq<char>>,
    other: Seq<char>,
)
    ensures
        call_of(with_arguments(pending, call_id, name, arguments), other) == if other == call_id {
            Some(with_piece(call_of(pending, call_id), call_id, name, arguments))
        } else {
            call_of(pending, other)
        },
{
    let at = call_position(pending, call_id);
    let after = with_arguments(pending, call_id, name, arguments);
    lemma_call_position(pending, call_id);
    lemma_call_position(pending, other);
    assert(after[at].call_id == call_id);
    if other == call_id {
        assert forall|i: int| 0 <= i < at implies (#[trigger] after[i]).call_id != call_id by {
            assert(after[i] == pending[i]);
        }
        lemma_first_position(after, call_id, at);
        assert(text_or_empty(arguments) =~= Seq::empty() + text_or_empty(arguments));
    } else {
        let spot = call_position(pending, other);
        assert forall|i: int| 0 <= i < spot implies (#[trigger] after[i]).call_id != other by {
            if i != at {
                assert(after[i] == pending[i]);
            }
        }
        if spot < pending.len() {
            assert(after[spot] == pending[spot]);
            lemma_first_position(after, other, spot);
        } else {
            assert forall|i: int| 0 <= i < after.len() implies (#[trigger] after[i]).call_id
                != other by {
                if i != at {
                    assert(after[i] == pending[i]);
                }
            }
            lemma_first_position(after, other, after.len() as int);
        }
    }
}

/// The pieces of a call add up in the order in which they come, whatever comes between them.
pub proof fn pieces_add_up(
    updates: Seq<UpdateView>,
    agent_tools: Set<Seq<char>>,
    buffer: BufferView,
    response_id: Seq<char>,
    index: nat,
    call_id: Seq<char>,
)
    ensures
        call_of(run(updates, agent_tools, buffer, response_id, index).buffer.pending, call_id)
            == heard(call_of(buffer.pending, call_id), call_id, updates),
    decreases updates.len(),
{
    if updates.len() > 0 {
        let before = run(updates.drop_last(), agent_tools, buffer, response_id, index);
        pieces_add_up(updates.drop_last(), agent_tools, buffer, response_id, index, call_id);
        if let UpdateView::Delta {
            delta: DeltaView::Arguments { call_id: Some(id), name, arguments },
        } = updates.last() {
            piece_adds_to_its_call(before.buffer.pending, id, name, arguments, call_id);
        }
    }
}

/// Two pieces of a call say the same as one piece with the arguments of both.
pub proof fn pieces_can_be_joined(
    pending: Seq<CallView>,
    call_id: Seq<char>,
    name: Option<Seq<char>>,
    first: Seq<char>,
    second: Seq<char>,
)
    ensures
        with_arguments(
            with_arguments(pending, call_id, name, Some(first)),
            call_id,
            None,
            Some(second),
        ) == with_arguments(pending, call_id, name, Some(first + second)),
{
    let at = call_position(pending, call_id);
    let once = with_arguments(pending, call_id, name, Some(first));
    let twice = with_arguments(once, call_id, None, Some(second));
    let joined = with_arguments(pending, call_id, name, Some(first + second));
    lemma_call_position(pending, call_id);
    assert forall|i: int| 0 <= i < at implies (#[trigger] once[i]).call_id != call_id by {
        assert(once[i] == pending[i]);
    }
    lemma_first_position(once, call_id, at);
    assert(twice[at] =~= joined[at]);
    assert(twice =~= joined);
}

/// A pending call that the client is to run is among the calls that it is to run.
proof fn lemma_local_call_is_kept(pending: Seq<CallView>, agent_tools: Set<Seq<char>>, at: int)
    requires
        0 <= at < pending.len(),
        !agent_tools.contains(pending[at].name),
    ensures
        local_calls(pending, agent_tools).contains(pending[at]),
    decreases pending.len(),
{
    let calls = local_calls(pending, agent_tools);
    if at == pending.len() - 1 {
        assert(calls[calls.len() - 1] == pending[at]);
    } else {
        let rest = local_calls(pending.drop_last(), agent_tools);
        lemma_local_call_is_kept(pending.drop_last(), agent_tools, at);
        let i = choose|i: int| 0 <= i < rest.len() && rest[i] == pending[at];
        assert(calls[i] == pending[at]);
    }
}

/// When the message is done, each call that was streamed in pieces is sent on whole, unless the
/// agent runs the tool.
pub proof fn streamed_call_is_sent_whole(
    updates: Seq<UpdateView>,
    agent_tools: Set<Seq<char>>,
    buffer: BufferView,
    response_id: Seq<char>,
    index: nat,
    content: Option<ContentView>,
    call_id: Seq<char>,
)
    requires
        heard(call_of(buffer.pending, call_id), call_id, updates) matches Some(call)
            && !agent_tools.contains(call.name),
    ensures
        ({
            let before = run(updates, agent_tools, buffer, response_id, index);
            let call = heard(call_of(buffer.pending, call_id), call_id, updates)->0;
            step(
                UpdateView::Done { content },
                agent_tools,
                before.buffer,
                response_id,
                before.index,
            ).events.contains(call_event(call))
        }),
{
    let before = run(updates, agent_tools, buffer, response_id, index);
    let call = heard(call_of(buffer.pending, call_id), call_id, updates)->0;
    let pending = before.buffer.pending;
    let at = call_position(pending, call_id);
    pieces_add_up(updates, agent_tools, buffer, response_id, index, call_id);
    lemma_call_position(pending, call_id);
    lemma_local_call_is_kept(pending, agent_tools, at);
    let calls = local_calls(pending, agent_tools);
    let i = choose|i: int| 0 <= i < calls.len() && calls[i] == pending[at];
    let lead = closing_events(before.buffer.active) + items_events(
        as_items(content),
        agent_tools,
        response_id,
        before.index,
    );
    let done = step(
        UpdateView::Done { content },
        agent_tools,
        before.buffer,
        response_id,
        before.index,
    );
    assert(call_events(calls)[i] == call_event(call));
    assert(done.events =~= lead + call_events(calls));
    assert(done.events[lead.len() + i] == call_event(call));
}

} // verus!

//! Replies that are not streamed, next to those that are.

use crate::translate::lifecycle::after_all;
use crate::translate::lifecycle::new_ids;
use crate::translate::lifecycle::reply_ids_are_distinct;
use crate::translate::lifecycle::reply_keeps_order;
use crate::translate::lifecycle::run;
use crate::translate::response::emitted;
use crate::translate::response::items_events;
use crate::translate::response::items_follow_on;
use crate::translate::response::ActiveView;
use crate::translate::response::BufferView;
use crate::translate::types::ContentView;
use crate::translate::types::UpdateView;
use vstd::prelude::*;

verus! {

/// Items that are streamed one by one, each in one piece, become the same events as the items of
/// a reply that is not streamed.
pub proof fn items_can_be_streamed(
    items: Seq<ContentView>,
    agent_tools: Set<Seq<char>>,
    buffer: BufferView,
    response_id: Seq<char>,
    index: nat,
)
    requires
        buffer.active is None,
    ensures
        ({
            let updates = items.map_values(|c: ContentView| UpdateView::Full { content: c });
            let end = run(updates, agent_tools, buffer, response_id, index);
            &&& end.events == items_events(items, agent_tools, response_id, index)
            &&& end.index == index + emitted(items, agent_tools)
            &&& end.buffer == buffer
        }),
    decreases items.len(),
{
    let updates = items.map_values(|c: ContentView| UpdateView::Full { content: c });
    if items.len() > 0 {
        let rest = items.drop_last();
        let before = rest.map_values(|c: ContentView| UpdateView::Full { content: c });
        items_can_be_streamed(rest, agent_tools, buffer, response_id, index);
        items_follow_on(rest, seq![items.last()], agent_tools, response_id, index);
        assert(updates.drop_last() =~= before);
        assert(rest + seq![items.last()] =~= items);
        let end = run(updates, agent_tools, buffer, response_id, index);
        assert(end.events =~= items_events(items, agent_tools, response_id, index));
    }
}

/// The items of a reply that is not streamed come in an order that the client can follow, leave
/// none in progress, and have ids of their own.
pub proof fn whole_reply_keeps_order(
    items: Seq<ContentView>,
    agent_tools: Set<Seq<char>>,
    response_id: Seq<char>,
    index: nat,
)
    ensures
        ({
            let events = items_events(items, agent_tools, response_id, index);
            &&& after_all(None, events) == Some(None::<ActiveView>)
            &&& new_ids(None, events).no_duplicates()
        }),
{
    let updates = items.map_values(|c: ContentView| UpdateView::Full { content: c });
    let buffer = BufferView::empty();
    items_can_be_streamed(items, agent_tools, buffer, response_id, index);
    reply_keeps_order(updates, agent_tools, buffer, response_id, index, None);
    reply_ids_are_distinct(updates, agent_tools, buffer, response_id, index, None);
}

} // verus!

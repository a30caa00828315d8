//! What the messages exchanged with the agent say: all of what they hold, whole.

use crate::error::AgentexError;
use crate::error::AgentexErrorView;
use crate::error::ProxyError;
use crate::error::ProxyErrorView;
use crate::json::Json;
use crate::json::JsonView;
use crate::translate::types::ContentView;
use crate::translate::types::JsonRpcRequest;
use crate::translate::types::MessageSendParams;
use crate::translate::types::MessageSendResult;
use crate::translate::types::StreamDelta;
use crate::translate::types::TaskMessageContent;
use crate::translate::types::TaskMessageUpdate;
use crate::translate::types::UpdateView;
use vstd::prelude::*;

verus! {

/// `said` is the text of `held`, where there is one.
pub open spec fn says_text(said: Option<Seq<char>>, held: Option<String>) -> bool {
    match held {
        Some(held) => said == Some(held@),
        None => said is None,
    }
}

/// `said` is what the value `held` says, where there is one.
pub open spec fn says_value(said: Option<JsonView>, held: Option<Json>) -> bool {
    match held {
        Some(held) => said == Some(held@),
        None => said is None,
    }
}

/// `said` is the texts of `held`, all of them, in order.
pub open spec fn says_texts(said: Seq<Seq<char>>, held: Seq<String>) -> bool {
    &&& said.len() == held.len()
    &&& forall|i: int| 0 <= i < held.len() ==> #[trigger] said[i] == held[i]@
}

/// A content says what its fields hold.
pub proof fn content_says_what_it_holds(c: TaskMessageContent)
    ensures
        match c {
            TaskMessageContent::Text { author, content, format, style, attachments } => {
                &&& c@ is Text
                &&& c@->Text_author == author@
                &&& c@->Text_content == content@
                &&& says_text(c@->format, format)
                &&& says_text(c@->style, style)
                &&& match attachments {
                    Some(items) => {
                        &&& c@->attachments is Some
                        &&& c@->attachments->0.len() == items@.len()
                        &&& forall|i: int|
                            0 <= i < items@.len() ==> #[trigger] c@->attachments->0[i]
                                == items@[i]@
                    },
                    None => c@->attachments is None,
                }
            },
            TaskMessageContent::ToolRequest { author, tool_call_id, name, arguments } => c@
                == (ContentView::ToolRequest {
                author: author@,
                tool_call_id: tool_call_id@,
                name: name@,
                arguments: arguments@,
            }),
            TaskMessageContent::ToolResponse { author, tool_call_id, name, content } => c@
                == (ContentView::ToolResponse {
                author: author@,
                tool_call_id: tool_call_id@,
                name: name@,
                content: content@,
            }),
            TaskMessageContent::Reasoning { author, summary, content } => {
                &&& c@ is Reasoning
                &&& c@->Reasoning_author == author@
                &&& says_texts(c@->summary, summary@)
                &&& match content {
                    Some(content) => {
                        &&& c@->Reasoning_content is Some
                        &&& says_texts(c@->Reasoning_content->0, content@)
                    },
                    None => c@->Reasoning_content is None,
                }
            },
            TaskMessageContent::Data { author, data } => c@ == (ContentView::Data {
                author: author@,
                data: data@,
            }),
        },
{
}

/// A delta says what its fields hold.
pub proof fn delta_says_what_it_holds(d: StreamDelta)
    ensures
        match d {
            StreamDelta::Text { text_delta } => d@ is Text && says_text(d@->Text_text, text_delta),
            StreamDelta::ReasoningContent { content_index, content_delta } => {
                &&& d@ is ReasoningContent
                &&& d@->ReasoningContent_index == content_index
                &&& says_text(d@->ReasoningContent_text, content_delta)
            },
            StreamDelta::ReasoningSummary { summary_index, summary_delta } => {
                &&& d@ is ReasoningSummary
                &&& d@->ReasoningSummary_index == summary_index
                &&& says_text(d@->ReasoningSummary_text, summary_delta)
            },
            StreamDelta::Arguments { tool_call_id, name, arguments_delta } => {
                &&& d@ is Arguments
                &&& says_text(d@->call_id, tool_call_id)
                &&& says_text(d@->name, name)
                &&& says_text(d@->arguments, arguments_delta)
            },
        },
{
}

/// An update says what its content, its delta or its message says.
pub proof fn update_says_what_it_holds(u: TaskMessageUpdate)
    ensures
        match u {
            TaskMessageUpdate::Start { content, .. } => u@ == (UpdateView::Start {
                content: match content {
                    Some(content) => Some(content@),
                    None => None,
                },
            }),
            TaskMessageUpdate::Delta { delta, .. } => u@ == (UpdateView::Delta { delta: delta@ }),
            TaskMessageUpdate::Full { content, .. } => u@ == (UpdateView::Full {
                content: content@,
            }),
            TaskMessageUpdate::Done { content, .. } => u@ == (UpdateView::Done {
                content: match content {
                    Some(content) => Some(content@),
                    None => None,
                },
            }),
            TaskMessageUpdate::Error { message } => u@ == (UpdateView::Error {
                message: message@,
            }),
        },
{
}

/// The items of a reply are its single content, where it has one, and then those of its array,
/// where it has one, all of them and in order.
pub proof fn reply_holds_its_items(r: MessageSendResult)
    ensures
        ({
            let first: nat = if r.content is Some {
                1
            } else {
                0
            };
            let more: nat = if r.contents is Some {
                r.contents->0@.len()
            } else {
                0
            };
            &&& r.items().len() == first + more
            &&& r.content is Some ==> r.items()[0] == r.content->0@
            &&& forall|i: int|
                0 <= i < more ==> r.contents->0@[i]@ == #[trigger] r.items()[first + i]
        }),
{
}

/// The parameters of a message say what their fields hold.
pub proof fn params_say_what_they_hold(p: MessageSendParams)
    ensures
        says_text(p@.task_id, p.task_id),
        says_text(p@.task_name, p.task_name),
        p@.content == p.content@,
        p@.stream == p.stream,
        says_value(p@.task_params, p.task_params),
{
}

/// An error says its code and its message, whole.
pub proof fn errors_say_what_they_hold(e: AgentexError, p: ProxyError)
    ensures
        match e {
            AgentexError::Rpc { code, message } => e@ == (AgentexErrorView::Rpc {
                code,
                message: message@,
            }),
            AgentexError::Parse(message) => e@ == AgentexErrorView::Parse(message@),
            AgentexError::Stream(message) => e@ == AgentexErrorView::Stream(message@),
        },
        match p {
            ProxyError::RequestParse(message) => p@ == ProxyErrorView::RequestParse(message@),
        },
{
}

/// A call is one of JSON-RPC 2.0, with the id, the method and the parameters it is made of.
pub proof fn call_holds_what_it_is_made_of<T>(
    id: String,
    method: &str,
    params: T,
    call: JsonRpcRequest<T>,
)
    requires
        call_ensures(JsonRpcRequest::<T>::new, (id, method, params), call),
    ensures
        call.jsonrpc@ == "2.0"@,
        call.id@ == id@,
        call.method@ == method@,
        call.params == params,
{
}

} // verus!

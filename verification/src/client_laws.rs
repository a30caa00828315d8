//! What goes to the agent and what its replies mean, in terms of what the client is made of.

use crate::agentex_client::header_views;
use crate::agentex_client::reason_phrase;
use crate::agentex_client::stream_refused;
use crate::agentex_client::AgentexClient;
use crate::agentex_client::Header;
use crate::error::AgentexError;
use crate::text::decimal;
use crate::text::stripped;
use crate::text::without_trailing;
use crate::text_laws::lemma_without_trailing;
use crate::translate::types::CreateTaskParams;
use crate::translate::types::JsonRpcRequest;
use crate::translate::types::JsonRpcResponse;
use crate::translate::types::MessageSendParams;
use crate::translate::types::MessageSendResult;
use crate::translate::types::Task;
use vstd::prelude::*;

verus! {

/// The calls of a client go to the base URL that it is made of, without the slashes at its end,
/// followed by the path of its agent.
pub proof fn calls_go_to_the_agent(
    base_url: String,
    agent_id: String,
    auth_header: &str,
    account_id: Option<String>,
    client: AgentexClient,
    url: String,
    base: Seq<char>,
    slashes: Seq<char>,
)
    requires
        call_ensures(AgentexClient::new, (base_url, agent_id, auth_header, account_id), client),
        call_ensures(AgentexClient::rpc_url, (&client,), url),
        base_url@ == base + slashes,
        base.len() > 0 ==> base.last() != '/',
        forall|i: int| 0 <= i < slashes.len() ==> #[trigger] slashes[i] == '/',
    ensures
        url@ == base + "/agents/name/"@ + agent_id@ + "/rpc"@,
{
    let left = without_trailing(base_url@, '/');
    lemma_without_trailing(base_url@, '/');
    if left.len() < base.len() {
        assert(base_url@[base.len() - 1] == base.last());
    } else if left.len() > base.len() {
        assert(left.last() == base_url@[left.len() - 1]);
        assert(base_url@[left.len() - 1] == slashes[left.len() - 1 - base.len()]);
    }
    assert(left =~= base);
}

/// Whether a header has the name, the value and the care that are given.
pub open spec fn is_header(h: Header, name: Seq<char>, value: Seq<char>, sensitive: bool) -> bool {
    h.name@ == name && h.value@ == value && h.sensitive == sensitive
}

/// A client shows its key, which is what follows `Bearer ` or the whole authorization header, and
/// keeps it out of logs; then its account, where it is made with one. A call for a stream asks
/// for JSON values line by line besides.
pub proof fn calls_carry_the_credentials(
    base_url: String,
    agent_id: String,
    auth_header: &str,
    account_id: Option<String>,
    client: AgentexClient,
    headers: Vec<Header>,
    for_stream: Vec<Header>,
    key_header: Header,
    key: Seq<char>,
)
    requires
        call_ensures(AgentexClient::new, (base_url, agent_id, auth_header, account_id), client),
        call_ensures(AgentexClient::auth_headers, (&client,), headers),
        call_ensures(AgentexClient::stream_headers, (&client,), for_stream),
        call_ensures(AgentexClient::api_key_value, (&client,), key_header),
        auth_header@ == "Bearer "@ + key || (auth_header@ == key && forall|rest: Seq<char>|
            key != #[trigger] ("Bearer "@ + rest)),
    ensures
        is_header(key_header, "x-api-key"@, key, true),
        headers@.len() == if account_id is Some {
            2int
        } else {
            1
        },
        is_header(headers@[0], "x-api-key"@, key, true),
        account_id is Some ==> is_header(
            headers@[1],
            "x-selected-account-id"@,
            account_id->0@,
            false,
        ),
        for_stream@.len() == headers@.len() + 1,
        forall|i: int|
            0 <= i < headers@.len() ==> is_header(
                #[trigger] for_stream@[i],
                headers@[i].name@,
                headers@[i].value@,
                headers@[i].sensitive,
            ),
        is_header(for_stream@.last(), "accept"@, "application/x-ndjson"@, false),
{
    let bearer = "Bearer "@;
    if auth_header@ == bearer + key {
        assert(bearer.is_prefix_of(auth_header@));
        assert(auth_header@.skip(bearer.len() as int) =~= key);
    } else if bearer.is_prefix_of(auth_header@) {
        assert(key =~= bearer + key.skip(bearer.len() as int));
    }
    assert(stripped(auth_header@, bearer) is Some ==> auth_header@ == bearer + key);
    assert(client@.api_key == key);
    let views = header_views(headers@);
    let more = header_views(for_stream@);
    assert(views.len() == headers@.len() && more.len() == for_stream@.len());
    assert(views[0] == headers@[0]@);
    if account_id is Some {
        assert(views[1] == headers@[1]@);
    }
    assert forall|i: int| 0 <= i < headers@.len() implies is_header(
        #[trigger] for_stream@[i],
        headers@[i].name@,
        headers@[i].value@,
        headers@[i].sensitive,
    ) by {
        assert(more[i] == for_stream@[i]@ && views[i] == headers@[i]@);
    }
    assert(more.last() == for_stream@.last()@);
}

/// The calls are those of their methods, under the id and with the parameters that are given.
pub proof fn calls_are_made_as_asked(
    id: String,
    name: &str,
    params: MessageSendParams,
    create: JsonRpcRequest<CreateTaskParams>,
    send: JsonRpcRequest<MessageSendParams>,
)
    requires
        call_ensures(AgentexClient::task_create_call, (id, name), create),
        call_ensures(AgentexClient::message_send_call, (id, params), send),
    ensures
        create.jsonrpc@ == "2.0"@ && create.id@ == id@ && create.method@ == "task/create"@,
        create.params.name is Some && create.params.name->0@ == name@,
        create.params.params is None,
        send.jsonrpc@ == "2.0"@ && send.id@ == id@ && send.method@ == "message/send"@,
        send.params == params,
{
}

/// The same with fresh ids.
pub proof fn fresh_calls_are_made_as_asked(
    name: &str,
    params: MessageSendParams,
    create: JsonRpcRequest<CreateTaskParams>,
    send: JsonRpcRequest<MessageSendParams>,
)
    requires
        call_ensures(AgentexClient::task_create_request, (name,), create),
        call_ensures(AgentexClient::message_send_request, (params,), send),
    ensures
        create.jsonrpc@ == "2.0"@ && create.id@.len() == 36 && create.method@ == "task/create"@,
        create.params.name is Some && create.params.name->0@ == name@,
        create.params.params is None,
        send.jsonrpc@ == "2.0"@ && send.id@.len() == 36 && send.method@ == "message/send"@,
        send.params == params,
{
}

/// A reply to `task/create` means its error, where it has one, with the code and the whole
/// message; else the id of its task, whole; else that the task is missing.
pub proof fn task_reply_means_the_id(
    body: JsonRpcResponse<Task>,
    r: Result<String, AgentexError>,
)
    requires
        call_ensures(AgentexClient::task_create_reply, (body,), r),
    ensures
        match (body.error, body.result, r) {
            (Some(error), _, Err(AgentexError::Rpc { code, message })) => code == error.code
                && message@ == error.message@,
            (None, Some(task), Ok(id)) => id@ == task.id@,
            (None, None, Err(AgentexError::Parse(message))) => message@
                == "missing result in task/create response"@,
            _ => false,
        },
{
}

/// A reply to `message/send` means its error, where it has one, with the code and the whole
/// message; else its result as it is; else that the result is missing.
pub proof fn message_reply_means_the_result(
    body: JsonRpcResponse<MessageSendResult>,
    r: Result<MessageSendResult, AgentexError>,
)
    requires
        call_ensures(AgentexClient::message_send_reply, (body,), r),
    ensures
        match (body.error, body.result, r) {
            (Some(error), _, Err(AgentexError::Rpc { code, message })) => code == error.code
                && message@ == error.message@,
            (None, Some(result), Ok(given)) => given == result,
            (None, None, Err(AgentexError::Parse(message))) => message@
                == "missing result in message/send response"@,
            _ => false,
        },
{
}

/// A reply is a stream exactly where its status is one of success; else it is an error with the
/// status, the phrase for it and the whole body.
pub proof fn refused_stream_says_why(
    status: u16,
    body: &str,
    is_stream: bool,
    r: Result<(), AgentexError>,
)
    requires
        call_ensures(AgentexClient::is_stream, (status,), is_stream),
        call_ensures(AgentexClient::stream_reply, (status, body), r),
    ensures
        is_stream <==> 200 <= status && status <= 299,
        r is Ok <==> is_stream,
        match r {
            Ok(_) => true,
            Err(AgentexError::Stream(message)) => message@ == "HTTP "@ + (decimal(status as nat)
                + " "@ + reason_phrase(status)) + ": "@ + body@,
            Err(_) => false,
        },
{
}

/// The error for a refused stream has the status line and the body, whole.
pub proof fn refusal_carries_the_body(status_line: &str, body: &str, e: AgentexError)
    requires
        call_ensures(stream_refused, (status_line, body), e),
    ensures
        e matches AgentexError::Stream(message) && message@ == "HTTP "@ + status_line@ + ": "@
            + body@,
{
}

} // verus!

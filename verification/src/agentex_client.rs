//! Calls to an Agentex agent: where they go, what they carry, and what their replies mean.

use crate::error::AgentexError;
use crate::error::AgentexErrorView;
use crate::text::decimal;
use crate::text::opt_text;
use crate::text::strip_prefix;
use crate::text::stripped;
use crate::text::trim_end_char;
use crate::text::without_trailing;
use crate::translate::types::CreateTaskParams;
use crate::translate::types::JsonRpcError;
use crate::translate::types::JsonRpcRequest;
use crate::translate::types::JsonRpcResponse;
use crate::translate::types::MessageSendParams;
use crate::translate::types::MessageSendResult;
use crate::translate::types::Task;
use vstd::prelude::*;
use vstd::string::*;

verus! {

// ---------------------------------------------------------------------------
// The agent
// ---------------------------------------------------------------------------

/// An agent behind a JSON-RPC endpoint, and the credentials for it.
#[derive(Clone)]
pub struct AgentexClient {
    base_url: String,
    agent_id: String,
    /// The raw API key for the `x-api-key` header.
    api_key: String,
    /// Optional account ID for the `x-selected-account-id` header.
    account_id: Option<String>,
}

/// What an `AgentexClient` says.
#[verifier::ext_equal]
pub struct ClientView {
    pub base_url: Seq<char>,
    pub agent_id: Seq<char>,
    pub api_key: Seq<char>,
    pub account_id: Option<Seq<char>>,
}

impl View for AgentexClient {
    type V = ClientView;

    closed spec fn view(&self) -> ClientView {
        ClientView {
            base_url: self.base_url@,
            agent_id: self.agent_id@,
            api_key: self.api_key@,
            account_id: opt_text(self.account_id),
        }
    }
}

/// A header of a request.
#[derive(Clone)]
pub struct Header {
    pub name: &'static str,
    pub value: String,
    /// Whether the value is to be kept out of logs.
    pub sensitive: bool,
}

/// What a `Header` says.
#[verifier::ext_equal]
pub struct HeaderView {
    pub name: Seq<char>,
    pub value: Seq<char>,
    pub sensitive: bool,
}

impl View for Header {
    type V = HeaderView;

    open spec fn view(&self) -> HeaderView {
        HeaderView { name: self.name@, value: self.value@, sensitive: self.sensitive }
    }
}

/// What a sequence of headers says.
pub open spec fn header_views(headers: Seq<Header>) -> Seq<HeaderView> {
    headers.map_values(|h: Header| h@)
}

/// The API key in an authorization header: what follows `Bearer `, or the whole of it.
pub open spec fn raw_key(auth_header: Seq<char>) -> Seq<char> {
    match stripped(auth_header, "Bearer "@) {
        Some(key) => key,
        None => auth_header,
    }
}

/// The header that asks for a stream of JSON values, one on each line.
pub open spec fn ndjson_wanted() -> HeaderView {
    HeaderView { name: "accept"@, value: "application/x-ndjson"@, sensitive: false }
}

impl ClientView {
    /// Where the calls go.
    pub open spec fn url(self) -> Seq<char> {
        without_trailing(self.base_url, '/') + "/agents/name/"@ + self.agent_id + "/rpc"@
    }

    /// The headers that carry the credentials: the key, and the account where there is one.
    pub open spec fn credentials(self) -> Seq<HeaderView> {
        let key = HeaderView { name: "x-api-key"@, value: self.api_key, sensitive: true };
        match self.account_id {
            Some(account) => seq![
                key,
                HeaderView { name: "x-selected-account-id"@, value: account, sensitive: false },
            ],
            None => seq![key],
        }
    }
}

impl AgentexClient {
    /// The agent `agent_id` at `base_url`. The authorization header comes in as `Bearer <key>`
    /// or as the bare key.
    pub fn new(
        base_url: String,
        agent_id: String,
        auth_header: &str,
        account_id: Option<String>,
    ) -> (client: Self)
        ensures
            client@ == (ClientView {
                base_url: base_url@,
                agent_id: agent_id@,
                api_key: raw_key(auth_header@),
                account_id: opt_text(account_id),
            }),
    {
        let api_key = match strip_prefix(auth_header, "Bearer ") {
            Some(key) => key.to_owned(),
            None => auth_header.to_owned(),
        };
        AgentexClient { base_url, agent_id, api_key, account_id }
    }

    /// Where the calls go.
    pub fn rpc_url(&self) -> (url: String)
        ensures
            url@ == self@.url(),
    {
        trim_end_char(self.base_url.as_str(), '/').to_owned().concat("/agents/name/").concat(
            self.agent_id.as_str(),
        ).concat("/rpc")
    }

    /// The header with the API key, kept out of logs.
    pub fn api_key_value(&self) -> (header: Header)
        ensures
            header@ == self@.credentials()[0],
    {
        Header { name: "x-api-key", value: self.api_key.clone(), sensitive: true }
    }

    /// The headers that carry the credentials (`x-api-key` and optionally
    /// `x-selected-account-id`).
    pub fn auth_headers(&self) -> (headers: Vec<Header>)
        ensures
            header_views(headers@) == self@.credentials(),
    {
        let mut headers: Vec<Header> = Vec::new();
        headers.push(self.api_key_value());
        match &self.account_id {
            Some(account) => {
                headers.push(
                    Header {
                        name: "x-selected-account-id",
                        value: account.clone(),
                        sensitive: false,
                    },
                );
            },
            None => {},
        }
        assert(header_views(headers@) =~= self@.credentials());
        headers
    }

    /// The headers of a call whose reply is to be streamed: the credentials, and the form of the
    /// stream.
    pub fn stream_headers(&self) -> (headers: Vec<Header>)
        ensures
            header_views(headers@) == self@.credentials().push(ndjson_wanted()),
    {
        let mut headers = self.auth_headers();
        let ghost credentials = headers@;
        let accept = Header {
            name: "accept",
            value: "application/x-ndjson".to_owned(),
            sensitive: false,
        };
        headers.push(accept);
        assert(header_views(headers@) =~= header_views(credentials).push(accept@));
        headers
    }
}

// ---------------------------------------------------------------------------
// Calls
// ---------------------------------------------------------------------------

/// A lower-case hexadecimal digit.
pub open spec fn is_hex_digit(c: char) -> bool {
    '0' <= c <= '9' || 'a' <= c <= 'f'
}

/// A random UUID as text: 36 characters, hyphens after the 8th, 12th, 16th and 20th digit, and
/// the digits that tell the version and the variant.
pub open spec fn is_uuid_v4(text: Seq<char>) -> bool {
    &&& text.len() == 36
    &&& forall|i: int|
        0 <= i < 36 ==> if i == 8 || i == 13 || i == 18 || i == 23 {
            (#[trigger] text[i]) == '-'
        } else {
            is_hex_digit(text[i])
        }
    &&& text[14] == '4'
    &&& (text[19] == '8' || text[19] == '9' || text[19] == 'a' || text[19] == 'b')
}

/// `Uuid::new_v4` as text. Which UUID it is is up to chance: every one has the version and the
/// variant of a random UUID, and is written in lower case with hyphens. Where the system gives
/// no random bytes the call panics.
#[verifier::external_body]
fn fresh_id() -> (id: String)
    ensures
        is_uuid_v4(id@),
{
    uuid::Uuid::new_v4().to_string()
}

impl AgentexClient {
    /// The call that creates the task `name`, under the id `id`.
    pub fn task_create_call(id: String, name: &str) -> (call: JsonRpcRequest<CreateTaskParams>)
        ensures
            call.jsonrpc@ == "2.0"@,
            call.id@ == id@,
            call.method@ == "task/create"@,
            opt_text(call.params.name) == Some(name@),
            call.params.params is None,
    {
        JsonRpcRequest::new(
            id,
            "task/create",
            CreateTaskParams { name: Some(name.to_owned()), params: None },
        )
    }

    /// The call that sends a message, under the id `id`.
    pub fn message_send_call(id: String, params: MessageSendParams) -> (call: JsonRpcRequest<
        MessageSendParams,
    >)
        ensures
            call.jsonrpc@ == "2.0"@,
            call.id@ == id@,
            call.method@ == "message/send"@,
            call.params == params,
    {
        JsonRpcRequest::new(id, "message/send", params)
    }

    /// The call that creates the task `name`, under a fresh id.
    pub fn task_create_request(name: &str) -> (call: JsonRpcRequest<CreateTaskParams>)
        ensures
            call.jsonrpc@ == "2.0"@,
            is_uuid_v4(call.id@),
            call.method@ == "task/create"@,
            opt_text(call.params.name) == Some(name@),
            call.params.params is None,
    {
        Self::task_create_call(fresh_id(), name)
    }

    /// The call that sends a message, under a fresh id.
    pub fn message_send_request(params: MessageSendParams) -> (call: JsonRpcRequest<
        MessageSendParams,
    >)
        ensures
            call.jsonrpc@ == "2.0"@,
            is_uuid_v4(call.id@),
            call.method@ == "message/send"@,
            call.params == params,
    {
        Self::message_send_call(fresh_id(), params)
    }
}

// ---------------------------------------------------------------------------
// Replies
// ---------------------------------------------------------------------------

/// The error of a reply, where it has one.
pub open spec fn rpc_error(error: Option<JsonRpcError>) -> Option<AgentexErrorView> {
    match error {
        Some(e) => Some(AgentexErrorView::Rpc { code: e.code, message: e.message@ }),
        None => None,
    }
}

impl AgentexClient {
    /// What a reply to `task/create` means: the id of the task, unless the reply has an error or
    /// lacks the task.
    pub fn task_create_reply(body: JsonRpcResponse<Task>) -> (r: Result<String, AgentexError>)
        ensures
            match r {
                Ok(id) => {
                    &&& body.error is None
                    &&& body.result is Some
                    &&& id@ == body.result->0.id@
                },
                Err(e) => match rpc_error(body.error) {
                    Some(error) => e@ == error,
                    None => {
                        &&& body.result is None
                        &&& e@ == AgentexErrorView::Parse(
                            "missing result in task/create response"@,
                        )
                    },
                },
            },
    {
        match body.error {
            Some(err) => Err(AgentexError::Rpc { code: err.code, message: err.message }),
            None => match body.result {
                Some(task) => Ok(task.id),
                None => Err(
                    AgentexError::Parse("missing result in task/create response".to_owned()),
                ),
            },
        }
    }

    /// What a reply to `message/send` means: its result, unless the reply has an error or lacks
    /// the result.
    pub fn message_send_reply(body: JsonRpcResponse<MessageSendResult>) -> (r: Result<
        MessageSendResult,
        AgentexError,
    >)
        ensures
            match r {
                Ok(result) => body.error is None && body.result == Some(result),
                Err(e) => match rpc_error(body.error) {
                    Some(error) => e@ == error,
                    None => {
                        &&& body.result is None
                        &&& e@ == AgentexErrorView::Parse(
                            "missing result in message/send response"@,
                        )
                    },
                },
            },
    {
        match body.error {
            Some(err) => Err(AgentexError::Rpc { code: err.code, message: err.message }),
            None => match body.result {
                Some(result) => Ok(result),
                None => Err(
                    AgentexError::Parse("missing result in message/send response".to_owned()),
                ),
            },
        }
    }
}

/// The phrase that `reqwest` has for a status code.
pub uninterp spec fn reason_phrase(code: u16) -> Seq<char>;

/// `reqwest::StatusCode` as text: the code, a space, and the phrase for the code.
#[verifier::external_body]
fn status_text(code: u16) -> (text: String)
    requires
        100 <= code < 1000,
    ensures
        text@ == decimal(code as nat) + " "@ + reason_phrase(code),
{
    match reqwest::StatusCode::from_u16(code) {
        Ok(status) => status.to_string(),
        Err(error) => error.to_string(),
    }
}

/// The error for a refused stream, given the status line and the body of the reply.
pub fn stream_refused(status_line: &str, body: &str) -> (e: AgentexError)
    ensures
        e@ == AgentexErrorView::Stream("HTTP "@ + status_line@ + ": "@ + body@),
{
    AgentexError::Stream("HTTP ".to_owned().concat(status_line).concat(": ").concat(body))
}

impl AgentexClient {
    /// Whether a reply with the status code `status` is a stream.
    pub fn is_stream(status: u16) -> (r: bool)
        ensures
            r == (200 <= status < 300),
    {
        200 <= status && status < 300
    }

    /// What a reply with the status code `status` and the body `body` means where a stream was
    /// asked for: an error, unless the status is one of success.
    pub fn stream_reply(status: u16, body: &str) -> (r: Result<(), AgentexError>)
        requires
            100 <= status < 1000,
        ensures
            match r {
                Ok(_) => 200 <= status < 300,
                Err(e) => {
                    &&& !(200 <= status < 300)
                    &&& e@ == AgentexErrorView::Stream(
                        "HTTP "@ + (decimal(status as nat) + " "@ + reason_phrase(status)) + ": "@
                            + body@,
                    )
                },
            },
    {
        if Self::is_stream(status) {
            Ok(())
        } else {
            Err(stream_refused(status_text(status).as_str(), body))
        }
    }
}

// ---------------------------------------------------------------------------
// Spellings that make no difference
// ---------------------------------------------------------------------------

/// The key is the same with and without the word `Bearer` before it.
///
/// A key that begins with the word itself has to be given with it.
pub proof fn bearer_makes_no_difference(key: Seq<char>)
    ensures
        raw_key("Bearer "@ + key) == key,
        stripped(key, "Bearer "@) is None ==> raw_key(key) == raw_key("Bearer "@ + key),
{
    let auth_header = "Bearer "@ + key;
    assert("Bearer "@.is_prefix_of(auth_header));
    assert(auth_header.skip("Bearer "@.len() as int) =~= key);
}

/// Slashes at the end of the base URL make no difference to where the calls go.
pub proof fn trailing_slashes_make_no_difference(client: ClientView, slashes: Seq<char>)
    requires
        forall|i: int| 0 <= i < slashes.len() ==> #[trigger] slashes[i] == '/',
    ensures
        (ClientView { base_url: client.base_url + slashes, ..client }).url() == client.url(),
    decreases slashes.len(),
{
    let url = client.base_url + slashes;
    if slashes.len() == 0 {
        assert(url =~= client.base_url);
    } else {
        assert(url.drop_last() =~= client.base_url + slashes.drop_last());
        assert(url.last() == slashes[slashes.len() - 1]);
        trailing_slashes_make_no_difference(client, slashes.drop_last());
    }
}

} // verus!

//! The core of a proxy that lets a Responses API client talk to an Agentex agent.
//!
//! - `translate::request` turns a Responses API request body into the parameters of a
//!   `message/send` call.
//! - `translate::response` turns what the agent sends back, whole or as a stream of updates,
//!   into server-sent events; `translate::lifecycle`, `translate::tool_calls` and
//!   `translate::whole_reply` say what holds of every reply.
//! - `agentex_client` frames the JSON-RPC calls to the agent and reads their replies, and
//!   `stream` cuts a streamed reply into JSON values, which `stream_reader` hands out from the
//!   first chunk to the end or the first error.
//!
//! The modules whose names end in `laws` say what the operations are for, in terms of what goes in
//! and what comes out.
//!
//! Nothing here does I/O.

pub mod agentex_client;
pub mod client_laws;
pub mod error;
pub mod json;
pub mod json_laws;
pub mod sse_laws;
pub mod sse_writer;
pub mod stream;
pub mod stream_laws;
pub mod stream_reader;
pub mod text;
pub mod text_laws;
pub mod tool_routing;
pub mod translate;

# sgp-proxy

The verified core of a proxy between a Responses API client and an Agentex agent.

- `src/` is the library, checked by Verus. It does no I/O.
  - `translate/request.rs`: request bodies become the parameters of a `message/send` call.
  - `translate/response.rs`: replies, whole or streamed, become server-sent events.
  - `translate/lifecycle.rs`, `translate/tool_calls.rs`, `translate/whole_reply.rs`: what holds
    of every stream of updates.
  - `stream.rs`, `stream_reader.rs`: a streamed reply in chunks becomes JSON values, up to its end
    or its first error.
  - `agentex_client.rs`: JSON-RPC calls, their credentials and their replies.
  - `sse_writer.rs`, `json.rs`, `text.rs`, `tool_routing.rs`, `error.rs`: what these rest on.
- `app/` makes the HTTP calls and holds the `serde` forms of the messages.
- `tests/` runs the library.

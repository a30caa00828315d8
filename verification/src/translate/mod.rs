//! Translation between the Responses API and Agentex messages.

pub mod lifecycle;
pub mod request;
pub mod request_laws;
pub mod response;
pub mod tool_calls;
pub mod type_laws;
pub mod types;
pub mod update_laws;
pub mod whole_reply;

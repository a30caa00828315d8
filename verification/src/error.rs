//! Errors of the proxy.

use vstd::prelude::*;

verus! {

/// Why a request is refused.
#[derive(Debug, Clone)]
pub enum ProxyError {
    /// The request body does not have the expected form.
    RequestParse(String),
}

/// Why a call to the agent fails once there is a reply to read.
#[derive(Debug, Clone)]
pub enum AgentexError {
    /// The agent answered with a JSON-RPC error.
    Rpc { code: i64, message: String },
    /// The reply does not have the expected form.
    Parse(String),
    /// The agent refused to stream.
    Stream(String),
}

/// What a `ProxyError` says.
pub enum ProxyErrorView {
    RequestParse(Seq<char>),
}

impl View for ProxyError {
    type V = ProxyErrorView;

    open spec fn view(&self) -> ProxyErrorView {
        match *self {
            ProxyError::RequestParse(message) => ProxyErrorView::RequestParse(message@),
        }
    }
}

/// What an `AgentexError` says.
pub enum AgentexErrorView {
    Rpc { code: i64, message: Seq<char> },
    Parse(Seq<char>),
    Stream(Seq<char>),
}

impl View for AgentexError {
    type V = AgentexErrorView;

    open spec fn view(&self) -> AgentexErrorView {
        match *self {
            AgentexError::Rpc { code, message } => AgentexErrorView::Rpc {
                code,
                message: message@,
            },
            AgentexError::Parse(message) => AgentexErrorView::Parse(message@),
            AgentexError::Stream(message) => AgentexErrorView::Stream(message@),
        }
    }
}

} // verus!

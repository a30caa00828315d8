//! The messages exchanged with an Agentex agent.

use crate::json::opt_view;
use crate::json::views;
use crate::json::Json;
use crate::json::JsonView;
use crate::text::opt_text;
use crate::text::texts;
use vstd::prelude::*;

verus! {

// ---------------------------------------------------------------------------
// JSON-RPC 2.0 envelope
// ---------------------------------------------------------------------------

/// A JSON-RPC call.
#[derive(Debug, Clone)]
pub struct JsonRpcRequest<T> {
    pub jsonrpc: &'static str,
    pub id: String,
    pub method: String,
    pub params: T,
}

impl<T> JsonRpcRequest<T> {
    /// A JSON-RPC 2.0 call of `method`.
    pub fn new(id: String, method: &str, params: T) -> (r: Self)
        ensures
            r.jsonrpc@ == "2.0"@,
            r.id@ == id@,
            r.method@ == method@,
            r.params == params,
    {
        JsonRpcRequest { jsonrpc: "2.0", id, method: method.to_owned(), params }
    }
}

/// The reply to a JSON-RPC call.
#[derive(Debug, Clone)]
pub struct JsonRpcResponse<T> {
    pub jsonrpc: Option<String>,
    pub id: Option<Json>,
    pub result: Option<T>,
    pub error: Option<JsonRpcError>,
}

/// The error of a JSON-RPC reply.
#[derive(Debug, Clone)]
pub struct JsonRpcError {
    pub code: i64,
    pub message: String,
}

// ---------------------------------------------------------------------------
// task/create
// ---------------------------------------------------------------------------

/// The parameters of `task/create`.
#[derive(Debug, Clone)]
pub struct CreateTaskParams {
    pub name: Option<String>,
    pub params: Option<Json>,
}

/// A task of the agent.
#[derive(Debug, Clone)]
pub struct Task {
    pub id: String,
    pub name: Option<String>,
    pub status: Option<String>,
}

// ---------------------------------------------------------------------------
// message/send
// ---------------------------------------------------------------------------

/// The parameters of `message/send`.
#[derive(Debug, Clone)]
pub struct MessageSendParams {
    pub task_id: Option<String>,
    pub task_name: Option<String>,
    pub content: TaskMessageContent,
    pub stream: Option<bool>,
    pub task_params: Option<Json>,
}

/// The content of one message.
#[derive(Debug, Clone)]
pub enum TaskMessageContent {
    Text {
        author: String,
        content: String,
        format: Option<String>,
        style: Option<String>,
        attachments: Option<Vec<Json>>,
    },
    ToolRequest {
        author: String,
        tool_call_id: String,
        name: String,
        /// Agentex expects arguments as a JSON object, not a string.
        arguments: Json,
    },
    ToolResponse { author: String, tool_call_id: String, name: String, content: Json },
    Reasoning { author: String, summary: Vec<String>, content: Option<Vec<String>> },
    Data { author: String, data: Json },
}

/// What a `TaskMessageContent` says.
#[verifier::ext_equal]
pub enum ContentView {
    Text {
        author: Seq<char>,
        content: Seq<char>,
        format: Option<Seq<char>>,
        style: Option<Seq<char>>,
        attachments: Option<Seq<JsonView>>,
    },
    ToolRequest {
        author: Seq<char>,
        tool_call_id: Seq<char>,
        name: Seq<char>,
        arguments: JsonView,
    },
    ToolResponse {
        author: Seq<char>,
        tool_call_id: Seq<char>,
        name: Seq<char>,
        content: JsonView,
    },
    Reasoning {
        author: Seq<char>,
        summary: Seq<Seq<char>>,
        content: Option<Seq<Seq<char>>>,
    },
    Data { author: Seq<char>, data: JsonView },
}

impl View for TaskMessageContent {
    type V = ContentView;

    open spec fn view(&self) -> ContentView {
        match *self {
            TaskMessageContent::Text { author, content, format, style, attachments } =>
                ContentView::Text {
                    author: author@,
                    content: content@,
                    format: opt_text(format),
                    style: opt_text(style),
                    attachments: match attachments {
                        Some(items) => Some(views(items@)),
                        None => None,
                    },
                },
            TaskMessageContent::ToolRequest { author, tool_call_id, name, arguments } =>
                ContentView::ToolRequest {
                    author: author@,
                    tool_call_id: tool_call_id@,
                    name: name@,
                    arguments: arguments@,
                },
            TaskMessageContent::ToolResponse { author, tool_call_id, name, content } =>
                ContentView::ToolResponse {
                    author: author@,
                    tool_call_id: tool_call_id@,
                    name: name@,
                    content: content@,
                },
            TaskMessageContent::Reasoning { author, summary, content } => ContentView::Reasoning {
                author: author@,
                summary: texts(summary@),
                content: match content {
                    Some(content) => Some(texts(content@)),
                    None => None,
                },
            },
            TaskMessageContent::Data { author, data } => ContentView::Data {
                author: author@,
                data: data@,
            },
        }
    }
}

/// What a `MessageSendParams` says.
#[verifier::ext_equal]
pub struct SendParamsView {
    pub task_id: Option<Seq<char>>,
    pub task_name: Option<Seq<char>>,
    pub content: ContentView,
    pub stream: Option<bool>,
    pub task_params: Option<JsonView>,
}

impl View for MessageSendParams {
    type V = SendParamsView;

    open spec fn view(&self) -> SendParamsView {
        SendParamsView {
            task_id: opt_text(self.task_id),
            task_name: opt_text(self.task_name),
            content: self.content@,
            stream: self.stream,
            task_params: opt_view(self.task_params),
        }
    }
}

// ---------------------------------------------------------------------------
// Streamed replies
// ---------------------------------------------------------------------------

/// One update of a streamed reply.
#[derive(Debug, Clone)]
pub enum TaskMessageUpdate {
    Start { content: Option<TaskMessageContent>, parent_task_message: Option<Json> },
    Delta { delta: StreamDelta, parent_task_message: Option<Json> },
    Full { content: TaskMessageContent, parent_task_message: Option<Json> },
    Done { content: Option<TaskMessageContent>, parent_task_message: Option<Json> },
    Error { message: String },
}

/// What a streamed reply adds to the item in progress.
#[derive(Debug, Clone)]
pub enum StreamDelta {
    /// More of the text of a message.
    Text { text_delta: Option<String> },
    /// More of the reasoning.
    ReasoningContent { content_index: u32, content_delta: Option<String> },
    /// More of the summary of the reasoning.
    ReasoningSummary { summary_index: u32, summary_delta: Option<String> },
    /// More of the arguments of a tool call.
    Arguments {
        tool_call_id: Option<String>,
        name: Option<String>,
        arguments_delta: Option<String>,
    },
}

/// What a `StreamDelta` says.
pub enum DeltaView {
    Text { text: Option<Seq<char>> },
    ReasoningContent { index: u32, text: Option<Seq<char>> },
    ReasoningSummary { index: u32, text: Option<Seq<char>> },
    Arguments {
        call_id: Option<Seq<char>>,
        name: Option<Seq<char>>,
        arguments: Option<Seq<char>>,
    },
}

impl View for StreamDelta {
    type V = DeltaView;

    open spec fn view(&self) -> DeltaView {
        match *self {
            StreamDelta::Text { text_delta } => DeltaView::Text { text: opt_text(text_delta) },
            StreamDelta::ReasoningContent { content_index, content_delta } =>
                DeltaView::ReasoningContent {
                    index: content_index,
                    text: opt_text(content_delta),
                },
            StreamDelta::ReasoningSummary { summary_index, summary_delta } =>
                DeltaView::ReasoningSummary {
                    index: summary_index,
                    text: opt_text(summary_delta),
                },
            StreamDelta::Arguments { tool_call_id, name, arguments_delta } =>
                DeltaView::Arguments {
                    call_id: opt_text(tool_call_id),
                    name: opt_text(name),
                    arguments: opt_text(arguments_delta),
                },
        }
    }
}

/// What a content says that may be absent.
pub open spec fn opt_content(content: Option<TaskMessageContent>) -> Option<ContentView> {
    match content {
        Some(content) => Some(content@),
        None => None,
    }
}

/// What a `TaskMessageUpdate` says, but for the parent message, which nothing reads.
pub enum UpdateView {
    Start { content: Option<ContentView> },
    Delta { delta: DeltaView },
    Full { content: ContentView },
    Done { content: Option<ContentView> },
    Error { message: Seq<char> },
}

impl View for TaskMessageUpdate {
    type V = UpdateView;

    open spec fn view(&self) -> UpdateView {
        match *self {
            TaskMessageUpdate::Start { content, .. } => UpdateView::Start {
                content: opt_content(content),
            },
            TaskMessageUpdate::Delta { delta, .. } => UpdateView::Delta { delta: delta@ },
            TaskMessageUpdate::Full { content, .. } => UpdateView::Full { content: content@ },
            TaskMessageUpdate::Done { content, .. } => UpdateView::Done {
                content: opt_content(content),
            },
            TaskMessageUpdate::Error { message } => UpdateView::Error { message: message@ },
        }
    }
}

// ---------------------------------------------------------------------------
// Reasoning as the client sees it
// ---------------------------------------------------------------------------

/// One paragraph of a reasoning summary.
#[derive(Debug, Clone)]
pub struct ReasoningSummaryEntry {
    pub text: String,
}

/// One paragraph of reasoning.
#[derive(Debug, Clone)]
pub struct ReasoningContentEntry {
    pub text: String,
}

/// The texts of the paragraphs of a summary.
pub open spec fn summary_texts(entries: Seq<ReasoningSummaryEntry>) -> Seq<Seq<char>> {
    entries.map_values(|e: ReasoningSummaryEntry| e.text@)
}

/// The texts of the paragraphs of reasoning.
pub open spec fn content_texts(entries: Seq<ReasoningContentEntry>) -> Seq<Seq<char>> {
    entries.map_values(|e: ReasoningContentEntry| e.text@)
}

// ---------------------------------------------------------------------------
// Whole replies
// ---------------------------------------------------------------------------

/// The result of a `message/send` call that is not streamed: the task, and its content.
#[derive(Debug, Clone)]
pub struct MessageSendResult {
    pub task: Option<Task>,
    pub content: Option<TaskMessageContent>,
    /// Some responses return an array of content items.
    pub contents: Option<Vec<TaskMessageContent>>,
}

/// What a sequence of contents says.
pub open spec fn content_views(contents: Seq<TaskMessageContent>) -> Seq<ContentView> {
    contents.map_values(|c: TaskMessageContent| c@)
}

/// What the contents say of an array that may be absent.
pub open spec fn opt_contents(contents: Option<Vec<TaskMessageContent>>) -> Seq<ContentView> {
    match contents {
        Some(contents) => content_views(contents@),
        None => Seq::empty(),
    }
}

/// The items of a content that may be absent.
pub open spec fn as_items(content: Option<ContentView>) -> Seq<ContentView> {
    match content {
        Some(content) => seq![content],
        None => Seq::empty(),
    }
}

impl MessageSendResult {
    /// The content items of the result: the single one first, those of the array after it.
    pub open spec fn items(self) -> Seq<ContentView> {
        as_items(opt_content(self.content)) + opt_contents(self.contents)
    }
}

} // verus!

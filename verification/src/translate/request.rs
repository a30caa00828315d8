//! From a Responses API request body to the parameters of a `message/send` call.

use crate::error::ProxyError;
use crate::error::ProxyErrorView;
use crate::json::json_text;
use crate::json::views;
use crate::json::Json;
use crate::json::JsonView;
use crate::text::join;
use crate::text::joined;
use crate::text::opt_text;
use crate::text::same_text;
use crate::text::text_or_empty;
use crate::text::texts;
use crate::translate::types::ContentView;
use crate::translate::types::MessageSendParams;
use crate::translate::types::SendParamsView;
use crate::translate::types::TaskMessageContent;
use vstd::prelude::*;
use vstd::string::*;

verus! {

// ---------------------------------------------------------------------------
// The conversation in a request
// ---------------------------------------------------------------------------

/// What an input item adds to the conversation.
pub enum Entry {
    /// A text of the user.
    User(Seq<char>),
    /// A section of context.
    Context(Seq<char>),
}

/// A text, or `default` in place of one that is missing.
pub open spec fn text_or(text: Option<Seq<char>>, default: Seq<char>) -> Seq<char> {
    match text {
        Some(t) => t,
        None => default,
    }
}

/// The type of an input item, or of a part of one.
pub open spec fn kind(item: JsonView) -> Seq<char> {
    text_or(item.text_member("type"@), ""@)
}

/// What the part `part` of a message adds: its text, where it is a part with text.
pub open spec fn part_entries(role: Seq<char>, part: JsonView) -> Seq<Entry> {
    let text = part.text_member("text"@);
    if (kind(part) == "input_text"@ || kind(part) == "output_text"@) && text is Some {
        if role == "user"@ || role == "developer"@ {
            seq![Entry::User(text->0)]
        } else {
            seq![Entry::Context("[Assistant]\n"@ + text->0)]
        }
    } else {
        Seq::empty()
    }
}

/// What the parts of a message add, in order.
pub open spec fn parts_entries(role: Seq<char>, parts: Seq<JsonView>) -> Seq<Entry>
    decreases parts.len(),
{
    if parts.len() == 0 {
        Seq::empty()
    } else {
        parts_entries(role, parts.drop_last()) + part_entries(role, parts.last())
    }
}

/// The texts of a reasoning summary, without the elements that have none.
pub open spec fn summary_lines(summary: Seq<JsonView>) -> Seq<Seq<char>>
    decreases summary.len(),
{
    if summary.len() == 0 {
        Seq::empty()
    } else {
        let rest = summary_lines(summary.drop_last());
        match summary.last().text_member("text"@) {
            Some(text) => rest.push(text),
            None => rest,
        }
    }
}

/// The section of context for a tool call.
pub open spec fn call_section(item: JsonView) -> Seq<char> {
    "[Tool Call: "@ + text_or(item.text_member("name"@), "unknown"@) + " ("@ + text_or(
        item.text_member("call_id"@),
        ""@,
    ) + ")]\n"@ + text_or(item.text_member("arguments"@), "{}"@)
}

/// What an input item adds to the conversation.
pub open spec fn item_entries(item: JsonView) -> Seq<Entry> {
    if kind(item) == "message"@ {
        match item.array_member("content"@) {
            Some(parts) => parts_entries(text_or(item.text_member("role"@), "user"@), parts),
            None => Seq::empty(),
        }
    } else if kind(item) == "function_call"@ {
        seq![Entry::Context(call_section(item))]
    } else if kind(item) == "reasoning"@ {
        match item.array_member("summary"@) {
            Some(summary) => if summary_lines(summary).len() > 0 {
                seq![
                    Entry::Context("[Reasoning]\n"@ + joined(summary_lines(summary), "\n"@)),
                ]
            } else {
                Seq::empty()
            },
            None => Seq::empty(),
        }
    } else {
        Seq::empty()
    }
}

/// The conversation that the input items make up.
pub open spec fn entries(input: Seq<JsonView>) -> Seq<Entry>
    decreases input.len(),
{
    if input.len() == 0 {
        Seq::empty()
    } else {
        entries(input.drop_last()) + item_entries(input.last())
    }
}

/// The last text of the user.
pub open spec fn last_user(conversation: Seq<Entry>) -> Option<Seq<char>>
    decreases conversation.len(),
{
    if conversation.len() == 0 {
        None
    } else {
        match conversation.last() {
            Entry::User(text) => Some(text),
            Entry::Context(_) => last_user(conversation.drop_last()),
        }
    }
}

/// A text of the user as a section.
pub open spec fn user_section(text: Seq<char>) -> Seq<char> {
    "[User]\n"@ + text
}

/// The sections that precede the last text of the user. An earlier text of the user stands where
/// the next one came in.
pub open spec fn context(conversation: Seq<Entry>) -> Seq<Seq<char>>
    decreases conversation.len(),
{
    if conversation.len() == 0 {
        Seq::empty()
    } else {
        let before = conversation.drop_last();
        match conversation.last() {
            Entry::Context(section) => context(before).push(section),
            Entry::User(_) => match last_user(before) {
                Some(earlier) => context(before).push(user_section(earlier)),
                None => context(before),
            },
        }
    }
}

/// The section with the instructions: on the first turn, where there are any.
pub open spec fn instructions(body: JsonView, is_first_turn: bool) -> Seq<Seq<char>> {
    match body.text_member("instructions"@) {
        Some(text) if is_first_turn && text.len() > 0 => seq!["[System Instructions]\n"@ + text],
        _ => Seq::empty(),
    }
}

/// The text to send: the last text of the user alone, or after all sections.
pub open spec fn prompt(sections: Seq<Seq<char>>, last: Option<Seq<char>>) -> Seq<char> {
    let text = text_or_empty(last);
    if sections.len() == 0 {
        text
    } else {
        joined(sections.push(user_section(text)), "\n\n"@)
    }
}

/// The output of a tool: a string as it is, any other value as `rendered`, its JSON text.
pub open spec fn output_text(item: JsonView, rendered: Option<Seq<char>>) -> Seq<char> {
    match item.member("output"@) {
        Some(JsonView::String(text)) => text,
        Some(_) => text_or_empty(rendered),
        None => Seq::empty(),
    }
}

/// The message that hands the agent the output of a tool.
pub open spec fn output_content(item: JsonView, rendered: Option<Seq<char>>) -> ContentView {
    ContentView::ToolResponse {
        author: "user"@,
        tool_call_id: text_or(item.text_member("call_id"@), ""@),
        name: Seq::empty(),
        content: JsonView::String(output_text(item, rendered)),
    }
}

/// The JSON text of the output of a tool.
pub open spec fn rendered_output(item: JsonView) -> Option<Seq<char>> {
    match item.member("output"@) {
        Some(output) => json_text(output),
        None => None,
    }
}

/// The message for the last output of a tool among the input items.
pub open spec fn tool_response(input: Seq<JsonView>) -> Option<ContentView>
    decreases input.len(),
{
    if input.len() == 0 {
        None
    } else if kind(input.last()) == "function_call_output"@ {
        Some(output_content(input.last(), rendered_output(input.last())))
    } else {
        tool_response(input.drop_last())
    }
}

/// The message for a request with the input items `input`: the last output of a tool, which the
/// agent is waiting for, or else the conversation.
pub open spec fn request_content(
    body: JsonView,
    input: Seq<JsonView>,
    is_first_turn: bool,
) -> ContentView {
    match tool_response(input) {
        Some(content) => content,
        None => ContentView::Text {
            author: "user"@,
            content: prompt(
                instructions(body, is_first_turn) + context(entries(input)),
                last_user(entries(input)),
            ),
            format: Some("plain"@),
            style: None,
            attachments: Some(Seq::empty()),
        },
    }
}

/// The parameters for a request with the input items `input`.
pub open spec fn request_params(
    body: JsonView,
    input: Seq<JsonView>,
    is_first_turn: bool,
    task_id: Option<Seq<char>>,
    task_name: Option<Seq<char>>,
) -> SendParamsView {
    SendParamsView {
        task_id,
        task_name,
        content: request_content(body, input, is_first_turn),
        stream: Some(
            match body.bool_member("stream"@) {
                Some(stream) => stream,
                None => true,
            },
        ),
        task_params: None,
    }
}

/// The parameters for a request, where it has an array of input items.
pub open spec fn translated(
    body: JsonView,
    is_first_turn: bool,
    task_id: Option<Seq<char>>,
    task_name: Option<Seq<char>>,
) -> Option<SendParamsView> {
    match body.array_member("input"@) {
        Some(input) => Some(request_params(body, input, is_first_turn, task_id, task_name)),
        None => None,
    }
}

// ---------------------------------------------------------------------------
// Translation
// ---------------------------------------------------------------------------

/// The conversation so far, as it will be sent.
struct Conversation {
    last_user: Option<String>,
    sections: Vec<String>,
}

impl Conversation {
    /// This is the conversation `conversation`, after the sections `first`.
    spec fn holds(self, first: Seq<Seq<char>>, conversation: Seq<Entry>) -> bool {
        &&& opt_text(self.last_user) == last_user(conversation)
        &&& texts(self.sections@) == first + context(conversation)
    }

    /// A section of context comes in.
    fn add_context(
        &mut self,
        section: String,
        Ghost(first): Ghost<Seq<Seq<char>>>,
        Ghost(conversation): Ghost<Seq<Entry>>,
    )
        requires
            old(self).holds(first, conversation),
        ensures
            final(self).holds(first, conversation.push(Entry::Context(section@))),
    {
        proof {
            let grown = conversation.push(Entry::Context(section@));
            assert(grown.drop_last() =~= conversation);
            assert(texts(self.sections@.push(section)) =~= texts(self.sections@).push(section@));
            assert((first + context(conversation)).push(section@) =~= first + context(grown));
        }
        self.sections.push(section);
    }

    /// A text of the user comes in.
    fn add_user(
        &mut self,
        text: String,
        Ghost(first): Ghost<Seq<Seq<char>>>,
        Ghost(conversation): Ghost<Seq<Entry>>,
    )
        requires
            old(self).holds(first, conversation),
        ensures
            final(self).holds(first, conversation.push(Entry::User(text@))),
    {
        let ghost grown = conversation.push(Entry::User(text@));
        assert(grown.drop_last() =~= conversation);
        match self.last_user.take() {
            Some(earlier) => {
                let section = "[User]\n".to_owned().concat(earlier.as_str());
                proof {
                    assert(texts(self.sections@.push(section)) =~= texts(self.sections@).push(
                        section@,
                    ));
                    assert((first + context(conversation)).push(section@) =~= first + context(
                        grown,
                    ));
                }
                self.sections.push(section);
            },
            None => {},
        }
        self.last_user = Some(text);
    }

    /// The parts of a message come in.
    fn add_parts(
        &mut self,
        role: &str,
        parts: &Vec<Json>,
        Ghost(first): Ghost<Seq<Seq<char>>>,
        Ghost(conversation): Ghost<Seq<Entry>>,
    )
        requires
            old(self).holds(first, conversation),
        ensures
            final(self).holds(first, conversation + parts_entries(role@, views(parts@))),
    {
        let from_user = same_text(role, "user") || same_text(role, "developer");
        let ghost all = views(parts@);
        let mut i: usize = 0;
        assert(all.take(0) =~= Seq::empty());
        assert(conversation + parts_entries(role@, all.take(0)) =~= conversation);
        while i < parts.len()
            invariant
                i <= parts.len(),
                all == views(parts@),
                from_user == (role@ == "user"@ || role@ == "developer"@),
                self.holds(first, conversation + parts_entries(role@, all.take(i as int))),
            decreases parts.len() - i,
        {
            let ghost so_far = conversation + parts_entries(role@, all.take(i as int));
            let ghost next = conversation + parts_entries(role@, all.take(i + 1));
            let part = &parts[i];
            assert(all.take(i + 1).drop_last() =~= all.take(i as int));
            assert(all.take(i + 1).last() == part@);
            let part_kind = part.get_str("type").unwrap_or("");
            if same_text(part_kind, "input_text") || same_text(part_kind, "output_text") {
                match part.get_str("text") {
                    Some(text) => {
                        if from_user {
                            assert(next =~= so_far.push(Entry::User(text@)));
                            self.add_user(text.to_owned(), Ghost(first), Ghost(so_far));
                        } else {
                            let section = "[Assistant]\n".to_owned().concat(text);
                            assert(next =~= so_far.push(Entry::Context(section@)));
                            self.add_context(section, Ghost(first), Ghost(so_far));
                        }
                    },
                    None => {
                        assert(next =~= so_far);
                    },
                }
            } else {
                assert(next =~= so_far);
            }
            i += 1;
        }
        assert(all.take(i as int) =~= all);
    }

    /// An input item comes in.
    fn add_item(
        &mut self,
        item: &Json,
        Ghost(first): Ghost<Seq<Seq<char>>>,
        Ghost(conversation): Ghost<Seq<Entry>>,
    )
        requires
            old(self).holds(first, conversation),
        ensures
            final(self).holds(first, conversation + item_entries(item@)),
    {
        let item_kind = item.get_str("type").unwrap_or("");
        let ghost next = conversation + item_entries(item@);
        if same_text(item_kind, "message") {
            let role = item.get_str("role").unwrap_or("user");
            match item.get_array("content") {
                Some(parts) => {
                    self.add_parts(role, parts, Ghost(first), Ghost(conversation));
                },
                None => {
                    assert(next =~= conversation);
                },
            }
        } else if same_text(item_kind, "function_call") {
            let name = item.get_str("name").unwrap_or("unknown");
            let call_id = item.get_str("call_id").unwrap_or("");
            let arguments = item.get_str("arguments").unwrap_or("{}");
            let section = "[Tool Call: ".to_owned().concat(name).concat(" (").concat(
                call_id,
            ).concat(")]\n").concat(arguments);
            assert(next =~= conversation.push(Entry::Context(section@)));
            self.add_context(section, Ghost(first), Ghost(conversation));
        } else if same_text(item_kind, "reasoning") {
            match item.get_array("summary") {
                Some(summary) => {
                    let lines = summary_texts(summary);
                    if lines.len() > 0 {
                        let section = "[Reasoning]\n".to_owned().concat(
                            join(&lines, "\n").as_str(),
                        );
                        assert(next =~= conversation.push(Entry::Context(section@)));
                        self.add_context(section, Ghost(first), Ghost(conversation));
                    } else {
                        assert(next =~= conversation);
                    }
                },
                None => {
                    assert(next =~= conversation);
                },
            }
        } else {
            assert(next =~= conversation);
        }
    }
}

/// The texts of a reasoning summary, without the elements that have none.
fn summary_texts(summary: &Vec<Json>) -> (lines: Vec<String>)
    ensures
        texts(lines@) == summary_lines(views(summary@)),
{
    let ghost all = views(summary@);
    let mut lines: Vec<String> = Vec::new();
    let mut i: usize = 0;
    assert(all.take(0) =~= Seq::empty());
    assert(texts(lines@) =~= Seq::empty());
    while i < summary.len()
        invariant
            i <= summary.len(),
            all == views(summary@),
            texts(lines@) == summary_lines(all.take(i as int)),
        decreases summary.len() - i,
    {
        let ghost done = texts(lines@);
        assert(all.take(i + 1).drop_last() =~= all.take(i as int));
        assert(all.take(i + 1).last() == summary@[i as int]@);
        match summary[i].get_str("text") {
            Some(text) => {
                lines.push(text.to_owned());
                assert(texts(lines@) =~= done.push(text@));
            },
            None => {},
        }
        i += 1;
    }
    assert(all.take(i as int) =~= all);
    lines
}

/// The message that hands the agent the output of a tool, given the JSON text of the output.
/// The JSON text is used where the output is not a string.
pub fn function_call_output(item: &Json, rendered: Option<String>) -> (content: TaskMessageContent)
    ensures
        content@ == output_content(item@, opt_text(rendered)),
{
    let call_id = item.get_str("call_id").unwrap_or("").to_owned();
    let output = match item.get("output") {
        Some(Json::String(text)) => text.clone(),
        Some(_) => match rendered {
            Some(text) => text,
            None => String::new(),
        },
        None => String::new(),
    };
    TaskMessageContent::ToolResponse {
        author: "user".to_owned(),
        tool_call_id: call_id,
        // The caller knows the name from the session.
        name: String::new(),
        content: Json::String(output),
    }
}

/// The JSON text of the output of a tool, where that is not a string.
fn render_output(item: &Json) -> (rendered: Option<String>)
    ensures
        output_content(item@, opt_text(rendered)) == output_content(
            item@,
            rendered_output(item@),
        ),
{
    match item.get("output") {
        Some(Json::String(_)) => None,
        Some(output) => output.render(),
        None => None,
    }
}

/// A copy of a text that may be absent.
fn own(text: Option<&str>) -> (r: Option<String>)
    ensures
        opt_text(r) == opt_str(text),
{
    match text {
        Some(t) => Some(t.to_owned()),
        None => None,
    }
}

/// What a text says that may be absent.
pub open spec fn opt_str(text: Option<&str>) -> Option<Seq<char>> {
    match text {
        Some(t) => Some(t@),
        None => None,
    }
}

/// Translate a Responses API request body into Agentex `MessageSendParams`.
///
/// Agentex `message/send` accepts a single `content` item per call, so we
/// build a composite text from the full conversation history. The last user
/// message is used as the primary content; earlier messages and instructions
/// are folded into a context preamble.
pub fn translate_request(
    body: &Json,
    is_first_turn: bool,
    task_id: Option<&str>,
    task_name: Option<&str>,
) -> (r: Result<MessageSendParams, ProxyError>)
    ensures
        match r {
            Ok(params) => translated(body@, is_first_turn, opt_str(task_id), opt_str(task_name))
                == Some(params@),
            Err(e) => {
                &&& translated(body@, is_first_turn, opt_str(task_id), opt_str(task_name)) is None
                &&& e@ == ProxyErrorView::RequestParse("missing or invalid 'input' array"@)
            },
        },
{
    let input = match body.get_array("input") {
        Some(input) => input,
        None => {
            return Err(ProxyError::RequestParse("missing or invalid 'input' array".to_owned()));
        },
    };
    let wants_stream = match body.get("stream") {
        Some(stream) => match stream.as_bool() {
            Some(stream) => stream,
            None => true,
        },
        None => true,
    };
    let ghost first = instructions(body@, is_first_turn);
    let mut conversation = Conversation { last_user: None, sections: Vec::new() };
    if is_first_turn {
        match body.get_str("instructions") {
            Some(text) => {
                if !text.is_empty() {
                    conversation.sections.push("[System Instructions]\n".to_owned().concat(text));
                }
            },
            None => {},
        }
    }
    let ghost all = views(input@);
    assert(texts(conversation.sections@) =~= first + context(Seq::empty()));
    assert(all.take(0) =~= Seq::empty());
    let mut response: Option<TaskMessageContent> = None;
    let mut i: usize = 0;
    while i < input.len()
        invariant
            i <= input.len(),
            all == views(input@),
            conversation.holds(first, entries(all.take(i as int))),
            match response {
                Some(content) => tool_response(all.take(i as int)) == Some(content@),
                None => tool_response(all.take(i as int)) is None,
            },
        decreases input.len() - i,
    {
        let item = &input[i];
        let ghost so_far = entries(all.take(i as int));
        assert(all.take(i + 1).drop_last() =~= all.take(i as int));
        assert(all.take(i + 1).last() == item@);
        conversation.add_item(item, Ghost(first), Ghost(so_far));
        if same_text(item.get_str("type").unwrap_or(""), "function_call_output") {
            response = Some(function_call_output(item, render_output(item)));
        }
        i += 1;
    }
    assert(all.take(i as int) =~= all);
    let content = match response {
        Some(content) => content,
        None => conversation.into_content(Ghost(first), Ghost(entries(all))),
    };
    Ok(
        MessageSendParams {
            task_id: own(task_id),
            task_name: own(task_name),
            content,
            stream: Some(wants_stream),
            task_params: None,
        },
    )
}

impl Conversation {
    /// The message with the whole conversation.
    fn into_content(
        self,
        Ghost(first): Ghost<Seq<Seq<char>>>,
        Ghost(conversation): Ghost<Seq<Entry>>,
    ) -> (content: TaskMessageContent)
        requires
            self.holds(first, conversation),
        ensures
            content@ == (ContentView::Text {
                author: "user"@,
                content: prompt(first + context(conversation), last_user(conversation)),
                format: Some("plain"@),
                style: None,
                attachments: Some(Seq::empty()),
            }),
    {
        let text = match self.last_user {
            Some(text) => text,
            None => String::new(),
        };
        let mut sections = self.sections;
        let ghost before = texts(sections@);
        let full_text = if sections.len() == 0 {
            text
        } else {
            let section = "[User]\n".to_owned().concat(text.as_str());
            sections.push(section);
            assert(texts(sections@) =~= before.push(section@));
            join(&sections, "\n\n")
        };
        let attachments: Vec<Json> = Vec::new();
        assert(views(attachments@) =~= Seq::empty());
        TaskMessageContent::Text {
            author: "user".to_owned(),
            content: full_text,
            format: Some("plain".to_owned()),
            style: None,
            attachments: Some(attachments),
        }
    }
}

// ---------------------------------------------------------------------------
// What a request comes down to
// ---------------------------------------------------------------------------

/// Whether `part` occurs in `text`.
pub open spec fn occurs(part: Seq<char>, text: Seq<char>) -> bool {
    exists|before: Seq<char>, after: Seq<char>| text == #[trigger] (before + part + after)
}

/// Whether items of this type say anything: the others are skipped.
pub open spec fn is_known(kind: Seq<char>) -> bool {
    ||| kind == "message"@
    ||| kind == "function_call"@
    ||| kind == "function_call_output"@
    ||| kind == "reasoning"@
}

/// The last output of a tool is what is sent, whatever else the request holds: the agent is
/// waiting for it.
pub proof fn last_tool_output_is_sent(
    body: JsonView,
    before: Seq<JsonView>,
    item: JsonView,
    after: Seq<JsonView>,
    is_first_turn: bool,
)
    requires
        kind(item) == "function_call_output"@,
        forall|i: int|
            0 <= i < after.len() ==> kind(#[trigger] after[i]) != "function_call_output"@,
    ensures
        request_content(body, before.push(item) + after, is_first_turn) == output_content(
            item,
            rendered_output(item),
        ),
    decreases after.len(),
{
    let input = before.push(item) + after;
    if after.len() == 0 {
        assert(input.last() == item);
    } else {
        assert(input.last() == after[after.len() - 1]);
        assert(input.drop_last() =~= before.push(item) + after.drop_last());
        last_tool_output_is_sent(body, before, item, after.drop_last(), is_first_turn);
    }
}

/// Without an output of a tool, the conversation is sent as a text.
pub proof fn lemma_no_tool_output(input: Seq<JsonView>)
    requires
        forall|i: int|
            0 <= i < input.len() ==> kind(#[trigger] input[i]) != "function_call_output"@,
    ensures
        tool_response(input) is None,
    decreases input.len(),
{
    if input.len() > 0 {
        assert(kind(input[input.len() - 1]) != "function_call_output"@);
        lemma_no_tool_output(input.drop_last());
    }
}

/// After the first turn nothing but the input items and the wish for a stream counts: the
/// instructions, for one, make no difference.
pub proof fn instructions_count_on_the_first_turn_only(
    one: JsonView,
    other: JsonView,
    task_id: Option<Seq<char>>,
    task_name: Option<Seq<char>>,
)
    requires
        one.array_member("input"@) == other.array_member("input"@),
        one.bool_member("stream"@) == other.bool_member("stream"@),
    ensures
        translated(one, false, task_id, task_name) == translated(other, false, task_id, task_name),
{
    assert(instructions(one, false) == instructions(other, false));
}

/// The conversations of two runs of input items follow one another.
pub proof fn lemma_entries_concat(first: Seq<JsonView>, second: Seq<JsonView>)
    ensures
        entries(first + second) == entries(first) + entries(second),
    decreases second.len(),
{
    let all = first + second;
    if second.len() == 0 {
        assert(all =~= first);
        assert(entries(all) =~= entries(first) + Seq::empty());
    } else {
        assert(all.drop_last() =~= first + second.drop_last());
        assert(all.last() == second.last());
        lemma_entries_concat(first, second.drop_last());
        assert(entries(all) =~= entries(first) + entries(second));
    }
}

/// The last output of a tool is found in the later of two runs of input items, or else in the
/// earlier.
proof fn lemma_tool_response_concat(first: Seq<JsonView>, second: Seq<JsonView>)
    ensures
        tool_response(first + second) == match tool_response(second) {
            Some(content) => Some(content),
            None => tool_response(first),
        },
    decreases second.len(),
{
    let all = first + second;
    if second.len() == 0 {
        assert(all =~= first);
    } else {
        assert(all.drop_last() =~= first + second.drop_last());
        assert(all.last() == second.last());
        lemma_tool_response_concat(first, second.drop_last());
    }
}

/// An input item of any other type makes no difference, wherever it stands.
pub proof fn other_items_are_skipped(
    body: JsonView,
    before: Seq<JsonView>,
    item: JsonView,
    after: Seq<JsonView>,
    is_first_turn: bool,
)
    requires
        !is_known(kind(item)),
    ensures
        request_content(body, before.push(item) + after, is_first_turn) == request_content(
            body,
            before + after,
            is_first_turn,
        ),
{
    assert(before.push(item).drop_last() =~= before);
    assert(entries(before.push(item)) =~= entries(before));
    lemma_entries_concat(before.push(item), after);
    lemma_entries_concat(before, after);
    lemma_tool_response_concat(before.push(item), after);
    lemma_tool_response_concat(before, after);
}

/// Whether a part of a message has text to add.
pub open spec fn has_text(part: JsonView) -> bool {
    &&& kind(part) == "input_text"@ || kind(part) == "output_text"@
    &&& part.text_member("text"@) is Some
}

/// The message with the members `members` and the parts `parts`.
pub open spec fn message_with(members: Map<Seq<char>, JsonView>, parts: Seq<JsonView>) -> JsonView {
    JsonView::Object(members.insert("content"@, JsonView::Array(parts)))
}

/// The parts of a message add to the conversation one after the other.
pub proof fn lemma_parts_concat(role: Seq<char>, first: Seq<JsonView>, second: Seq<JsonView>)
    ensures
        parts_entries(role, first + second) == parts_entries(role, first) + parts_entries(
            role,
            second,
        ),
    decreases second.len(),
{
    let all = first + second;
    if second.len() == 0 {
        assert(all =~= first);
        assert(parts_entries(role, all) =~= parts_entries(role, first) + Seq::empty());
    } else {
        assert(all.drop_last() =~= first + second.drop_last());
        assert(all.last() == second.last());
        lemma_parts_concat(role, first, second.drop_last());
        assert(parts_entries(role, all) =~= parts_entries(role, first) + parts_entries(
            role,
            second,
        ));
    }
}

/// A part of a message that is neither `input_text` nor `output_text`, or has no text, makes no
/// difference, wherever it stands.
pub proof fn other_parts_are_skipped(
    body: JsonView,
    before: Seq<JsonView>,
    members: Map<Seq<char>, JsonView>,
    parts_before: Seq<JsonView>,
    part: JsonView,
    parts_after: Seq<JsonView>,
    after: Seq<JsonView>,
    is_first_turn: bool,
)
    requires
        kind(JsonView::Object(members)) == "message"@,
        !has_text(part),
    ensures
        request_content(
            body,
            before.push(message_with(members, parts_before.push(part) + parts_after)) + after,
            is_first_turn,
        ) == request_content(
            body,
            before.push(message_with(members, parts_before + parts_after)) + after,
            is_first_turn,
        ),
{
    let role = text_or(JsonView::Object(members).text_member("role"@), "user"@);
    let with = message_with(members, parts_before.push(part) + parts_after);
    let without = message_with(members, parts_before + parts_after);
    lemma_content_is_its_own();
    assert(parts_before.push(part).drop_last() =~= parts_before);
    assert(parts_entries(role, parts_before.push(part)) =~= parts_entries(role, parts_before));
    lemma_parts_concat(role, parts_before.push(part), parts_after);
    lemma_parts_concat(role, parts_before, parts_after);
    assert(item_entries(with) == item_entries(without));
    assert(before.push(with).drop_last() =~= before);
    assert(before.push(without).drop_last() =~= before);
    lemma_entries_concat(before.push(with), after);
    lemma_entries_concat(before.push(without), after);
    lemma_tool_response_concat(before.push(with), after);
    lemma_tool_response_concat(before.push(without), after);
}

/// The content of a message is neither its type nor its role, and a message is no output of a
/// tool.
proof fn lemma_content_is_its_own()
    ensures
        "content"@ != "type"@,
        "content"@ != "role"@,
        "message"@ != "function_call_output"@,
{
    reveal_strlit("content");
    reveal_strlit("type");
    reveal_strlit("role");
    reveal_strlit("message");
    reveal_strlit("function_call_output");
    assert("content"@.len() != "type"@.len());
    assert("content"@.len() != "role"@.len());
    assert("message"@.len() != "function_call_output"@.len());
}

/// Each of the texts that are joined occurs in what comes out.
proof fn lemma_joined_holds(parts: Seq<Seq<char>>, separator: Seq<char>, at: int)
    requires
        0 <= at < parts.len(),
    ensures
        occurs(parts[at], joined(parts, separator)),
    decreases parts.len(),
{
    let whole = joined(parts, separator);
    let rest = parts.drop_last();
    if at == parts.len() - 1 {
        let lead = whole.take(whole.len() - parts[at].len());
        assert(whole =~= lead + parts[at] + Seq::empty());
    } else {
        lemma_joined_holds(rest, separator, at);
        let (before, after) = choose|before: Seq<char>, after: Seq<char>|
            joined(rest, separator) == #[trigger] (before + rest[at] + after);
        assert(whole =~= before + parts[at] + (after + separator + parts.last()));
    }
}

/// What occurs in a part occurs in the whole.
pub proof fn lemma_occurs_within(inner: Seq<char>, part: Seq<char>, whole: Seq<char>)
    requires
        occurs(inner, part),
        occurs(part, whole),
    ensures
        occurs(inner, whole),
{
    let (a, b) = choose|a: Seq<char>, b: Seq<char>| part == #[trigger] (a + inner + b);
    let (c, d) = choose|c: Seq<char>, d: Seq<char>| whole == #[trigger] (c + part + d);
    assert(whole =~= (c + a) + inner + (b + d));
}

/// Each entry of a conversation is one of the sections, or the last text of the user.
proof fn lemma_entry_is_kept(conversation: Seq<Entry>, at: int)
    requires
        0 <= at < conversation.len(),
    ensures
        match conversation[at] {
            Entry::Context(section) => context(conversation).contains(section),
            Entry::User(text) => {
                ||| last_user(conversation) == Some(text)
                ||| context(conversation).contains(user_section(text))
            },
        },
    decreases conversation.len(),
{
    let before = conversation.drop_last();
    let sections = context(conversation);
    if at < conversation.len() - 1 {
        lemma_entry_is_kept(before, at);
        let earlier = context(before);
        assert(forall|s: Seq<char>| earlier.contains(s) ==> sections.contains(s)) by {
            assert forall|s: Seq<char>| earlier.contains(s) implies sections.contains(s) by {
                let i = choose|i: int| 0 <= i < earlier.len() && earlier[i] == s;
                assert(sections[i] == s);
            }
        }
        if conversation.last() is User && last_user(before) is Some {
            assert(sections[sections.len() - 1] == user_section(last_user(before)->0));
        }
    } else if conversation[at] is Context {
        assert(sections[sections.len() - 1] == conversation[at]->Context_0);
    }
}

/// The text that is sent ends in the last text of the user.
pub proof fn prompt_ends_in_last_user_text(sections: Seq<Seq<char>>, last: Option<Seq<char>>)
    ensures
        text_or_empty(last).is_suffix_of(prompt(sections, last)),
{
    if sections.len() > 0 {
        let all = sections.push(user_section(text_or_empty(last)));
        assert(all.drop_last() =~= sections);
        assert(prompt(sections, last) =~= joined(sections, "\n\n"@) + "\n\n"@ + "[User]\n"@
            + text_or_empty(last));
    }
}

/// Each section, and the last text of the user, occurs in the text that is sent.
proof fn lemma_prompt_holds(sections: Seq<Seq<char>>, last: Option<Seq<char>>)
    ensures
        forall|i: int|
            0 <= i < sections.len() ==> occurs(#[trigger] sections[i], prompt(sections, last)),
        occurs(text_or_empty(last), prompt(sections, last)),
{
    let text = text_or_empty(last);
    let whole = prompt(sections, last);
    let all = sections.push(user_section(text));
    assert forall|i: int| 0 <= i < sections.len() implies occurs(#[trigger] sections[i], whole) by {
        lemma_joined_holds(all, "\n\n"@, i);
        assert(all[i] == sections[i]);
    }
    prompt_ends_in_last_user_text(sections, last);
    assert(whole =~= whole.take(whole.len() - text.len()) + text + Seq::empty());
}

/// Nothing of the conversation is lost: where no output of a tool is to be sent, each text that
/// the input items add to it, and the instructions on the first turn, occur in what is sent.
pub proof fn conversation_is_sent(body: JsonView, input: Seq<JsonView>, is_first_turn: bool)
    requires
        forall|i: int|
            0 <= i < input.len() ==> kind(#[trigger] input[i]) != "function_call_output"@,
    ensures
        request_content(body, input, is_first_turn) is Text,
        forall|i: int|
            0 <= i < entries(input).len() ==> occurs(
                match #[trigger] entries(input)[i] {
                    Entry::User(text) => text,
                    Entry::Context(section) => section,
                },
                request_content(body, input, is_first_turn)->Text_content,
            ),
        is_first_turn && body.text_member("instructions"@) is Some ==> occurs(
            body.text_member("instructions"@)->0,
            request_content(body, input, is_first_turn)->Text_content,
        ),
{
    lemma_no_tool_output(input);
    let conversation = entries(input);
    let first = instructions(body, is_first_turn);
    let sections = first + context(conversation);
    let last = last_user(conversation);
    let sent = prompt(sections, last);
    lemma_prompt_holds(sections, last);
    assert forall|i: int| 0 <= i < conversation.len() implies occurs(
        match #[trigger] conversation[i] {
            Entry::User(text) => text,
            Entry::Context(section) => section,
        },
        sent,
    ) by {
        lemma_entry_is_kept(conversation, i);
        let section = match conversation[i] {
            Entry::User(text) => user_section(text),
            Entry::Context(section) => section,
        };
        if context(conversation).contains(section) {
            let k = choose|k: int|
                0 <= k < context(conversation).len() && context(conversation)[k] == section;
            assert(sections[first.len() + k] == section);
            if let Entry::User(text) = conversation[i] {
                assert(section =~= "[User]\n"@ + text + Seq::empty());
                lemma_occurs_within(text, section, sent);
            }
        }
    }
    if is_first_turn {
        if let Some(text) = body.text_member("instructions"@) {
            if text.len() > 0 {
                let section = "[System Instructions]\n"@ + text;
                assert(sections[0] == section);
                assert(section =~= "[System Instructions]\n"@ + text + Seq::empty());
                lemma_occurs_within(text, section, sent);
            } else {
                assert(sent =~= Seq::empty() + text + sent);
            }
        }
    }
}

} // verus!

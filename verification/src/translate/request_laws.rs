//! What a request becomes, in terms of the JSON of its body.

use crate::error::ProxyError;
use crate::json::json_text;
use crate::json::views;
use crate::json::Json;
use crate::json::JsonView;
use crate::text::joined;
use crate::text_laws::joining_puts_separators_between;
use crate::translate::request::context;
use crate::translate::request::conversation_is_sent;
use crate::translate::request::entries;
use crate::translate::request::function_call_output;
use crate::translate::request::instructions;
use crate::translate::request::item_entries;
use crate::translate::request::kind;
use crate::translate::request::last_tool_output_is_sent;
use crate::translate::request::last_user;
use crate::translate::request::lemma_entries_concat;
use crate::translate::request::lemma_no_tool_output;
use crate::translate::request::lemma_occurs_within;
use crate::translate::request::lemma_parts_concat;
use crate::translate::request::occurs;
use crate::translate::request::part_entries;
use crate::translate::request::parts_entries;
use crate::translate::request::request_content;
use crate::translate::request::summary_lines;
use crate::translate::request::translate_request;
use crate::translate::request::user_section;
use crate::translate::request::Entry;
use crate::translate::types::MessageSendParams;
use crate::translate::types::TaskMessageContent;
use vstd::prelude::*;

verus! {

// ---------------------------------------------------------------------------
// What the laws speak of
// ---------------------------------------------------------------------------

/// The string that is the member `name` of an object, where it has such a member.
pub open spec fn string_at(j: JsonView, name: Seq<char>) -> Option<Seq<char>> {
    match j {
        JsonView::Object(members) => if members.dom().contains(name) {
            match members[name] {
                JsonView::String(text) => Some(text),
                _ => None,
            }
        } else {
            None
        },
        _ => None,
    }
}

/// The elements of the array that is the member `name` of an object, where it has such a member.
pub open spec fn array_at(j: JsonView, name: Seq<char>) -> Option<Seq<JsonView>> {
    match j {
        JsonView::Object(members) => if members.dom().contains(name) {
            match members[name] {
                JsonView::Array(items) => Some(items),
                _ => None,
            }
        } else {
            None
        },
        _ => None,
    }
}

/// A text, or `default` where there is none.
pub open spec fn or_else(text: Option<Seq<char>>, default: Seq<char>) -> Seq<char> {
    match text {
        Some(text) => text,
        None => default,
    }
}

/// Whether an item or a part is of the type `name`.
pub open spec fn is_a(j: JsonView, name: Seq<char>) -> bool {
    string_at(j, "type"@) == Some(name)
}

/// The text of a part of a message, where it is a part with text.
pub open spec fn text_of_part(part: JsonView) -> Option<Seq<char>> {
    if is_a(part, "input_text"@) || is_a(part, "output_text"@) {
        string_at(part, "text"@)
    } else {
        None
    }
}

/// The role of a message.
pub open spec fn role_of(message: JsonView) -> Seq<char> {
    or_else(string_at(message, "role"@), "user"@)
}

/// Whether the texts of a message are those of the user.
pub open spec fn is_from_user(message: JsonView) -> bool {
    role_of(message) == "user"@ || role_of(message) == "developer"@
}

/// What a conversation comes down to: sections, and the last text of the user.
pub struct Told {
    pub sections: Seq<Seq<char>>,
    pub last: Option<Seq<char>>,
}

/// What the conversation in `input` comes down to.
pub open spec fn told(body: JsonView, input: Seq<JsonView>, is_first_turn: bool) -> Told {
    Told {
        sections: instructions(body, is_first_turn) + context(entries(input)),
        last: last_user(entries(input)),
    }
}

/// The user says `text`: what they said last becomes a section.
pub open spec fn user_says(before: Told, text: Seq<char>) -> Told {
    Told {
        sections: match before.last {
            Some(earlier) => before.sections.push("[User]\n"@ + earlier),
            None => before.sections,
        },
        last: Some(text),
    }
}

/// A section is added.
pub open spec fn adds_section(before: Told, section: Seq<char>) -> Told {
    Told { sections: before.sections.push(section), last: before.last }
}

/// A part of a message is said.
pub open spec fn says_part(before: Told, from_user: bool, part: JsonView) -> Told {
    match text_of_part(part) {
        Some(text) => if from_user {
            user_says(before, text)
        } else {
            adds_section(before, "[Assistant]\n"@ + text)
        },
        None => before,
    }
}

/// The parts of a message are said in order.
pub open spec fn says_parts(before: Told, from_user: bool, parts: Seq<JsonView>) -> Told
    decreases parts.len(),
{
    if parts.len() == 0 {
        before
    } else {
        says_part(says_parts(before, from_user, parts.drop_last()), from_user, parts.last())
    }
}

/// The texts of a reasoning summary: those of its elements that have one, in order.
pub open spec fn texts_of_summary(summary: Seq<JsonView>) -> Seq<Seq<char>> {
    summary.filter(|s: JsonView| string_at(s, "text"@) is Some).map_values(
        |s: JsonView| string_at(s, "text"@)->0,
    )
}

// ---------------------------------------------------------------------------
// The conversation
// ---------------------------------------------------------------------------

/// What the type of an item is by its JSON.
proof fn lemma_kind(item: JsonView)
    ensures
        kind(item) == or_else(string_at(item, "type"@), ""@),
        ""@ != "message"@,
        ""@ != "function_call"@,
        ""@ != "function_call_output"@,
        ""@ != "reasoning"@,
        ""@ != "input_text"@,
        ""@ != "output_text"@,
        "message"@ != "function_call"@,
        "message"@ != "function_call_output"@,
        "message"@ != "reasoning"@,
        "function_call"@ != "function_call_output"@,
        "function_call"@ != "reasoning"@,
        "function_call_output"@ != "reasoning"@,
{
    reveal_strlit("");
    reveal_strlit("message");
    reveal_strlit("function_call");
    reveal_strlit("function_call_output");
    reveal_strlit("reasoning");
    reveal_strlit("input_text");
    reveal_strlit("output_text");
    assert(""@.len() == 0 && "message"@.len() == 7 && "function_call"@.len() == 13);
    assert("function_call_output"@.len() == 20 && "reasoning"@.len() == 9);
    assert("input_text"@.len() == 10 && "output_text"@.len() == 11);
}

/// Before anything is said there is nothing but the instructions, on the first turn, where there
/// are any.
pub proof fn conversation_begins_with_the_instructions(body: JsonView, is_first_turn: bool)
    ensures
        told(body, Seq::empty(), is_first_turn).last is None,
        told(body, Seq::empty(), is_first_turn).sections == match string_at(
            body,
            "instructions"@,
        ) {
            Some(text) if is_first_turn && text.len() > 0 => seq![
                "[System Instructions]\n"@ + text,
            ],
            _ => Seq::<Seq<char>>::empty(),
        },
{
    assert(entries(Seq::empty()) =~= Seq::empty());
    assert(context(Seq::empty()) =~= Seq::empty());
    assert(told(body, Seq::empty(), is_first_turn).sections =~= instructions(body, is_first_turn));
}

/// What follows an entry of the conversation.
proof fn lemma_entry_follows(first: Seq<Seq<char>>, conversation: Seq<Entry>, entry: Entry)
    ensures
        ({
            let before = Told {
                sections: first + context(conversation),
                last: last_user(conversation),
            };
            let grown = conversation.push(entry);
            let after = match entry {
                Entry::User(text) => user_says(before, text),
                Entry::Context(section) => adds_section(before, section),
            };
            &&& first + context(grown) == after.sections
            &&& last_user(grown) == after.last
        }),
{
    let grown = conversation.push(entry);
    assert(grown.drop_last() =~= conversation);
    assert(grown.last() == entry);
    match entry {
        Entry::User(text) => match last_user(conversation) {
            Some(earlier) => {
                assert(first + context(grown) =~= (first + context(conversation)).push(
                    "[User]\n"@ + earlier,
                ));
            },
            None => {
                assert(first + context(grown) =~= first + context(conversation));
            },
        },
        Entry::Context(section) => {
            assert(first + context(grown) =~= (first + context(conversation)).push(section));
        },
    }
}

/// What follows the parts of a message.
proof fn lemma_parts_follow(
    first: Seq<Seq<char>>,
    conversation: Seq<Entry>,
    role: Seq<char>,
    parts: Seq<JsonView>,
)
    ensures
        ({
            let before = Told {
                sections: first + context(conversation),
                last: last_user(conversation),
            };
            let grown = conversation + parts_entries(role, parts);
            let after = says_parts(before, role == "user"@ || role == "developer"@, parts);
            &&& first + context(grown) == after.sections
            &&& last_user(grown) == after.last
        }),
    decreases parts.len(),
{
    let grown = conversation + parts_entries(role, parts);
    if parts.len() == 0 {
        assert(grown =~= conversation);
    } else {
        let rest = parts.drop_last();
        let part = parts.last();
        let so_far = conversation + parts_entries(role, rest);
        lemma_parts_follow(first, conversation, role, rest);
        lemma_kind(part);
        match text_of_part(part) {
            Some(text) => {
                let entry = if role == "user"@ || role == "developer"@ {
                    Entry::User(text)
                } else {
                    Entry::Context("[Assistant]\n"@ + text)
                };
                assert(part_entries(role, part) =~= seq![entry]);
                assert(grown =~= so_far.push(entry));
                lemma_entry_follows(first, so_far, entry);
            },
            None => {
                assert(part_entries(role, part) =~= Seq::empty());
                assert(grown =~= so_far);
            },
        }
    }
}

/// The texts of a summary are those of its JSON.
proof fn lemma_summary(summary: Seq<JsonView>)
    ensures
        summary_lines(summary) == texts_of_summary(summary),
    decreases summary.len(),
{
    reveal(Seq::filter);
    if summary.len() > 0 {
        let rest = summary.drop_last();
        lemma_summary(rest);
        assert(summary_lines(summary) =~= texts_of_summary(summary));
    } else {
        assert(summary_lines(summary) =~= texts_of_summary(summary));
    }
}

/// What an item more adds to the conversation, by the JSON of the item:
///
/// - a message its texts, part by part and each of them whole, as those of the user or of the
///   assistant;
/// - a tool call a section with the tool, the id of the call and its arguments, whole;
/// - reasoning a section with all texts of its summary;
/// - anything else nothing.
pub proof fn item_adds_what_it_says(
    body: JsonView,
    input: Seq<JsonView>,
    item: JsonView,
    is_first_turn: bool,
)
    ensures
        ({
            let before = told(body, input, is_first_turn);
            let after = told(body, input.push(item), is_first_turn);
            if is_a(item, "message"@) {
                match array_at(item, "content"@) {
                    Some(parts) => after == says_parts(before, is_from_user(item), parts),
                    None => after == before,
                }
            } else if is_a(item, "function_call"@) {
                after == adds_section(
                    before,
                    "[Tool Call: "@ + or_else(string_at(item, "name"@), "unknown"@) + " ("@
                        + or_else(string_at(item, "call_id"@), ""@) + ")]\n"@ + or_else(
                        string_at(item, "arguments"@),
                        "{}"@,
                    ),
                )
            } else if is_a(item, "reasoning"@) {
                match array_at(item, "summary"@) {
                    Some(summary) if texts_of_summary(summary).len() > 0 => after == adds_section(
                        before,
                        "[Reasoning]\n"@ + joined(texts_of_summary(summary), "\n"@),
                    ),
                    _ => after == before,
                }
            } else {
                after == before
            }
        }),
{
    let first = instructions(body, is_first_turn);
    let conversation = entries(input);
    let more = item_entries(item);
    assert(input.push(item).drop_last() =~= input);
    assert(entries(input.push(item)) == conversation + more);
    lemma_kind(item);
    if is_a(item, "message"@) {
        match array_at(item, "content"@) {
            Some(parts) => {
                lemma_parts_follow(first, conversation, role_of(item), parts);
            },
            None => {
                assert(conversation + more =~= conversation);
            },
        }
    } else if is_a(item, "function_call"@) {
        assert(conversation + more =~= conversation.push(more[0]));
        lemma_entry_follows(first, conversation, more[0]);
    } else if is_a(item, "reasoning"@) {
        match array_at(item, "summary"@) {
            Some(summary) => {
                lemma_summary(summary);
                if texts_of_summary(summary).len() > 0 {
                    assert(conversation + more =~= conversation.push(more[0]));
                    lemma_entry_follows(first, conversation, more[0]);
                } else {
                    assert(conversation + more =~= conversation);
                }
            },
            None => {
                assert(conversation + more =~= conversation);
            },
        }
    } else {
        assert(conversation + more =~= conversation);
    }
}

// ---------------------------------------------------------------------------
// The translation of requests
// ---------------------------------------------------------------------------

/// Whether no item of `input` is the output of a tool.
pub open spec fn has_no_output(input: Seq<JsonView>) -> bool {
    forall|i: int| 0 <= i < input.len() ==> !is_a(#[trigger] input[i], "function_call_output"@)
}

/// Items that are no output of a tool by their JSON are none by their type.
proof fn lemma_has_no_output(input: Seq<JsonView>)
    requires
        has_no_output(input),
    ensures
        forall|i: int|
            0 <= i < input.len() ==> kind(#[trigger] input[i]) != "function_call_output"@,
{
    assert forall|i: int| 0 <= i < input.len() implies kind(#[trigger] input[i])
        != "function_call_output"@ by {
        lemma_kind(input[i]);
    }
}

/// A request is refused exactly where the `input` of its body is no array.
pub proof fn request_is_refused_without_input(
    body: &Json,
    is_first_turn: bool,
    task_id: Option<&str>,
    task_name: Option<&str>,
    r: Result<MessageSendParams, ProxyError>,
)
    requires
        call_ensures(translate_request, (body, is_first_turn, task_id, task_name), r),
    ensures
        r is Ok <==> array_at(body@, "input"@) is Some,
        match r {
            Ok(_) => true,
            Err(ProxyError::RequestParse(message)) => message@
                == "missing or invalid 'input' array"@,
        },
{
}

/// The message goes to the task that it is for, and is streamed unless the body says that it is
/// not to be.
pub proof fn message_goes_to_its_task(
    body: &Json,
    is_first_turn: bool,
    task_id: Option<&str>,
    task_name: Option<&str>,
    r: Result<MessageSendParams, ProxyError>,
)
    requires
        call_ensures(translate_request, (body, is_first_turn, task_id, task_name), r),
        r is Ok,
    ensures
        match task_id {
            Some(id) => r->Ok_0.task_id is Some && r->Ok_0.task_id->0@ == id@,
            None => r->Ok_0.task_id is None,
        },
        match task_name {
            Some(name) => r->Ok_0.task_name is Some && r->Ok_0.task_name->0@ == name@,
            None => r->Ok_0.task_name is None,
        },
        r->Ok_0.stream == Some(
            !(body@ is Object && body@->Object_0.dom().contains("stream"@)
                && body@->Object_0["stream"@] == JsonView::Bool(false)),
        ),
        r->Ok_0.task_params is None,
{
    let params = r->Ok_0;
    assert(params@.task_id is Some <==> task_id is Some);
    assert(params@.task_name is Some <==> task_name is Some);
    assert(params@.task_params is None);
}

/// The last output of a tool among the input items is handed to the agent: a string as it is,
/// however long, any other value as its JSON text, under the id of its call.
pub proof fn last_tool_output_is_handed_over_whole(
    body: &Json,
    is_first_turn: bool,
    task_id: Option<&str>,
    task_name: Option<&str>,
    r: Result<MessageSendParams, ProxyError>,
    before: Seq<JsonView>,
    item: JsonView,
    after: Seq<JsonView>,
)
    requires
        call_ensures(translate_request, (body, is_first_turn, task_id, task_name), r),
        array_at(body@, "input"@) == Some(before.push(item) + after),
        is_a(item, "function_call_output"@),
        has_no_output(after),
    ensures
        r is Ok,
        match r->Ok_0.content {
            TaskMessageContent::ToolResponse { author, tool_call_id, name, content } => {
                &&& author@ == "user"@
                &&& tool_call_id@ == or_else(string_at(item, "call_id"@), ""@)
                &&& name@.len() == 0
                &&& content@ is String
                &&& content@->String_0 == if !item->Object_0.dom().contains("output"@) {
                    Seq::empty()
                } else {
                    match item->Object_0["output"@] {
                        JsonView::String(text) => text,
                        output => match json_text(output) {
                            Some(text) => text,
                            None => Seq::empty(),
                        },
                    }
                }
            },
            _ => false,
        },
{
    lemma_kind(item);
    lemma_has_no_output(after);
    last_tool_output_is_sent(body@, before, item, after, is_first_turn);
    let params = r->Ok_0;
    assert(params@.content == params.content@);
}

/// Where no output of a tool is to be handed over, the conversation is sent as a text of the
/// user: their last text alone, or after all sections, each section and the text set off by an
/// empty line.
pub proof fn conversation_becomes_the_text(
    body: &Json,
    is_first_turn: bool,
    task_id: Option<&str>,
    task_name: Option<&str>,
    r: Result<MessageSendParams, ProxyError>,
    input: Seq<JsonView>,
)
    requires
        call_ensures(translate_request, (body, is_first_turn, task_id, task_name), r),
        array_at(body@, "input"@) == Some(input),
        has_no_output(input),
    ensures
        r is Ok,
        match r->Ok_0.content {
            TaskMessageContent::Text { author, content, format, style, attachments } => {
                let said = told(body@, input, is_first_turn);
                let last = match said.last {
                    Some(last) => last,
                    None => Seq::empty(),
                };
                &&& author@ == "user"@
                &&& format is Some && format->0@ == "plain"@
                &&& style is None
                &&& attachments is Some && attachments->0@.len() == 0
                &&& said.sections.len() == 0 ==> content@ == last
                &&& said.sections.len() > 0 ==> content@ == joined(said.sections, "\n\n"@)
                    + "\n\n"@ + "[User]\n"@ + last
            },
            _ => false,
        },
{
    lemma_has_no_output(input);
    lemma_no_tool_output(input);
    let params = r->Ok_0;
    let said = told(body@, input, is_first_turn);
    let last = match said.last {
        Some(last) => last,
        None => Seq::empty(),
    };
    assert(params@.content == params.content@);
    if let TaskMessageContent::Text { author, content, format, style, attachments } =
        params.content {
        assert(params.content@->attachments == Some(Seq::<JsonView>::empty()));
        assert(views(attachments->0@).len() == attachments->0@.len());
        let closing = user_section(last);
        joining_puts_separators_between(seq![closing], Seq::empty(), "\n\n"@);
        if said.sections.len() > 0 {
            joining_puts_separators_between(said.sections, seq![closing], "\n\n"@);
            assert(said.sections.push(closing) =~= said.sections + seq![closing]);
            assert(content@ =~= joined(said.sections, "\n\n"@) + "\n\n"@ + "[User]\n"@ + last);
        }
    }
}

/// A part of a message adds an entry with its text.
proof fn lemma_part_is_an_entry(role: Seq<char>, parts: Seq<JsonView>, at: int) -> (place: int)
    requires
        0 <= at < parts.len(),
        text_of_part(parts[at]) is Some,
    ensures
        0 <= place < parts_entries(role, parts).len(),
        parts_entries(role, parts)[place] == if role == "user"@ || role == "developer"@ {
            Entry::User(text_of_part(parts[at])->0)
        } else {
            Entry::Context("[Assistant]\n"@ + text_of_part(parts[at])->0)
        },
{
    let before = parts.take(at);
    let after = parts.skip(at + 1);
    let one = seq![parts[at]];
    lemma_kind(parts[at]);
    assert(parts =~= before + (one + after));
    lemma_parts_concat(role, before, one + after);
    lemma_parts_concat(role, one, after);
    assert(one.drop_last() =~= Seq::empty());
    assert(parts_entries(role, one.drop_last()) =~= Seq::empty());
    assert(parts_entries(role, one) =~= part_entries(role, parts[at]));
    let place = parts_entries(role, before).len() as int;
    assert(parts_entries(role, parts)[place] == part_entries(role, parts[at])[0]);
    place
}

/// Each text of each message of the conversation is in what is sent, whole, by the JSON of the
/// input: nothing of it is cut away.
pub proof fn every_text_is_sent_whole(
    body: &Json,
    is_first_turn: bool,
    task_id: Option<&str>,
    task_name: Option<&str>,
    r: Result<MessageSendParams, ProxyError>,
    input: Seq<JsonView>,
    at: int,
    parts: Seq<JsonView>,
    part: int,
    text: Seq<char>,
)
    requires
        call_ensures(translate_request, (body, is_first_turn, task_id, task_name), r),
        array_at(body@, "input"@) == Some(input),
        has_no_output(input),
        0 <= at < input.len(),
        is_a(input[at], "message"@),
        array_at(input[at], "content"@) == Some(parts),
        0 <= part < parts.len(),
        is_a(parts[part], "input_text"@) || is_a(parts[part], "output_text"@),
        string_at(parts[part], "text"@) == Some(text),
    ensures
        r is Ok,
        r->Ok_0.content matches TaskMessageContent::Text { content, .. } && occurs(text, content@),
{
    let item = input[at];
    let one = seq![item];
    let before = input.take(at);
    let after = input.skip(at + 1);
    lemma_kind(item);
    lemma_has_no_output(input);
    conversation_is_sent(body@, input, is_first_turn);
    assert(input =~= before + (one + after));
    lemma_entries_concat(before, one + after);
    lemma_entries_concat(one, after);
    assert(one.drop_last() =~= Seq::empty());
    assert(entries(one.drop_last()) =~= Seq::empty());
    assert(entries(one) =~= item_entries(item));
    let place = lemma_part_is_an_entry(role_of(item), parts, part);
    let spot = entries(before).len() + place;
    assert(entries(input)[spot] == parts_entries(role_of(item), parts)[place]);
    let params = r->Ok_0;
    assert(params@.content == params.content@);
    assert(params@.content == request_content(body@, input, is_first_turn));
    let sent = params@.content->Text_content;
    if let Entry::Context(section) = entries(input)[spot] {
        assert(section =~= "[Assistant]\n"@ + text + Seq::empty());
        lemma_occurs_within(text, section, sent);
    }
}

/// A single text of the user, with nothing else to say, is sent as exactly that text.
pub proof fn single_text_is_sent_as_it_is(
    body: &Json,
    is_first_turn: bool,
    task_id: Option<&str>,
    task_name: Option<&str>,
    r: Result<MessageSendParams, ProxyError>,
    message: JsonView,
    part: JsonView,
    text: Seq<char>,
)
    requires
        call_ensures(translate_request, (body, is_first_turn, task_id, task_name), r),
        array_at(body@, "input"@) == Some(seq![message]),
        !is_first_turn || string_at(body@, "instructions"@) is None,
        is_a(message, "message"@),
        is_from_user(message),
        array_at(message, "content"@) == Some(seq![part]),
        text_of_part(part) == Some(text),
    ensures
        r is Ok,
        r->Ok_0.content matches TaskMessageContent::Text { content, .. } && content@ == text,
{
    let none = Seq::<JsonView>::empty();
    let input = seq![message];
    lemma_kind(message);
    assert forall|i: int| 0 <= i < input.len() implies !is_a(
        #[trigger] input[i],
        "function_call_output"@,
    ) by {}
    conversation_begins_with_the_instructions(body@, is_first_turn);
    item_adds_what_it_says(body@, none, message, is_first_turn);
    assert(none.push(message) =~= input);
    let before = told(body@, none, is_first_turn);
    let parts = seq![part];
    assert(parts.drop_last() =~= Seq::empty());
    assert(says_parts(before, true, parts.drop_last()) == before);
    assert(says_parts(before, true, parts) == says_part(before, true, part));
    conversation_becomes_the_text(body, is_first_turn, task_id, task_name, r, input);
}

/// The text of the instructions is in what is sent on the first turn, whole.
pub proof fn instructions_are_sent_whole(
    body: &Json,
    task_id: Option<&str>,
    task_name: Option<&str>,
    r: Result<MessageSendParams, ProxyError>,
    input: Seq<JsonView>,
    text: Seq<char>,
)
    requires
        call_ensures(translate_request, (body, true, task_id, task_name), r),
        array_at(body@, "input"@) == Some(input),
        has_no_output(input),
        string_at(body@, "instructions"@) == Some(text),
    ensures
        r is Ok,
        r->Ok_0.content matches TaskMessageContent::Text { content, .. } && occurs(text, content@),
{
    lemma_has_no_output(input);
    conversation_is_sent(body@, input, true);
    let params = r->Ok_0;
    assert(params@.content == params.content@);
}

/// The output of a tool is handed over under the id of its call: a string as it is, however long,
/// any other value as the JSON text that is given for it.
pub proof fn tool_output_is_handed_over_whole(
    item: &Json,
    rendered: Option<String>,
    content: TaskMessageContent,
    members: Map<Seq<char>, JsonView>,
)
    requires
        call_ensures(function_call_output, (item, rendered), content),
        item@ == JsonView::Object(members),
    ensures
        match content {
            TaskMessageContent::ToolResponse { author, tool_call_id, name, content } => {
                &&& author@ == "user"@
                &&& tool_call_id@ == or_else(string_at(item@, "call_id"@), ""@)
                &&& name@.len() == 0
                &&& content@ is String
                &&& content@->String_0 == if !members.dom().contains("output"@) {
                    Seq::empty()
                } else {
                    match (members["output"@], rendered) {
                        (JsonView::String(text), _) => text,
                        (_, Some(text)) => text@,
                        (_, None) => Seq::empty(),
                    }
                }
            },
            _ => false,
        },
{
}

} // verus!

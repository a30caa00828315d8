//! What is read of a streamed reply, in terms of the reply itself.

use crate::error::AgentexError;
use crate::json::parsed_json;
use crate::json::Json;
use crate::json::JsonView;
use crate::stream::cut;
use crate::stream::invalid_chunk;
use crate::stream::line_payload;
use crate::stream::line_read;
use crate::stream::line_views;
use crate::stream::lines_read;
use crate::stream::parsed_value;
use crate::stream::payload;
use crate::stream::read_line;
use crate::stream::unwrap_envelope;
use crate::stream::utf8_error_text;
use crate::stream::StreamDecoder;
use crate::stream::StreamLine;
use crate::stream::StreamLineView;
use crate::stream_reader::ChunkEvent;
use crate::stream_reader::ReadError;
use crate::stream_reader::Reading;
use crate::stream_reader::StreamReader;
use crate::text::all_white_space;
use crate::text::is_white_space;
use crate::text_laws::trimming_leaves_the_text;
use vstd::prelude::*;
use vstd::utf8::decode_utf8;
use vstd::utf8::valid_utf8;

verus! {

// ---------------------------------------------------------------------------
// Envelopes
// ---------------------------------------------------------------------------

/// What a value of the stream holds: the member `result` of an object that has it, whatever that
/// is, and any other value itself.
pub open spec fn held_by(value: JsonView) -> JsonView {
    match value {
        JsonView::Object(members) => if members.dom().contains("result"@) {
            members["result"@]
        } else {
            value
        },
        _ => value,
    }
}

/// An envelope is opened once and its result is left as it is, whatever members it has; a value
/// that is no envelope is left as it is.
pub proof fn envelope_holds_its_result(value: Json, inner: Json)
    requires
        call_ensures(unwrap_envelope, (value,), inner),
    ensures
        match value@ {
            JsonView::Object(members) => if members.dom().contains("result"@) {
                inner@ == members["result"@]
            } else {
                inner@ == JsonView::Object(members)
            },
            _ => inner@ == value@,
        },
{
}

/// A value that was read is opened, and one that was not stays missing.
pub proof fn parsed_envelope_is_opened(parsed: Option<Json>, value: Option<Json>)
    requires
        call_ensures(parsed_value, (parsed,), value),
    ensures
        match parsed {
            Some(parsed) => value is Some && value->0@ == held_by(parsed@),
            None => value is None,
        },
{
}

// ---------------------------------------------------------------------------
// Lines
// ---------------------------------------------------------------------------

/// Whether `text` begins with `prefix`.
pub open spec fn begins_with(text: Seq<char>, prefix: Seq<char>) -> bool {
    exists|rest: Seq<char>| text == #[trigger] (prefix + rest)
}

/// A text with something to say: it neither begins nor ends in white space.
pub open spec fn is_bare(text: Seq<char>) -> bool {
    text.len() > 0 && !is_white_space(text[0]) && !is_white_space(text.last())
}

/// A text that begins with a prefix has the prefix for a prefix.
proof fn lemma_begins_with(text: Seq<char>, prefix: Seq<char>)
    ensures
        prefix.is_prefix_of(text) <==> begins_with(text, prefix),
{
    if prefix.is_prefix_of(text) {
        assert(text =~= prefix + text.skip(prefix.len() as int));
    }
    if begins_with(text, prefix) {
        let rest = choose|rest: Seq<char>| text == #[trigger] (prefix + rest);
        assert(text.subrange(0, prefix.len() as int) =~= prefix);
    }
}

/// A bare text with white space around it is what its line says, unless it names an event or
/// begins with `data:`; and so it is after `data:` and white space.
pub proof fn line_says_its_text(
    before: Seq<char>,
    gap: Seq<char>,
    text: Seq<char>,
    after: Seq<char>,
)
    requires
        all_white_space(before),
        all_white_space(gap),
        all_white_space(after),
        is_bare(text),
        !begins_with(text, "event:"@),
    ensures
        !begins_with(text, "data:"@) ==> payload(before + text + after) == Some(text),
        payload(before + ("data:"@ + gap + text) + after) == Some(text),
{
    let none = Seq::<char>::empty();
    lemma_begins_with(text, "event:"@);
    lemma_begins_with(text, "data:"@);
    trimming_leaves_the_text(before, text, after);
    let framed = "data:"@ + gap + text;
    reveal_strlit("data:");
    assert(framed[0] == 'd');
    assert(framed.last() == text.last());
    trimming_leaves_the_text(before, framed, after);
    assert(framed =~= "data:"@ + (gap + text));
    assert(begins_with(framed, "data:"@));
    lemma_begins_with(framed, "data:"@);
    assert(framed.skip("data:"@.len() as int) =~= gap + text + none);
    trimming_leaves_the_text(gap, text, none);
}

/// A line of white space is skipped, and so is one whose text, bare or after `data:`, names an
/// event. A line with nothing after `data:` says the empty text.
pub proof fn line_is_skipped(
    before: Seq<char>,
    gap: Seq<char>,
    name: Seq<char>,
    after: Seq<char>,
)
    requires
        all_white_space(before),
        all_white_space(gap),
        all_white_space(after),
        name.len() > 0 ==> !is_white_space(name.last()),
    ensures
        payload(before) is None,
        payload(before + ("data:"@ + gap)) == Some(Seq::<char>::empty()),
        payload(before + ("event:"@ + name) + after) is None,
        payload(before + ("data:"@ + gap + ("event:"@ + name)) + after) is None,
{
    let none = Seq::<char>::empty();
    trimming_leaves_the_text(before, none, none);
    assert(before + none + none =~= before);
    reveal_strlit("event:");
    reveal_strlit("data:");
    let event = "event:"@ + name;
    assert(event[0] == 'e');
    if name.len() == 0 {
        assert(event =~= "event:"@);
    } else {
        assert(event.last() == name.last());
    }
    assert(begins_with(event, "event:"@));
    lemma_begins_with(event, "event:"@);
    trimming_leaves_the_text(before, event, after);
    let framed = "data:"@ + gap + event;
    assert(framed[0] == 'd');
    assert(framed.last() == event.last());
    trimming_leaves_the_text(before, framed, after);
    assert(framed =~= "data:"@ + (gap + event));
    assert(begins_with(framed, "data:"@));
    lemma_begins_with(framed, "data:"@);
    assert(framed.skip("data:"@.len() as int) =~= gap + event + none);
    trimming_leaves_the_text(gap, event, none);
    assert(before + ("data:"@ + gap) =~= before + "data:"@ + gap);
    trimming_leaves_the_text(before, "data:"@, gap);
    assert("data:"@ =~= "data:"@ + none);
    assert(begins_with("data:"@, "data:"@));
    lemma_begins_with("data:"@, "data:"@);
    assert("data:"@.skip("data:"@.len() as int) =~= none);
    trimming_leaves_the_text(none, none, none);
    assert(none + none + none =~= none);
    lemma_begins_with(none, "event:"@);
    if begins_with(event, "data:"@) {
        let rest = choose|rest: Seq<char>| event == #[trigger] ("data:"@ + rest);
        assert(event[0] == ("data:"@ + rest)[0]);
    }
    lemma_begins_with(event, "data:"@);
}

/// `read_line` reads a line that is not skipped: what it says, as it is, and what the value holds
/// that it writes out, where it writes out one.
pub proof fn line_is_read_as_it_is(line: &str, read: Option<StreamLine>, json: Option<&str>)
    requires
        call_ensures(read_line, (line,), read),
        call_ensures(line_payload, (line,), json),
    ensures
        match payload(line@) {
            Some(text) => {
                &&& json is Some && json->0@ == text
                &&& read is Some && read->0.payload@ == text
                &&& match parsed_json(text) {
                    Some(value) => read->0.value is Some && read->0.value->0@ == held_by(value),
                    None => read->0.value is None,
                }
            },
            None => json is None && read is None,
        },
{
}

/// A line that writes out an envelope is read as exactly what the envelope holds, whatever that
/// is, and a line that writes out an object that is no envelope as the object.
pub proof fn line_of_an_envelope_is_read_as_its_result(
    line: &str,
    read: Option<StreamLine>,
    before: Seq<char>,
    text: Seq<char>,
    after: Seq<char>,
    members: Map<Seq<char>, JsonView>,
)
    requires
        call_ensures(read_line, (line,), read),
        line@ == before + text + after,
        all_white_space(before),
        all_white_space(after),
        is_bare(text),
        !begins_with(text, "event:"@),
        !begins_with(text, "data:"@),
        parsed_json(text) == Some(JsonView::Object(members)),
    ensures
        read is Some,
        read->0.value is Some,
        members.dom().contains("result"@) ==> read->0.value->0@ == members["result"@],
        !members.dom().contains("result"@) ==> read->0.value->0@ == JsonView::Object(members),
{
    line_says_its_text(before, Seq::empty(), text, after);
}

// ---------------------------------------------------------------------------
// Lines of a text
// ---------------------------------------------------------------------------

/// The lines, each with its line end.
pub open spec fn with_ends(lines: Seq<Seq<char>>) -> Seq<char> {
    lines.map_values(|l: Seq<char>| l.push('\n')).flatten_alt()
}

/// A text is cut at its line ends and nowhere else: the lines, each with its line end, and the
/// rest make up the text, and none of them holds a line end.
pub proof fn lines_make_up_the_text(text: Seq<char>)
    ensures
        with_ends(cut(text).lines) + cut(text).rest == text,
        !cut(text).rest.contains('\n'),
        forall|i: int|
            0 <= i < cut(text).lines.len() ==> !(#[trigger] cut(text).lines[i]).contains('\n'),
    decreases text.len(),
{
    let all = cut(text);
    let ended = all.lines.map_values(|l: Seq<char>| l.push('\n'));
    if text.len() == 0 {
        assert(ended.flatten_alt() =~= Seq::empty());
        assert(with_ends(all.lines) + all.rest =~= text);
    } else {
        let init = text.drop_last();
        let before = cut(init);
        let ended_before = before.lines.map_values(|l: Seq<char>| l.push('\n'));
        lines_make_up_the_text(init);
        if text.last() == '\n' {
            assert(ended.drop_last() =~= ended_before);
            assert(ended.last() =~= before.rest.push('\n'));
            assert(with_ends(all.lines) =~= with_ends(before.lines) + before.rest.push('\n'));
            assert(with_ends(all.lines) + all.rest =~= (with_ends(before.lines)
                + before.rest).push('\n'));
            assert(init.push('\n') =~= text);
        } else {
            assert(with_ends(all.lines) + all.rest =~= (with_ends(before.lines)
                + before.rest).push(text.last()));
            assert(init.push(text.last()) =~= text);
            assert forall|i: int| 0 <= i < all.rest.len() implies #[trigger] all.rest[i]
                != '\n' by {
                if i < before.rest.len() {
                    assert(before.rest.contains(before.rest[i]));
                    assert(all.rest[i] == before.rest[i]);
                }
            }
        }
    }
}

/// What is read of lines is what is read of each that is not skipped, in order.
pub proof fn lines_are_read_one_by_one(lines: Seq<Seq<char>>)
    ensures
        lines_read(lines) == lines.filter(|l: Seq<char>| payload(l) is Some).map_values(
            |l: Seq<char>| line_read(l)->0,
        ),
    decreases lines.len(),
{
    reveal(Seq::filter);
    if lines.len() > 0 {
        lines_are_read_one_by_one(lines.drop_last());
    }
    assert(lines_read(lines) =~= lines.filter(|l: Seq<char>| payload(l) is Some).map_values(
        |l: Seq<char>| line_read(l)->0,
    ));
}

/// What is read of a line is what it says and what the value holds that it writes out.
pub proof fn line_read_is_what_the_line_says(line: Seq<char>)
    ensures
        match payload(line) {
            Some(text) => line_read(line) == Some(
                StreamLineView {
                    payload: text,
                    value: match parsed_json(text) {
                        Some(value) => Some(held_by(value)),
                        None => None,
                    },
                },
            ),
            None => line_read(line) is None,
        },
{
}

/// A decoder hands out what is read of the lines that a text ends, and holds what follows the
/// last line end.
pub proof fn decoder_reads_the_lines(decoder: &mut StreamDecoder, text: &str, read: Vec<StreamLine>)
    requires
        call_ensures(StreamDecoder::push_text, (decoder, text), read),
    ensures
        ({
            let all = lines_read(cut(old(decoder)@ + text@).lines);
            &&& read@.len() == all.len()
            &&& forall|i: int| 0 <= i < all.len() ==> (#[trigger] read@[i])@ == all[i]
            &&& final(decoder)@ == cut(old(decoder)@ + text@).rest
        }),
{
    let views = line_views(read@);
    assert(views.len() == read@.len());
    assert forall|i: int| 0 <= i < read@.len() implies (#[trigger] read@[i])@ == views[i] by {}
}

/// A line says its payload and what its value says.
pub proof fn stream_line_says_what_it_holds(line: StreamLine)
    ensures
        line@.payload == line.payload@,
        match line.value {
            Some(value) => line@.value == Some(value@),
            None => line@.value is None,
        },
{
}

/// The error for a chunk that is not UTF-8 says what is wrong with it, whole.
pub proof fn invalid_chunk_says_what_is_wrong(error: &str, e: AgentexError)
    requires
        call_ensures(invalid_chunk, (error,), e),
    ensures
        e matches AgentexError::Parse(message) && message@ == "invalid UTF-8: "@ + error@,
{
}

// ---------------------------------------------------------------------------
// The reader
// ---------------------------------------------------------------------------

/// What `StreamReader::next` gives for what happens to a reply, by what happens:
///
/// - nothing once the reply is over;
/// - the lines that a chunk of UTF-8 ends;
/// - one error, which says what is wrong, for any other chunk;
/// - the error of the transfer, as it is, where that fails;
/// - the line that has not ended, where the transfer ends.
pub proof fn reader_gives_what_has_come<E>(
    reader: &mut StreamReader,
    event: ChunkEvent<'_, E>,
    reading: Reading<E>,
)
    requires
        call_ensures(StreamReader::next::<E>, (reader, event), reading),
    ensures
        ({
            let was = old(reader)@;
            let now = final(reader)@;
            if was.over {
                now == was && reading.lines@.len() == 0 && reading.error is None
            } else {
                match event {
                    ChunkEvent::Chunk(chunk) => if valid_utf8(chunk@) {
                        let all = cut(was.held + decode_utf8(chunk@));
                        &&& !now.over
                        &&& now.held == all.rest
                        &&& reading.error is None
                        &&& reading.lines@.len() == lines_read(all.lines).len()
                        &&& forall|i: int|
                            0 <= i < reading.lines@.len() ==> (#[trigger] reading.lines@[i])@
                                == lines_read(all.lines)[i]
                    } else {
                        &&& now.over
                        &&& reading.lines@.len() == 0
                        &&& reading.error matches Some(ReadError::Reply(AgentexError::Parse(m)))
                            && m@ == "invalid UTF-8: "@ + utf8_error_text(chunk@)
                    },
                    ChunkEvent::Failed(error) => {
                        &&& now.over
                        &&& reading.lines@.len() == 0
                        &&& reading.error == Some(ReadError::Transfer(error))
                    },
                    ChunkEvent::End => {
                        &&& now.over
                        &&& reading.error is None
                        &&& match line_read(was.held) {
                            Some(line) => reading.lines@.len() == 1 && reading.lines@[0]@ == line,
                            None => reading.lines@.len() == 0,
                        }
                    },
                }
            }
        }),
{
    let views = line_views(reading.lines@);
    assert(views == reading@.lines);
    assert(views.len() == reading.lines@.len());
    assert forall|i: int| 0 <= i < reading.lines@.len() implies (#[trigger] reading.lines@[i])@
        == views[i] by {}
    assert(reading@.error is Some <==> reading.error is Some);
}

/// A decoder takes in a chunk of UTF-8 like its text, refuses any other, and reads the line that
/// it holds when asked to; a new one holds nothing.
pub proof fn decoder_takes_in_chunks(
    fresh: StreamDecoder,
    decoder: &mut StreamDecoder,
    chunk: &[u8],
    r: Result<Vec<StreamLine>, AgentexError>,
    held: &StreamDecoder,
    last: Option<StreamLine>,
)
    requires
        call_ensures(StreamDecoder::new, (), fresh),
        call_ensures(StreamDecoder::push_chunk, (decoder, chunk), r),
        call_ensures(StreamDecoder::last_line, (held,), last),
    ensures
        fresh@.len() == 0,
        match r {
            Ok(read) => {
                let all = cut(old(decoder)@ + decode_utf8(chunk@));
                &&& valid_utf8(chunk@)
                &&& final(decoder)@ == all.rest
                &&& read@.len() == lines_read(all.lines).len()
                &&& forall|i: int|
                    0 <= i < read@.len() ==> (#[trigger] read@[i])@ == lines_read(all.lines)[i]
            },
            Err(AgentexError::Parse(message)) => {
                &&& !valid_utf8(chunk@)
                &&& message@ == "invalid UTF-8: "@ + utf8_error_text(chunk@)
                &&& final(decoder)@ == old(decoder)@
            },
            Err(_) => false,
        },
        match line_read(held@) {
            Some(line) => last is Some && last->0@ == line,
            None => last is None,
        },
{
    if let Ok(read) = r {
        let views = line_views(read@);
        assert(views.len() == read@.len());
        assert forall|i: int| 0 <= i < read@.len() implies (#[trigger] read@[i])@ == views[i] by {}
    }
}

/// A new reader has read nothing and its reply is not over, and a reader tells whether its reply
/// is.
pub proof fn reader_tells_whether_the_reply_is_over(
    fresh: StreamReader,
    reader: &StreamReader,
    over: bool,
)
    requires
        call_ensures(StreamReader::new, (), fresh),
        call_ensures(StreamReader::is_over, (reader,), over),
    ensures
        fresh@.held.len() == 0,
        !fresh@.over,
        over == reader@.over,
{
}

} // verus!

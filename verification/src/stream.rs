//! Cutting a streamed reply into JSON values.
//!
//! A streamed reply comes in chunks. Each of its lines is a JSON value, bare (NDJSON) or after a
//! `data:` prefix (server-sent events); each value is an update, or a JSON-RPC envelope with the
//! update as its `result`.

use crate::error::AgentexError;
use crate::error::AgentexErrorView;
use crate::json::opt_view;
use crate::json::parsed_json;
use crate::json::Json;
use crate::json::JsonView;
use crate::text::all_white_space;
use crate::text::chars_of;
use crate::text::is_white_space;
use crate::text::lemma_trimmed;
use crate::text::lemma_trimmed_bounds;
use crate::text::strip_prefix;
use crate::text::stripped;
use crate::text::trim;
use crate::text::trimmed;
use crate::text::white_space_around_is_trimmed;
use vstd::prelude::*;
use vstd::string::*;
use vstd::utf8::decode_utf8;
use vstd::utf8::pop_first_scalar;
use vstd::utf8::valid_utf8;

verus! {

// ---------------------------------------------------------------------------
// Lines
// ---------------------------------------------------------------------------

/// A text cut at its line ends: the lines, and what follows the last line end.
#[verifier::ext_equal]
pub struct LinesView {
    pub lines: Seq<Seq<char>>,
    pub rest: Seq<char>,
}

/// `text` cut at its line ends.
pub open spec fn cut(text: Seq<char>) -> LinesView
    decreases text.len(),
{
    if text.len() == 0 {
        LinesView { lines: Seq::empty(), rest: Seq::empty() }
    } else {
        let before = cut(text.drop_last());
        if text.last() == '\n' {
            LinesView { lines: before.lines.push(before.rest), rest: Seq::empty() }
        } else {
            LinesView { lines: before.lines, rest: before.rest.push(text.last()) }
        }
    }
}

/// What a line has in place of a JSON value: nothing where it is blank or names an event, else
/// the line without a `data:` prefix.
pub open spec fn payload(line: Seq<char>) -> Option<Seq<char>> {
    let line = trimmed(line);
    let json = match stripped(line, "data:"@) {
        Some(data) => trimmed(data),
        None => line,
    };
    if line.len() == 0 || stripped(json, "event:"@) is Some {
        None
    } else {
        Some(json)
    }
}

/// What an envelope holds: its `result`, where it has one, else the value itself.
pub open spec fn unwrapped(value: JsonView) -> JsonView {
    match value.member("result"@) {
        Some(result) => result,
        None => value,
    }
}

/// A line that is not skipped: what it has in place of a JSON value, and the value, where it is
/// one.
#[derive(Debug, Clone, PartialEq)]
pub struct StreamLine {
    pub payload: String,
    pub value: Option<Json>,
}

/// What a `StreamLine` says.
#[verifier::ext_equal]
pub struct StreamLineView {
    pub payload: Seq<char>,
    pub value: Option<JsonView>,
}

impl View for StreamLine {
    type V = StreamLineView;

    open spec fn view(&self) -> StreamLineView {
        StreamLineView { payload: self.payload@, value: opt_view(self.value) }
    }
}

/// What a sequence of lines says.
pub open spec fn line_views(lines: Seq<StreamLine>) -> Seq<StreamLineView> {
    lines.map_values(|l: StreamLine| l@)
}

/// What is read of a line, where it is not to be skipped.
pub open spec fn line_read(line: Seq<char>) -> Option<StreamLineView> {
    match payload(line) {
        Some(json) => Some(
            StreamLineView {
                payload: json,
                value: match parsed_json(json) {
                    Some(value) => Some(unwrapped(value)),
                    None => None,
                },
            },
        ),
        None => None,
    }
}

/// What is read of the lines that are not to be skipped.
pub open spec fn lines_read(lines: Seq<Seq<char>>) -> Seq<StreamLineView>
    decreases lines.len(),
{
    if lines.len() == 0 {
        Seq::empty()
    } else {
        let before = lines_read(lines.drop_last());
        match line_read(lines.last()) {
            Some(read) => before.push(read),
            None => before,
        }
    }
}

/// What a line has in place of a JSON value, where it is not to be skipped.
pub fn line_payload(line: &str) -> (json: Option<&str>)
    ensures
        match json {
            Some(json) => payload(line@) == Some(json@),
            None => payload(line@) is None,
        },
{
    let line = trim(line);
    if line.is_empty() {
        return None;
    }
    let json = match strip_prefix(line, "data:") {
        Some(data) => trim(data),
        None => line,
    };
    match strip_prefix(json, "event:") {
        Some(_) => None,
        None => Some(json),
    }
}

/// What an envelope holds: its `result`, where it has one, else the value itself.
pub fn unwrap_envelope(value: Json) -> (inner: Json)
    ensures
        inner@ == unwrapped(value@),
{
    match value.get("result") {
        Some(result) => result.clone(),
        None => value,
    }
}

/// The value of a line that was read as `parsed`.
pub fn parsed_value(parsed: Option<Json>) -> (value: Option<Json>)
    ensures
        opt_view(value) == match parsed {
            Some(parsed) => Some(unwrapped(parsed@)),
            None => None,
        },
{
    match parsed {
        Some(parsed) => Some(unwrap_envelope(parsed)),
        None => None,
    }
}

/// Reads a line, where it is not to be skipped.
pub fn read_line(line: &str) -> (read: Option<StreamLine>)
    ensures
        match read {
            Some(read) => line_read(line@) == Some(read@),
            None => line_read(line@) is None,
        },
{
    match line_payload(line) {
        Some(json) => Some(
            StreamLine { payload: json.to_owned(), value: parsed_value(Json::parse(json)) },
        ),
        None => None,
    }
}

// ---------------------------------------------------------------------------
// Chunks
// ---------------------------------------------------------------------------

/// What `std::str::from_utf8` says is wrong with bytes that are not UTF-8.
pub uninterp spec fn utf8_error_text(bytes: Seq<u8>) -> Seq<char>;

/// `std::str::from_utf8`, with its error as text. It accepts UTF-8 and nothing else; what it
/// says of other bytes depends on the bytes alone.
#[verifier::external_body]
fn text_from_utf8(bytes: &[u8]) -> (text: Result<String, String>)
    ensures
        match text {
            Ok(text) => valid_utf8(bytes@) && text@ == decode_utf8(bytes@),
            Err(error) => !valid_utf8(bytes@) && error@ == utf8_error_text(bytes@),
        },
{
    match std::str::from_utf8(bytes) {
        Ok(text) => Ok(text.to_owned()),
        Err(error) => Err(error.to_string()),
    }
}

/// The error for a chunk that is not UTF-8, given what is wrong with it.
pub fn invalid_chunk(error: &str) -> (e: AgentexError)
    ensures
        e@ == AgentexErrorView::Parse("invalid UTF-8: "@ + error@),
{
    AgentexError::Parse("invalid UTF-8: ".to_owned().concat(error))
}

/// A streamed reply in the middle of coming in: the line that has not ended yet.
#[derive(Debug, Clone)]
pub struct StreamDecoder {
    line_buf: String,
}

impl View for StreamDecoder {
    type V = Seq<char>;

    closed spec fn view(&self) -> Seq<char> {
        self.line_buf@
    }
}

impl Default for StreamDecoder {
    fn default() -> (d: Self)
        ensures
            d@ == Seq::<char>::empty(),
    {
        StreamDecoder::new()
    }
}

impl StreamDecoder {
    /// Nothing has come in.
    pub fn new() -> (d: Self)
        ensures
            d@ == Seq::<char>::empty(),
    {
        StreamDecoder { line_buf: String::new() }
    }

    /// Takes in more text and hands out the lines that it ends.
    pub fn push_text(&mut self, text: &str) -> (read: Vec<StreamLine>)
        ensures
            line_views(read@) == lines_read(cut(old(self)@ + text@).lines),
            final(self)@ == cut(old(self)@ + text@).rest,
    {
        let full = self.line_buf.clone().concat(text);
        let chars = chars_of(full.as_str());
        let mut read: Vec<StreamLine> = Vec::new();
        let ghost mut lines = Seq::<Seq<char>>::empty();
        let mut start: usize = 0;
        let mut i: usize = 0;
        assert(line_views(read@) =~= Seq::empty());
        assert(full@.take(0) =~= Seq::empty());
        assert(full@.subrange(0, 0) =~= Seq::empty());
        while i < chars.len()
            invariant
                start <= i <= chars.len(),
                chars@ == full@,
                cut(full@.take(i as int)) == (LinesView {
                    lines,
                    rest: full@.subrange(start as int, i as int),
                }),
                line_views(read@) == lines_read(lines),
            decreases chars.len() - i,
        {
            assert(full@.take(i + 1).drop_last() =~= full@.take(i as int));
            assert(full@.take(i + 1).last() == full@[i as int]);
            if chars[i] == '\n' {
                let line = full.as_str().substring_char(start, i);
                let ghost before = line_views(read@);
                match read_line(line) {
                    Some(next) => {
                        read.push(next);
                        assert(line_views(read@) =~= before.push(next@));
                    },
                    None => {},
                }
                proof {
                    assert(lines.push(line@).drop_last() =~= lines);
                    lines = lines.push(line@);
                }
                i += 1;
                start = i;
                assert(full@.subrange(start as int, i as int) =~= Seq::empty());
            } else {
                assert(full@.subrange(start as int, i + 1) =~= full@.subrange(
                    start as int,
                    i as int,
                ).push(full@[i as int]));
                i += 1;
            }
        }
        assert(full@.take(i as int) =~= full@);
        self.line_buf = full.as_str().substring_char(start, chars.len()).to_owned();
        read
    }

    /// Takes in a chunk and hands out the lines that it ends. A chunk that is not
    /// UTF-8 is refused and not taken in.
    pub fn push_chunk(&mut self, chunk: &[u8]) -> (r: Result<
        Vec<StreamLine>,
        AgentexError,
    >)
        ensures
            match r {
                Ok(read) => {
                    &&& valid_utf8(chunk@)
                    &&& line_views(read@) == lines_read(
                        cut(old(self)@ + decode_utf8(chunk@)).lines,
                    )
                    &&& final(self)@ == cut(old(self)@ + decode_utf8(chunk@)).rest
                },
                Err(e) => {
                    &&& !valid_utf8(chunk@)
                    &&& e@ == AgentexErrorView::Parse(
                        "invalid UTF-8: "@ + utf8_error_text(chunk@),
                    )
                    &&& final(self)@ == old(self)@
                },
            },
    {
        match text_from_utf8(chunk) {
            Ok(text) => Ok(self.push_text(text.as_str())),
            Err(error) => Err(invalid_chunk(error.as_str())),
        }
    }

    /// Reads the line that has not ended yet, where it is not to be skipped.
    pub fn last_line(&self) -> (read: Option<StreamLine>)
        ensures
            match read {
                Some(read) => line_read(self@) == Some(read@),
                None => line_read(self@) is None,
            },
    {
        read_line(self.line_buf.as_str())
    }
}

// ---------------------------------------------------------------------------
// How a reply is cut into chunks makes no difference
// ---------------------------------------------------------------------------

/// The texts of `chunks` one after the other.
pub open spec fn concatenated(chunks: Seq<Seq<char>>) -> Seq<char>
    decreases chunks.len(),
{
    if chunks.len() == 0 {
        Seq::empty()
    } else {
        concatenated(chunks.drop_last()) + chunks.last()
    }
}

/// The bytes of `chunks` one after the other.
pub open spec fn concatenated_bytes(chunks: Seq<Seq<u8>>) -> Seq<u8>
    decreases chunks.len(),
{
    if chunks.len() == 0 {
        Seq::empty()
    } else {
        concatenated_bytes(chunks.drop_last()) + chunks.last()
    }
}

/// What a decoder has handed out and what it still holds.
#[verifier::ext_equal]
pub struct DecodedView {
    pub read: Seq<StreamLineView>,
    pub rest: Seq<char>,
}

/// What a new decoder has handed out, and what it holds, after it took in `chunks` one by one.
pub open spec fn decoded(chunks: Seq<Seq<char>>) -> DecodedView
    decreases chunks.len(),
{
    if chunks.len() == 0 {
        DecodedView { read: Seq::empty(), rest: Seq::empty() }
    } else {
        let before = decoded(chunks.drop_last());
        let now = cut(before.rest + chunks.last());
        DecodedView { read: before.read + lines_read(now.lines), rest: now.rest }
    }
}

/// The text of each chunk.
pub open spec fn chunk_texts(chunks: Seq<Seq<u8>>) -> Seq<Seq<char>> {
    chunks.map_values(|c: Seq<u8>| decode_utf8(c))
}

/// What follows the last line end holds no line end.
proof fn lemma_cut_rest(text: Seq<char>)
    ensures
        !cut(text).rest.contains('\n'),
    decreases text.len(),
{
    if text.len() > 0 {
        let before = cut(text.drop_last()).rest;
        let rest = cut(text).rest;
        lemma_cut_rest(text.drop_last());
        if text.last() != '\n' {
            assert forall|i: int| 0 <= i < rest.len() implies #[trigger] rest[i] != '\n' by {
                if i < before.len() {
                    assert(rest[i] == before[i]);
                    assert(before.contains(before[i]));
                }
            }
        }
    }
}

/// A text without a line end is not cut.
proof fn lemma_cut_within_line(text: Seq<char>)
    requires
        !text.contains('\n'),
    ensures
        cut(text) == (LinesView { lines: Seq::empty(), rest: text }),
    decreases text.len(),
{
    if text.len() > 0 {
        let before = text.drop_last();
        assert(text.contains(text[text.len() - 1]));
        assert forall|i: int| 0 <= i < before.len() implies #[trigger] before[i] != '\n' by {
            assert(text.contains(text[i]));
        }
        lemma_cut_within_line(before);
        assert(before.push(text.last()) =~= text);
    }
}

/// A text in two parts is cut like the first part, and then like what is left of it followed by
/// the second.
proof fn lemma_cut_concat(first: Seq<char>, second: Seq<char>)
    ensures
        ({
            let before = cut(first);
            let now = cut(before.rest + second);
            cut(first + second) == LinesView { lines: before.lines + now.lines, rest: now.rest }
        }),
    decreases second.len(),
{
    let before = cut(first);
    let all = first + second;
    if second.len() == 0 {
        lemma_cut_rest(first);
        lemma_cut_within_line(before.rest);
        assert(all =~= first);
        assert(before.rest + second =~= before.rest);
        assert(before.lines + Seq::empty() =~= before.lines);
    } else {
        lemma_cut_concat(first, second.drop_last());
        assert(all.drop_last() =~= first + second.drop_last());
        assert(all.last() == second.last());
        let open = before.rest + second;
        assert(open.drop_last() =~= before.rest + second.drop_last());
        assert(open.last() == second.last());
        let inner = cut(open.drop_last());
        assert(before.lines + inner.lines.push(inner.rest) =~= (before.lines + inner.lines).push(
            inner.rest,
        ));
    }
}

/// The lines of two parts are read one part after the other.
proof fn lemma_lines_read_concat(first: Seq<Seq<char>>, second: Seq<Seq<char>>)
    ensures
        lines_read(first + second) == lines_read(first) + lines_read(second),
    decreases second.len(),
{
    let all = first + second;
    if second.len() == 0 {
        assert(all =~= first);
        assert(lines_read(all) =~= lines_read(first) + Seq::empty());
    } else {
        lemma_lines_read_concat(first, second.drop_last());
        assert(all.drop_last() =~= first + second.drop_last());
        assert(all.last() == second.last());
        assert(lines_read(all) =~= lines_read(first) + lines_read(second));
    }
}

/// Text that is taken in in two steps is read like the same text in one step.
pub proof fn steps_can_be_joined(held: Seq<char>, first: Seq<char>, second: Seq<char>)
    ensures
        ({
            let before = cut(held + first);
            let now = cut(before.rest + second);
            let joined = cut(held + (first + second));
            &&& lines_read(before.lines) + lines_read(now.lines) == lines_read(joined.lines)
            &&& now.rest == joined.rest
        }),
{
    let before = cut(held + first);
    let now = cut(before.rest + second);
    lemma_cut_concat(held + first, second);
    lemma_lines_read_concat(before.lines, now.lines);
    assert(held + (first + second) =~= (held + first) + second);
}

/// What is read of a reply is what is read of its lines, and does not depend on how it came in
/// chunks.
pub proof fn chunks_make_no_difference(chunks: Seq<Seq<char>>)
    ensures
        decoded(chunks) == (DecodedView {
            read: lines_read(cut(concatenated(chunks)).lines),
            rest: cut(concatenated(chunks)).rest,
        }),
    decreases chunks.len(),
{
    if chunks.len() > 0 {
        let before = concatenated(chunks.drop_last());
        chunks_make_no_difference(chunks.drop_last());
        lemma_cut_concat(before, chunks.last());
        lemma_lines_read_concat(cut(before).lines, cut(cut(before).rest + chunks.last()).lines);
    }
}

/// UTF-8 in two parts, each of them UTF-8, is the text of the first followed by that of the
/// second.
proof fn lemma_decode_concat(first: Seq<u8>, second: Seq<u8>)
    requires
        valid_utf8(first),
        valid_utf8(second),
    ensures
        valid_utf8(first + second),
        decode_utf8(first + second) == decode_utf8(first) + decode_utf8(second),
    decreases first.len(),
{
    let all = first + second;
    if first.len() == 0 {
        assert(all =~= second);
        assert(decode_utf8(first) + decode_utf8(second) =~= decode_utf8(second));
    } else {
        let rest = pop_first_scalar(first);
        lemma_decode_concat(rest, second);
        assert(pop_first_scalar(all) =~= rest + second);
        assert(decode_utf8(all) =~= decode_utf8(first) + decode_utf8(second));
    }
}

/// A reply whose chunks each are UTF-8 is read like the whole reply.
pub proof fn byte_chunks_make_no_difference(chunks: Seq<Seq<u8>>)
    requires
        forall|i: int| 0 <= i < chunks.len() ==> valid_utf8(#[trigger] chunks[i]),
    ensures
        ({
            let reply = concatenated_bytes(chunks);
            &&& valid_utf8(reply)
            &&& decoded(chunk_texts(chunks)) == DecodedView {
                read: lines_read(cut(decode_utf8(reply)).lines),
                rest: cut(decode_utf8(reply)).rest,
            }
        }),
{
    lemma_concatenated_bytes(chunks);
    chunks_make_no_difference(chunk_texts(chunks));
}

/// The text of chunks that each are UTF-8 is the texts of the chunks one after the other.
proof fn lemma_concatenated_bytes(chunks: Seq<Seq<u8>>)
    requires
        forall|i: int| 0 <= i < chunks.len() ==> valid_utf8(#[trigger] chunks[i]),
    ensures
        valid_utf8(concatenated_bytes(chunks)),
        decode_utf8(concatenated_bytes(chunks)) == concatenated(chunk_texts(chunks)),
    decreases chunks.len(),
{
    if chunks.len() > 0 {
        let rest = chunks.drop_last();
        lemma_concatenated_bytes(rest);
        assert(valid_utf8(chunks[chunks.len() - 1]));
        lemma_decode_concat(concatenated_bytes(rest), chunks.last());
        assert(chunk_texts(chunks).drop_last() =~= chunk_texts(rest));
    }
}

// ---------------------------------------------------------------------------
// Both forms of a line say the same
// ---------------------------------------------------------------------------

/// White space around a line makes no difference, a carriage return before the line end for one.
pub proof fn white_space_around_a_line_is_skipped(
    before: Seq<char>,
    line: Seq<char>,
    after: Seq<char>,
)
    requires
        all_white_space(before),
        all_white_space(after),
    ensures
        payload(before + line + after) == payload(line),
{
    white_space_around_is_trimmed(before, line, after);
}

/// A text with a prefix that neither begins nor ends in white space keeps the prefix when it is
/// trimmed.
proof fn lemma_trimmed_after_prefix(prefix: Seq<char>, text: Seq<char>)
    requires
        prefix.len() > 0,
        !is_white_space(prefix[0]),
        !is_white_space(prefix.last()),
    ensures
        stripped(trimmed(prefix + text), prefix) is Some,
        trimmed(stripped(trimmed(prefix + text), prefix)->0) == trimmed(text),
{
    let all = prefix + text;
    let n = prefix.len() as int;
    let end = if all_white_space(text) {
        n
    } else {
        n + lemma_trimmed_bounds(text).1
    };
    assert forall|i: int| 0 <= i < all.skip(end).len() implies is_white_space(
        #[trigger] all.skip(end)[i],
    ) by {
        assert(all.skip(end)[i] == text[end + i - n]);
        if end > n {
            let tail = text.skip(end - n);
            assert(tail[i] == text[end + i - n]);
        }
    }
    lemma_trimmed(all, 0, end);
    let line = trimmed(all);
    assert(line =~= all.take(end));
    assert(prefix.is_prefix_of(line));
    let inner = line.skip(n);
    let tail = all.skip(end);
    assert(Seq::<char>::empty() + inner + tail =~= text);
    white_space_around_is_trimmed(Seq::empty(), inner, tail);
}

/// A line says the same bare and after a `data:` prefix.
///
/// This is of lines that say something and do not begin with the prefix themselves: a blank line
/// is skipped without the prefix and not with it, and of two prefixes only one is taken away.
pub proof fn data_prefix_makes_no_difference(line: Seq<char>)
    requires
        trimmed(line).len() > 0,
        stripped(trimmed(line), "data:"@) is None,
    ensures
        payload("data:"@ + line) == payload(line),
{
    reveal_strlit("data:");
    lemma_trimmed_after_prefix("data:"@, line);
}

/// Lines are read alike whether each of them is bare or after a `data:` prefix.
pub proof fn both_forms_say_the_same(lines: Seq<Seq<char>>, framed: Seq<Seq<char>>)
    requires
        lines.len() == framed.len(),
        forall|i: int|
            0 <= i < lines.len() ==> {
                ||| #[trigger] framed[i] == lines[i]
                ||| {
                    &&& framed[i] == "data:"@ + lines[i]
                    &&& trimmed(lines[i]).len() > 0
                    &&& stripped(trimmed(lines[i]), "data:"@) is None
                }
            },
    ensures
        lines_read(framed) == lines_read(lines),
    decreases lines.len(),
{
    if lines.len() > 0 {
        let last = lines.len() - 1;
        both_forms_say_the_same(lines.drop_last(), framed.drop_last());
        if framed[last] != lines[last] {
            data_prefix_makes_no_difference(lines[last]);
        }
    }
}

/// A line that names an event is skipped.
pub proof fn event_lines_are_skipped(name: Seq<char>)
    ensures
        payload("event:"@ + name) is None,
{
    reveal_strlit("event:");
    reveal_strlit("data:");
    lemma_trimmed_after_prefix("event:"@, name);
    let line = trimmed("event:"@ + name);
    assert(line[0] == "event:"@[0]);
    assert(stripped(line, "data:"@) is None);
}

} // verus!

//! Reading a streamed reply from its first chunk to its end.
//!
//! A reply is over when its transfer ends, when the transfer fails, or when a chunk is not UTF-8.
//! Nothing comes after that: a failure is the last thing that is heard of a reply.

use crate::error::AgentexError;
use crate::error::AgentexErrorView;
use crate::stream::byte_chunks_make_no_difference;
use crate::stream::chunk_texts;
use crate::stream::concatenated_bytes;
use crate::stream::cut;
use crate::stream::decoded;
use crate::stream::line_read;
use crate::stream::line_views;
use crate::stream::lines_read;
use crate::stream::utf8_error_text;
use crate::stream::StreamDecoder;
use crate::stream::StreamLine;
use crate::stream::StreamLineView;
use vstd::prelude::*;
use vstd::utf8::decode_utf8;
use vstd::utf8::valid_utf8;

verus! {

// ---------------------------------------------------------------------------
// What happens to a reply
// ---------------------------------------------------------------------------

/// What happens to a reply on its way, with `E` for the errors of the transfer.
#[derive(Debug)]
pub enum ChunkEvent<'a, E> {
    /// A chunk has come in.
    Chunk(&'a [u8]),
    /// The transfer has failed.
    Failed(E),
    /// The transfer has ended.
    End,
}

/// What a `ChunkEvent` says.
pub enum ChunkEventView<E> {
    Chunk(Seq<u8>),
    Failed(E),
    End,
}

impl<'a, E> View for ChunkEvent<'a, E> {
    type V = ChunkEventView<E>;

    open spec fn view(&self) -> ChunkEventView<E> {
        match *self {
            ChunkEvent::Chunk(chunk) => ChunkEventView::Chunk(chunk@),
            ChunkEvent::Failed(error) => ChunkEventView::Failed(error),
            ChunkEvent::End => ChunkEventView::End,
        }
    }
}

/// Why a reply breaks off.
#[derive(Debug)]
pub enum ReadError<E> {
    /// The transfer has failed.
    Transfer(E),
    /// What has come in is no reply.
    Reply(AgentexError),
}

/// What a `ReadError` says.
pub enum ReadErrorView<E> {
    Transfer(E),
    Reply(AgentexErrorView),
}

impl<E> View for ReadError<E> {
    type V = ReadErrorView<E>;

    open spec fn view(&self) -> ReadErrorView<E> {
        match *self {
            ReadError::Transfer(error) => ReadErrorView::Transfer(error),
            ReadError::Reply(error) => ReadErrorView::Reply(error@),
        }
    }
}

/// What is read at once: lines, and then the error with which the reply breaks off, where it
/// does.
#[derive(Debug)]
pub struct Reading<E> {
    pub lines: Vec<StreamLine>,
    pub error: Option<ReadError<E>>,
}

/// What a `Reading` says.
#[verifier::ext_equal]
pub struct ReadingView<E> {
    pub lines: Seq<StreamLineView>,
    pub error: Option<ReadErrorView<E>>,
}

impl<E> View for Reading<E> {
    type V = ReadingView<E>;

    open spec fn view(&self) -> ReadingView<E> {
        ReadingView {
            lines: line_views(self.lines@),
            error: match self.error {
                Some(error) => Some(error@),
                None => None,
            },
        }
    }
}

/// How far a reply has been read: the line that has not ended yet, and whether the reply is over.
#[verifier::ext_equal]
pub struct ReaderView {
    pub held: Seq<char>,
    pub over: bool,
}

impl ReaderView {
    /// Nothing has come in.
    pub open spec fn fresh() -> ReaderView {
        ReaderView { held: Seq::empty(), over: false }
    }

    /// The reply is over, and nothing is left of it.
    pub open spec fn ended() -> ReaderView {
        ReaderView { held: Seq::empty(), over: true }
    }
}

/// What an event leads to: what is read, and how far the reply has been read then.
#[verifier::ext_equal]
pub struct ReadStep<E> {
    pub reading: ReadingView<E>,
    pub reader: ReaderView,
}

/// The error with which a reply breaks off at `event`, where it does: the error of the transfer,
/// or that of a chunk that is not UTF-8.
pub open spec fn break_off<E>(event: ChunkEventView<E>) -> Option<ReadErrorView<E>> {
    match event {
        ChunkEventView::Chunk(chunk) => if valid_utf8(chunk) {
            None
        } else {
            Some(
                ReadErrorView::Reply(
                    AgentexErrorView::Parse("invalid UTF-8: "@ + utf8_error_text(chunk)),
                ),
            )
        },
        ChunkEventView::Failed(error) => Some(ReadErrorView::Transfer(error)),
        ChunkEventView::End => None,
    }
}

/// What is read of the last line of a reply, which no line end follows.
pub open spec fn last_lines(held: Seq<char>) -> Seq<StreamLineView> {
    match line_read(held) {
        Some(line) => seq![line],
        None => Seq::empty(),
    }
}

/// What an event leads to. Once the reply is over, nothing does any more. The line that has not
/// ended is read only where the transfer ends.
pub open spec fn read_step<E>(reader: ReaderView, event: ChunkEventView<E>) -> ReadStep<E> {
    if reader.over {
        ReadStep { reading: ReadingView { lines: Seq::empty(), error: None }, reader }
    } else if break_off(event) is Some {
        ReadStep {
            reading: ReadingView { lines: Seq::empty(), error: break_off(event) },
            reader: ReaderView::ended(),
        }
    } else {
        match event {
            ChunkEventView::Chunk(chunk) => {
                let now = cut(reader.held + decode_utf8(chunk));
                ReadStep {
                    reading: ReadingView { lines: lines_read(now.lines), error: None },
                    reader: ReaderView { held: now.rest, over: false },
                }
            },
            _ => ReadStep {
                reading: ReadingView { lines: last_lines(reader.held), error: None },
                reader: ReaderView::ended(),
            },
        }
    }
}

// ---------------------------------------------------------------------------
// The reader
// ---------------------------------------------------------------------------

/// Reads a streamed reply, event by event.
#[derive(Debug, Clone)]
pub struct StreamReader {
    decoder: StreamDecoder,
    over: bool,
}

impl View for StreamReader {
    type V = ReaderView;

    closed spec fn view(&self) -> ReaderView {
        ReaderView { held: self.decoder@, over: self.over }
    }
}

impl Default for StreamReader {
    fn default() -> (r: Self)
        ensures
            r@ == ReaderView::fresh(),
    {
        StreamReader::new()
    }
}

impl StreamReader {
    /// Nothing has come in.
    pub fn new() -> (r: Self)
        ensures
            r@ == ReaderView::fresh(),
    {
        StreamReader { decoder: StreamDecoder::new(), over: false }
    }

    /// Whether the reply is over.
    pub fn is_over(&self) -> (over: bool)
        ensures
            over == self@.over,
    {
        self.over
    }

    /// The reply is over, and nothing is left of it.
    fn end(&mut self)
        ensures
            final(self)@ == ReaderView::ended(),
    {
        self.decoder = StreamDecoder::new();
        self.over = true;
    }

    /// Takes in what happens next to the reply and hands out what is read then.
    pub fn next<E>(&mut self, event: ChunkEvent<'_, E>) -> (reading: Reading<E>)
        ensures
            reading@ == read_step(old(self)@, event@).reading,
            final(self)@ == read_step(old(self)@, event@).reader,
    {
        let mut lines: Vec<StreamLine> = Vec::new();
        let mut error: Option<ReadError<E>> = None;
        assert(line_views(lines@) =~= Seq::empty());
        if !self.over {
            match event {
                ChunkEvent::Chunk(chunk) => match self.decoder.push_chunk(chunk) {
                    Ok(read) => {
                        lines = read;
                    },
                    Err(e) => {
                        self.end();
                        error = Some(ReadError::Reply(e));
                    },
                },
                ChunkEvent::Failed(e) => {
                    self.end();
                    error = Some(ReadError::Transfer(e));
                },
                ChunkEvent::End => {
                    match self.decoder.last_line() {
                        Some(line) => {
                            lines.push(line);
                            assert(line_views(lines@) =~= seq![line@]);
                        },
                        None => {},
                    }
                    self.end();
                },
            }
        }
        Reading { lines, error }
    }
}

// ---------------------------------------------------------------------------
// A reply from its first chunk on
// ---------------------------------------------------------------------------

/// One thing that is heard of a reply.
pub enum Heard<E> {
    Line(StreamLineView),
    Error(ReadErrorView<E>),
}

/// Lines that are heard of a reply.
pub open spec fn heard_lines<E>(lines: Seq<StreamLineView>) -> Seq<Heard<E>> {
    lines.map_values(|l: StreamLineView| Heard::<E>::Line(l))
}

/// What is heard of a reply at once: the lines, and the error after them.
pub open spec fn heard_at_once<E>(reading: ReadingView<E>) -> Seq<Heard<E>> {
    match reading.error {
        Some(error) => heard_lines::<E>(reading.lines).push(Heard::Error(error)),
        None => heard_lines::<E>(reading.lines),
    }
}

/// How far a reply has been read after `events`.
pub open spec fn reader_after<E>(reader: ReaderView, events: Seq<ChunkEventView<E>>) -> ReaderView
    decreases events.len(),
{
    if events.len() == 0 {
        reader
    } else {
        read_step(reader_after(reader, events.drop_last()), events.last()).reader
    }
}

/// What is heard of a reply in the course of `events`.
pub open spec fn heard<E>(reader: ReaderView, events: Seq<ChunkEventView<E>>) -> Seq<Heard<E>>
    decreases events.len(),
{
    if events.len() == 0 {
        Seq::empty()
    } else {
        let before = events.drop_last();
        heard(reader, before) + heard_at_once(
            read_step(reader_after(reader, before), events.last()).reading,
        )
    }
}

/// The chunks of a reply as they come in.
pub open spec fn chunk_events<E>(chunks: Seq<Seq<u8>>) -> Seq<ChunkEventView<E>> {
    chunks.map_values(|c: Seq<u8>| ChunkEventView::<E>::Chunk(c))
}

/// Once a reply is over, it stays over and nothing more is heard of it, whatever happens.
pub proof fn nothing_comes_after_the_end<E>(reader: ReaderView, events: Seq<ChunkEventView<E>>)
    requires
        reader.over,
    ensures
        reader_after(reader, events) == reader,
        heard(reader, events) == Seq::<Heard<E>>::empty(),
    decreases events.len(),
{
    if events.len() > 0 {
        nothing_comes_after_the_end(reader, events.drop_last());
        assert(heard(reader, events) =~= Seq::<Heard<E>>::empty());
    }
}

/// A reply ends with an error or the end of its transfer, and no sooner.
pub proof fn reply_is_over_at_an_error_or_the_end<E>(
    reader: ReaderView,
    events: Seq<ChunkEventView<E>>,
)
    ensures
        reader_after(reader, events).over <==> {
            ||| reader.over
            ||| exists|i: int|
                0 <= i < events.len() && (break_off(#[trigger] events[i]) is Some
                    || events[i] is End)
        },
    decreases events.len(),
{
    if events.len() > 0 {
        let before = events.drop_last();
        let last = events.len() - 1;
        reply_is_over_at_an_error_or_the_end(reader, before);
        if exists|i: int|
            0 <= i < before.len() && (break_off(#[trigger] before[i]) is Some || before[i] is End) {
            let i = choose|i: int|
                0 <= i < before.len() && (break_off(#[trigger] before[i]) is Some
                    || before[i] is End);
            assert(events[i] == before[i]);
        }
        assert(events[last] == events.last());
        if exists|i: int|
            0 <= i < events.len() && (break_off(#[trigger] events[i]) is Some || events[i] is End) {
            let i = choose|i: int|
                0 <= i < events.len() && (break_off(#[trigger] events[i]) is Some
                    || events[i] is End);
            if i < last {
                assert(before[i] == events[i]);
            }
        }
    }
}

/// At most one error is heard of a reply, and it is the last thing that is heard.
pub proof fn error_comes_last<E>(reader: ReaderView, events: Seq<ChunkEventView<E>>)
    ensures
        forall|i: int|
            0 <= i < heard(reader, events).len() && (#[trigger] heard(reader, events)[i]) is Error
                ==> i == heard(reader, events).len() - 1 && reader_after(reader, events).over,
    decreases events.len(),
{
    if events.len() > 0 {
        let before = events.drop_last();
        let all = heard(reader, events);
        let earlier = heard(reader, before);
        let state = reader_after(reader, before);
        let now = heard_at_once(read_step(state, events.last()).reading);
        error_comes_last(reader, before);
        assert forall|i: int| 0 <= i < all.len() && (#[trigger] all[i]) is Error implies i
            == all.len() - 1 && reader_after(reader, events).over by {
            if i < earlier.len() {
                assert(earlier[i] is Error);
                assert(now.len() == 0);
            } else {
                assert(all[i] == now[i - earlier.len()]);
            }
        }
    }
}

/// What happens to a reply in two parts is heard one part after the other.
proof fn lemma_heard_concat<E>(
    reader: ReaderView,
    first: Seq<ChunkEventView<E>>,
    second: Seq<ChunkEventView<E>>,
)
    ensures
        reader_after(reader, first + second) == reader_after(reader_after(reader, first), second),
        heard(reader, first + second) == heard(reader, first) + heard(
            reader_after(reader, first),
            second,
        ),
    decreases second.len(),
{
    let all = first + second;
    if second.len() == 0 {
        assert(all =~= first);
        assert(heard(reader, all) =~= heard(reader, first) + Seq::empty());
    } else {
        assert(all.drop_last() =~= first + second.drop_last());
        assert(all.last() == second.last());
        lemma_heard_concat(reader, first, second.drop_last());
        assert(heard(reader, all) =~= heard(reader, first) + heard(
            reader_after(reader, first),
            second,
        ));
    }
}

/// Chunks that each are UTF-8 are read like a decoder reads them.
proof fn lemma_chunks_are_decoded<E>(chunks: Seq<Seq<u8>>)
    requires
        forall|i: int| 0 <= i < chunks.len() ==> valid_utf8(#[trigger] chunks[i]),
    ensures
        ({
            let end = decoded(chunk_texts(chunks));
            let events = chunk_events::<E>(chunks);
            &&& reader_after(ReaderView::fresh(), events) == ReaderView {
                held: end.rest,
                over: false,
            }
            &&& heard(ReaderView::fresh(), events) == heard_lines::<E>(end.read)
        }),
    decreases chunks.len(),
{
    let events = chunk_events::<E>(chunks);
    let end = decoded(chunk_texts(chunks));
    if chunks.len() == 0 {
        assert(heard_lines::<E>(end.read) =~= Seq::empty());
    } else {
        let rest = chunks.drop_last();
        lemma_chunks_are_decoded::<E>(rest);
        assert(valid_utf8(chunks[chunks.len() - 1]));
        assert(events.drop_last() =~= chunk_events::<E>(rest));
        assert(events.last() == ChunkEventView::<E>::Chunk(chunks.last()));
        assert(chunk_texts(chunks).drop_last() =~= chunk_texts(rest));
        assert(chunk_texts(chunks).last() == decode_utf8(chunks.last()));
        assert(heard(ReaderView::fresh(), events) =~= heard_lines::<E>(end.read));
    }
}

/// A reply that breaks off, at a chunk that is not UTF-8 or at a failure of the transfer, is
/// heard up to there: the lines that ended in the chunks before, then the error, and nothing
/// else. The line that had not ended is lost, and so is all that would have come later.
pub proof fn broken_reply_is_heard_up_to_the_error<E>(
    chunks: Seq<Seq<u8>>,
    bad: ChunkEventView<E>,
    later: Seq<ChunkEventView<E>>,
)
    requires
        forall|i: int| 0 <= i < chunks.len() ==> valid_utf8(#[trigger] chunks[i]),
        break_off(bad) is Some,
    ensures
        ({
            let events = chunk_events::<E>(chunks).push(bad) + later;
            let text = decode_utf8(concatenated_bytes(chunks));
            &&& heard(ReaderView::fresh(), events) == heard_lines::<E>(
                lines_read(cut(text).lines),
            ).push(Heard::Error(break_off(bad)->0))
            &&& reader_after(ReaderView::fresh(), events) == ReaderView::ended()
        }),
{
    let good = chunk_events::<E>(chunks);
    let until = good.push(bad);
    let fresh = ReaderView::fresh();
    lemma_chunks_are_decoded::<E>(chunks);
    byte_chunks_make_no_difference(chunks);
    assert(until.drop_last() =~= good);
    lemma_heard_concat(fresh, until, later);
    nothing_comes_after_the_end(ReaderView::ended(), later);
    let lines = heard_lines::<E>(
        lines_read(cut(decode_utf8(concatenated_bytes(chunks))).lines),
    );
    assert(heard_at_once(read_step(reader_after(fresh, good), bad).reading) =~= seq![
        Heard::Error(break_off(bad)->0),
    ]);
    assert(heard(fresh, until + later) =~= lines.push(Heard::Error(break_off(bad)->0)));
}

/// A reply that comes to its end is heard in full: its lines, the last of them also where no line
/// end follows it, and no error.
pub proof fn whole_reply_is_heard<E>(chunks: Seq<Seq<u8>>, later: Seq<ChunkEventView<E>>)
    requires
        forall|i: int| 0 <= i < chunks.len() ==> valid_utf8(#[trigger] chunks[i]),
    ensures
        ({
            let events = chunk_events::<E>(chunks).push(ChunkEventView::End) + later;
            let reply = cut(decode_utf8(concatenated_bytes(chunks)));
            &&& heard(ReaderView::fresh(), events) == heard_lines::<E>(
                lines_read(reply.lines) + last_lines(reply.rest),
            )
            &&& reader_after(ReaderView::fresh(), events) == ReaderView::ended()
        }),
{
    let good = chunk_events::<E>(chunks);
    let end = ChunkEventView::<E>::End;
    let until = good.push(end);
    let fresh = ReaderView::fresh();
    lemma_chunks_are_decoded::<E>(chunks);
    byte_chunks_make_no_difference(chunks);
    assert(until.drop_last() =~= good);
    lemma_heard_concat(fresh, until, later);
    nothing_comes_after_the_end(ReaderView::ended(), later);
    let reply = cut(decode_utf8(concatenated_bytes(chunks)));
    assert(heard(fresh, until + later) =~= heard_lines::<E>(
        lines_read(reply.lines) + last_lines(reply.rest),
    ));
}

} // verus!

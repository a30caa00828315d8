use sgp_proxy::error::AgentexError;
use sgp_proxy::json::Json;
use sgp_proxy::stream_reader::ChunkEvent;
use sgp_proxy::stream_reader::ReadError;
use sgp_proxy::stream_reader::StreamReader;

/// What is heard of a reply: values as JSON text, lines without one in brackets, and errors.
fn hear(events: Vec<ChunkEvent<'_, &str>>) -> Vec<String> {
    let mut reader = StreamReader::new();
    let mut heard = Vec::new();
    for event in events {
        let reading = reader.next(event);
        for line in reading.lines {
            heard.push(match line.value {
                Some(value) => value.render().unwrap(),
                None => format!("<{}>", line.payload),
            });
        }
        match reading.error {
            Some(ReadError::Transfer(error)) => heard.push(format!("transfer: {error}")),
            Some(ReadError::Reply(AgentexError::Parse(message))) => heard.push(message),
            Some(ReadError::Reply(_)) => panic!("expected a parse error"),
            None => {}
        }
    }
    heard
}

fn chunk(text: &str) -> ChunkEvent<'_, &str> {
    ChunkEvent::Chunk(text.as_bytes())
}

const NOT_UTF8: &str = "invalid UTF-8: invalid utf-8 sequence of 1 bytes from index 1";

#[test]
fn whole_reply_is_heard_to_its_end() {
    assert_eq!(
        hear(vec![chunk("1\ndata: [2"), chunk("]\noops\n"), chunk("3"), ChunkEvent::End]),
        ["1", "[2]", "<oops>", "3"]
    );
    assert_eq!(hear(vec![chunk("1\n \n"), ChunkEvent::End]), ["1"]);
    assert_eq!(hear(vec![chunk("event: end"), ChunkEvent::End]), Vec::<String>::new());
    assert_eq!(hear(vec![ChunkEvent::End]), Vec::<String>::new());
}

#[test]
fn unfinished_line_waits_for_the_end() {
    assert_eq!(hear(vec![chunk("1\n2")]), ["1"]);
    assert_eq!(hear(vec![chunk("1\n2"), ChunkEvent::End]), ["1", "2"]);
}

#[test]
fn reply_breaks_off_at_a_chunk_that_is_not_utf8() {
    assert_eq!(
        hear(vec![
            chunk("1\n"),
            chunk("2\n3"),
            ChunkEvent::Chunk(&[b'4', 0xff, b'\n']),
            chunk("\n5\n"),
            ChunkEvent::Failed("late"),
            ChunkEvent::Chunk(&[0xff]),
            ChunkEvent::End,
        ]),
        ["1", "2", NOT_UTF8]
    );
}

#[test]
fn reply_breaks_off_at_a_character_cut_in_two() {
    let text = "\"\u{e9}\"\n".as_bytes();
    assert_eq!(
        hear(vec![
            ChunkEvent::Chunk(&text[..2]),
            ChunkEvent::Chunk(&text[2..]),
            ChunkEvent::End,
        ]),
        ["invalid UTF-8: incomplete utf-8 byte sequence from index 1"]
    );
}

#[test]
fn reply_breaks_off_where_the_transfer_fails() {
    assert_eq!(
        hear(vec![
            chunk("1\n2"),
            ChunkEvent::Failed("reset"),
            chunk("\n3\n"),
            ChunkEvent::Failed("again"),
            ChunkEvent::End,
        ]),
        ["1", "transfer: reset"]
    );
}

#[test]
fn nothing_comes_after_the_end() {
    assert_eq!(
        hear(vec![chunk("1"), ChunkEvent::End, chunk("2\n"), ChunkEvent::End]),
        ["1"]
    );
    let mut reader = StreamReader::default();
    assert!(!reader.is_over());
    reader.next::<&str>(ChunkEvent::Chunk(b"1\n"));
    assert!(!reader.is_over());
    let reading = reader.next::<&str>(ChunkEvent::End);
    assert!(reading.lines.is_empty() && reading.error.is_none());
    assert!(reader.is_over());
}

#[test]
fn lines_come_with_their_values() {
    let mut reader = StreamReader::new();
    let reading = reader.next::<&str>(ChunkEvent::Chunk(b"data: {\"result\":true}\n"));
    assert_eq!(reading.lines.len(), 1);
    assert_eq!(reading.lines[0].payload, "{\"result\":true}");
    assert_eq!(reading.lines[0].value, Some(Json::Bool(true)));
}

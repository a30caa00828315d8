use sgp_proxy::error::AgentexError;
use sgp_proxy::json::Json;
use sgp_proxy::stream::invalid_chunk;
use sgp_proxy::stream::line_payload;
use sgp_proxy::stream::parsed_value;
use sgp_proxy::stream::read_line;
use sgp_proxy::stream::unwrap_envelope;
use sgp_proxy::stream::StreamDecoder;
use sgp_proxy::stream::StreamLine;

fn parse(text: &str) -> Json {
    Json::parse(text).unwrap()
}

/// The values of the lines that have one.
fn found(lines: Vec<StreamLine>) -> Vec<Json> {
    lines.into_iter().filter_map(|line| line.value).collect()
}

/// The value of a line.
fn value_of(line: &str) -> Option<Json> {
    read_line(line).and_then(|read| read.value)
}

/// The values of a reply that comes in the given chunks.
fn decode(chunks: &[&str]) -> Vec<Json> {
    let mut decoder = StreamDecoder::new();
    let mut values = Vec::new();
    for chunk in chunks {
        values.extend(found(decoder.push_text(chunk)));
    }
    values.extend(decoder.last_line().and_then(|line| line.value));
    values
}

#[test]
fn bare_lines_are_values() {
    assert_eq!(decode(&["{\"a\":1}\n{\"b\":2}\n"]), vec![parse("{\"a\":1}"), parse("{\"b\":2}")]);
}

#[test]
fn data_lines_are_values() {
    assert_eq!(
        decode(&["event: update\ndata: {\"a\":1}\n\ndata:{\"b\":2}\n\n"]),
        vec![parse("{\"a\":1}"), parse("{\"b\":2}")]
    );
}

#[test]
fn both_forms_of_a_line_say_the_same() {
    let bare = "{\"a\":1}\n[2]\ntrue\n";
    let framed = "data:{\"a\":1}\ndata: [2]\n data:  true \r\n";
    assert_eq!(decode(&[bare]), decode(&[framed]));
}

#[test]
fn last_line_needs_no_line_end() {
    assert_eq!(decode(&["1\n2"]), vec![parse("1"), parse("2")]);
    assert_eq!(decode(&["1\ndata: 2 "]), vec![parse("1"), parse("2")]);
    assert_eq!(decode(&["1\n  \t"]), vec![parse("1")]);
    assert_eq!(decode(&["1\nevent: end"]), vec![parse("1")]);
    assert_eq!(decode(&[]), vec![]);
}

#[test]
fn chunks_make_no_difference() {
    let reply = "data: {\"t\":\"h\u{e9}llo\"}\n\n{\"result\":[1,2]}\r\nevent: x\n\"end\"";
    let whole = decode(&[reply]);
    assert_eq!(
        whole,
        vec![parse("{\"t\":\"h\u{e9}llo\"}"), parse("[1,2]"), parse("\"end\"")]
    );
    for (i, _) in reply.char_indices() {
        assert_eq!(decode(&[&reply[..i], &reply[i..]]), whole);
    }
    let letters: Vec<String> = reply.chars().map(String::from).collect();
    let letters: Vec<&str> = letters.iter().map(String::as_str).collect();
    assert_eq!(decode(&letters), whole);
}

#[test]
fn byte_chunks_make_no_difference() {
    let reply = "{\"t\":\"h\u{e9}llo\"}\n[1]\n";
    for (i, _) in reply.char_indices() {
        let mut decoder = StreamDecoder::default();
        let mut lines = decoder.push_chunk(&reply.as_bytes()[..i]).unwrap();
        lines.extend(decoder.push_chunk(&reply.as_bytes()[i..]).unwrap());
        assert_eq!(found(lines), vec![parse("{\"t\":\"h\u{e9}llo\"}"), parse("[1]")]);
    }
}

#[test]
fn values_come_out_when_their_line_ends() {
    let mut decoder = StreamDecoder::new();
    assert!(decoder.push_text("{\"a\":").is_empty());
    assert!(decoder.push_text("1}").is_empty());
    assert_eq!(found(decoder.push_text("\n2")), vec![parse("{\"a\":1}")]);
    assert_eq!(decoder.last_line().unwrap().value, Some(parse("2")));
}

#[test]
fn chunk_that_is_not_utf8_is_refused() {
    let mut decoder = StreamDecoder::new();
    assert!(decoder.push_chunk(b"{\"a\"").unwrap().is_empty());
    match decoder.push_chunk(&[b'1', 0xff, b'2']) {
        Err(AgentexError::Parse(message)) => assert_eq!(
            message,
            "invalid UTF-8: invalid utf-8 sequence of 1 bytes from index 1"
        ),
        _ => panic!("expected an error"),
    }
    assert_eq!(decoder.last_line().unwrap().payload, "{\"a\"");
}

#[test]
fn character_cut_in_two_is_refused() {
    let mut decoder = StreamDecoder::new();
    match decoder.push_chunk(&"\u{e9}".as_bytes()[..1]) {
        Err(AgentexError::Parse(message)) => assert_eq!(
            message,
            "invalid UTF-8: incomplete utf-8 byte sequence from index 0"
        ),
        _ => panic!("expected an error"),
    }
}

#[test]
fn utf8_errors_are_passed_on() {
    match invalid_chunk("why") {
        AgentexError::Parse(message) => assert_eq!(message, "invalid UTF-8: why"),
        _ => panic!("expected a parse error"),
    }
}

#[test]
fn lines_that_are_not_json_come_without_a_value() {
    let mut decoder = StreamDecoder::new();
    let lines = decoder.push_text("\ndata: {oops \nevent: x\n data: {\"result\":1}\r\n[DONE]\n");
    let line = |payload: &str, value: Option<Json>| StreamLine {
        payload: payload.to_string(),
        value,
    };
    assert_eq!(
        lines,
        vec![
            line("{oops", None),
            line("{\"result\":1}", Some(parse("1"))),
            line("[DONE]", None),
        ]
    );
}

#[test]
fn lines_that_are_not_json_are_skipped() {
    assert_eq!(decode(&["{oops\n1\n: comment\n[DONE]\n2\n"]), vec![parse("1"), parse("2")]);
}

#[test]
fn payload_is_what_is_left_of_a_line() {
    assert_eq!(line_payload(" {} \r"), Some("{}"));
    assert_eq!(line_payload("data: {}"), Some("{}"));
    assert_eq!(line_payload("data:"), Some(""));
    assert_eq!(line_payload("data:data: x"), Some("data: x"));
    assert_eq!(line_payload(" data: x "), Some("x"));
    assert_eq!(line_payload("Data: x"), Some("Data: x"));
    assert_eq!(line_payload(""), None);
    assert_eq!(line_payload(" \t\r"), None);
    assert_eq!(line_payload("event: ping"), None);
    assert_eq!(line_payload("data: event: ping"), None);
}

#[test]
fn envelopes_are_opened_once() {
    assert_eq!(
        value_of("{\"jsonrpc\":\"2.0\",\"id\":\"1\",\"result\":{\"type\":\"done\"}}"),
        Some(parse("{\"type\":\"done\"}"))
    );
    assert_eq!(value_of("{\"type\":\"done\"}"), Some(parse("{\"type\":\"done\"}")));
    assert_eq!(value_of("{\"result\":{\"result\":1}}"), Some(parse("{\"result\":1}")));
    assert_eq!(value_of("{\"result\":null}"), Some(Json::Null));
    assert_eq!(value_of("[1]"), Some(parse("[1]")));
    assert_eq!(value_of("data:"), None);
    assert!(read_line("data:").is_some());
    assert!(read_line("").is_none());
    assert!(read_line("event: x").is_none());
    assert_eq!(unwrap_envelope(parse("{\"result\":true}")), Json::Bool(true));
    assert_eq!(unwrap_envelope(Json::Null), Json::Null);
    assert_eq!(parsed_value(None), None);
    assert_eq!(parsed_value(Some(parse("{\"result\":true}"))), Some(Json::Bool(true)));
}

use responses_chat::sse::{read_block, strip_sse_field, Payload, SseReader};

fn push(reader: &mut SseReader, bytes: &[u8]) -> Vec<String> {
    reader
        .push(bytes)
        .into_iter()
        .map(|p| match p {
            Payload::Done => "done".to_owned(),
            Payload::Chunk(text) => text,
        })
        .collect()
}

#[test]
fn blocks_end_at_blank_lines() {
    let mut reader = SseReader::new();
    assert_eq!(push(&mut reader, b"data: one\n\ndata: two\r\n\r\ndata: [DONE]\n\nrest"), ["one", "two", "done"]);
    assert_eq!(reader.buffer, b"rest");
}

#[test]
fn bytes_in_any_pieces() {
    let text = "event: x\r\ndata: {\"a\":\"h\u{e9}\u{1f600}\"}\r\n\r\n: note\n\ndata:[DONE]\n\n".as_bytes();
    let mut whole = SseReader::new();
    let expected = push(&mut whole, text);
    assert_eq!(expected, ["{\"a\":\"h\u{e9}\u{1f600}\"}", "done"]);
    for cut in 0..=text.len() {
        let mut reader = SseReader::new();
        let mut found = push(&mut reader, &text[..cut]);
        found.extend(push(&mut reader, &text[cut..]));
        assert_eq!(found, expected);
        assert!(reader.buffer.is_empty());
    }
    let mut reader = SseReader::new();
    let mut found = Vec::new();
    for b in text {
        found.extend(push(&mut reader, &[*b]));
    }
    assert_eq!(found, expected);
}

#[test]
fn blocks_without_data() {
    assert!(read_block(b"").is_none());
    assert!(read_block(b"  \r\n ").is_none());
    assert!(read_block(b": comment").is_none());
    assert!(read_block(b"event: data").is_none());
    assert!(read_block(b"database: x").is_none());
}

#[test]
fn first_data_line_counts() {
    match read_block(b"event: e\ndata:  a b \ndata: c") {
        Some(Payload::Chunk(text)) => assert_eq!(text, "a b"),
        _ => panic!("no data"),
    }
    assert!(matches!(read_block(b" data: [DONE] "), Some(Payload::Done)));
}

#[test]
fn bytes_that_are_not_text() {
    match read_block(b"data: a\xffb") {
        Some(Payload::Chunk(text)) => assert_eq!(text, "a\u{fffd}b"),
        _ => panic!("no data"),
    }
}

#[test]
fn fields_of_lines() {
    let field = |line: &str, name: &str| {
        let line: Vec<char> = line.chars().collect();
        let name: Vec<char> = name.chars().collect();
        strip_sse_field(&line, &name).map(|v| v.iter().collect::<String>())
    };
    assert_eq!(field("data: x", "data"), Some("x".to_owned()));
    assert_eq!(field("data:x", "data"), Some("x".to_owned()));
    assert_eq!(field("data:  x", "data"), Some(" x".to_owned()));
    assert_eq!(field("data:", "data"), Some(String::new()));
    assert_eq!(field("data", "data"), None);
    assert_eq!(field("event: x", "data"), None);
}

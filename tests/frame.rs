use unimozer_next::frame::{FrameError, FrameScan, JsonRpcReader, JsonRpcWriter, ReadOutcome};

fn read_all(reader: &mut JsonRpcReader) -> Vec<serde_json::Value> {
    let mut out = Vec::new();
    loop {
        match reader.read_message() {
            ReadOutcome::Message(v) => out.push(v),
            ReadOutcome::Failed(_) => continue,
            ReadOutcome::Pending | ReadOutcome::Closed => return out,
        }
    }
}

#[test]
fn frame_round_trip_reconstructs_the_value() {
    let mut map = serde_json::Map::new();
    map.insert("a".to_string(), serde_json::Value::from(1u64));
    map.insert("b".to_string(), serde_json::Value::from("x\u{e9}\"y"));
    map.insert(
        "c".to_string(),
        serde_json::Value::Array(vec![serde_json::Value::Null, serde_json::Value::Bool(true)]),
    );
    let value = serde_json::Value::Object(map);
    let mut writer = JsonRpcWriter::new();
    writer.write_message(&value).expect("serialise");
    writer.write_message(&serde_json::Value::from(7u64)).expect("serialise");
    let bytes = writer.take_output();
    let mut reader = JsonRpcReader::new();
    reader.feed(&bytes);
    let got = read_all(&mut reader);
    assert_eq!(got, vec![value, serde_json::Value::from(7u64)]);
}

#[test]
fn frame_bytes_are_exact() {
    let mut writer = JsonRpcWriter::new();
    writer.write_body(b"{}");
    assert_eq!(writer.take_output(), b"Content-Length: 2\r\n\r\n{}".to_vec());
    assert!(writer.take_output().is_empty());
}

#[test]
fn header_tolerates_whitespace_around_length() {
    let mut reader = JsonRpcReader::new();
    reader.feed(b"Content-Length:   2  \r\n\r\n[]");
    assert!(matches!(reader.next_frame(), FrameScan::Body { start: 25, len: 2 }));
    match reader.read_message() {
        ReadOutcome::Message(v) => assert_eq!(v, serde_json::Value::Array(Vec::new())),
        _ => panic!("expected a message"),
    }
}

#[test]
fn header_without_length_is_rejected_and_skipped() {
    let mut reader = JsonRpcReader::new();
    reader.feed(b"Content-Type: x\r\n\r\nContent-Length: 1\r\n\r\n5");
    assert!(matches!(reader.read_message(), ReadOutcome::Failed(FrameError::MissingLength)));
    match reader.read_message() {
        ReadOutcome::Message(v) => assert_eq!(v, serde_json::Value::from(5u64)),
        _ => panic!("expected the next frame"),
    }
}

#[test]
fn length_key_is_case_sensitive() {
    let mut reader = JsonRpcReader::new();
    reader.feed(b"content-length: 1\r\n\r\n5");
    assert!(matches!(reader.read_message(), ReadOutcome::Failed(FrameError::MissingLength)));
}

#[test]
fn partial_frames_wait_and_truncation_is_reported() {
    let mut reader = JsonRpcReader::new();
    reader.feed(b"Content-Length: 4\r\n");
    assert!(matches!(reader.read_message(), ReadOutcome::Pending));
    reader.feed(b"\r\n12");
    assert!(matches!(reader.read_message(), ReadOutcome::Pending));
    reader.close();
    assert!(matches!(reader.read_message(), ReadOutcome::Failed(FrameError::Truncated)));
}

#[test]
fn clean_end_before_any_header() {
    let mut reader = JsonRpcReader::new();
    reader.close();
    assert!(matches!(reader.read_message(), ReadOutcome::Closed));
}

#[test]
fn invalid_json_body_is_dropped() {
    let mut reader = JsonRpcReader::new();
    reader.feed(b"Content-Length: 3\r\n\r\n{x}Content-Length: 2\r\n\r\n{}");
    assert!(matches!(reader.read_message(), ReadOutcome::Failed(FrameError::InvalidJson)));
    assert!(matches!(reader.read_message(), ReadOutcome::Message(_)));
}

#[test]
fn unusable_length_counts_as_missing() {
    let mut reader = JsonRpcReader::new();
    reader.feed(b"Content-Length: 99999999999999999999999\r\n\r\n");
    assert!(matches!(reader.read_message(), ReadOutcome::Failed(FrameError::MissingLength)));
    let mut reader = JsonRpcReader::new();
    reader.feed(b"Content-Length: +2\r\n\r\n{}");
    assert!(matches!(reader.read_message(), ReadOutcome::Message(_)));
}

#[test]
fn writer_frames_the_compact_json_text() {
    let mut map = serde_json::Map::new();
    map.insert("b".to_string(), serde_json::Value::from(2u64));
    map.insert("a".to_string(), serde_json::Value::from("x"));
    let value = serde_json::Value::Object(map);
    let mut writer = JsonRpcWriter::new();
    assert_eq!(writer.write_message(&value), Ok(()));
    let text = serde_json::to_vec(&value).unwrap();
    let mut expected = format!("Content-Length: {}\r\n\r\n", text.len()).into_bytes();
    expected.extend_from_slice(&text);
    assert_eq!(writer.take_output(), expected);
}

#[test]
fn bodies_with_invalid_utf8_are_read_lossily() {
    let mut reader = JsonRpcReader::new();
    reader.feed(b"Content-Length: 5\r\n\r\n\"a\xffb\"");
    match reader.read_message() {
        ReadOutcome::Message(v) => assert_eq!(v, serde_json::Value::from("a\u{fffd}b")),
        _ => panic!("expected a message"),
    }
}

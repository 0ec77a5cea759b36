use swipl_rs::frame::{decode_frame, send_message, write_frame, FrameError, FrameScan};

fn raw_frame(message: &[u8]) -> Vec<u8> {
    let mut out = Vec::new();
    write_frame(&mut out, message);
    out
}

fn complete(bytes: &[u8]) -> (String, usize) {
    match decode_frame(bytes) {
        FrameScan::Complete(text, used) => (text, used),
        other => panic!("expected a whole frame, got {:?}", other),
    }
}

#[test]
fn test_message_length_prefix_format() {
    let wire = raw_frame("hello world".as_bytes());
    assert_eq!(String::from_utf8(wire).unwrap(), "11.\nhello world");
}

#[test]
fn test_utf8_message_length_calculation() {
    let message = "Hello 世界";
    assert_eq!(message.chars().count(), 8);
    let wire = raw_frame(message.as_bytes());
    assert_eq!(String::from_utf8(wire).unwrap(), "12.\nHello 世界");
}

#[test]
fn test_send_message_format() {
    let wire = raw_frame("test message".as_bytes());
    assert_eq!(String::from_utf8(wire).unwrap(), "12.\ntest message");
}

#[test]
fn test_receive_message_basic() {
    let (text, used) = complete(b"5.\nhello");
    assert_eq!(text, "hello");
    assert_eq!(text.len(), 5);
    assert_eq!(used, 8);
}

#[test]
fn test_receive_message_with_crlf() {
    let (text, used) = complete(b"7.\r\nmessage");
    assert_eq!(text, "message");
    assert_eq!(used, 11);
}

#[test]
fn test_heartbeat_handling() {
    let (text, used) = complete(b".5.\nhello");
    assert_eq!(text, "hello");
    assert_eq!(used, 9);
}

#[test]
fn test_large_message_handling() {
    let large_message = "x".repeat(10000);
    let wire = raw_frame(large_message.as_bytes());
    assert!(wire.starts_with(b"10000.\n"));
    assert_eq!(wire.len(), 10000 + 7);
}

#[test]
fn test_zero_length_message() {
    let (text, used) = complete(b"0.\n");
    assert_eq!(text, "");
    assert_eq!(used, 3);
}

#[test]
fn test_malformed_length_prefix_non_digit() {
    assert!(matches!(
        decode_frame(b"12a.\nhello"),
        FrameScan::Malformed(FrameError::InvalidLengthByte(b'a'))
    ));
}

#[test]
fn test_partial_read_handling() {
    assert!(matches!(decode_frame(b"10.\nhello"), FrameScan::Incomplete));
}

#[test]
fn test_multiple_messages_in_stream() {
    let wire = b"5.\nhello3.\nbye";
    let (first, used) = complete(wire);
    assert_eq!(first, "hello");
    let (second, used2) = complete(&wire[used..]);
    assert_eq!(second, "bye");
    assert_eq!(used + used2, wire.len());
}

#[test]
fn test_message_with_newlines() {
    let wire = raw_frame("line1\nline2\r\nline3".as_bytes());
    assert_eq!(String::from_utf8(wire).unwrap(), "18.\nline1\nline2\r\nline3");
}

#[test]
fn test_binary_safe_message() {
    let mut message_bytes = vec![];
    for i in 0..=255u8 {
        message_bytes.push(i);
    }
    let wire_data = raw_frame(&message_bytes);
    assert_eq!(wire_data[0..5], b"256.\n"[..]);
    assert_eq!(&wire_data[5..], &message_bytes[..]);
}

#[test]
fn test_invalid_utf8_in_message() {
    let invalid_utf8 = vec![0xFF, 0xFE, 0xFD];
    let wire_data = raw_frame(&invalid_utf8);
    assert!(matches!(
        decode_frame(&wire_data),
        FrameScan::Malformed(FrameError::InvalidUtf8)
    ));
}

#[test]
fn test_very_large_length_prefix() {
    // 999999999 bytes are announced and none is there yet
    assert!(matches!(decode_frame(b"999999999.\n"), FrameScan::Incomplete));
}

#[test]
fn test_cr_lf_handling_in_length_prefix() {
    // line ends are noise before the first digit and malformed after it
    assert!(matches!(
        decode_frame(b"5\r\n.\nhello"),
        FrameScan::Malformed(FrameError::InvalidLengthByte(b'\r'))
    ));
    let (text, _) = complete(b"\r\n5.\nhello");
    assert_eq!(text, "hello");
}

#[test]
fn test_consecutive_heartbeats() {
    let (text, used) = complete(b"...5.\nhello");
    assert_eq!(text, "hello");
    assert_eq!(text.len(), 5);
    assert_eq!(used, 11);
}

#[test]
fn test_mixed_heartbeats_and_noise() {
    let (text, _) = complete(b".\x00.\xFF5.\nhello");
    assert_eq!(text, "hello");
}

#[test]
fn test_empty_length_prefix_error() {
    // a lone '.' is a heartbeat and no digit ever comes
    assert!(matches!(decode_frame(b".\nhello"), FrameScan::Incomplete));
}

#[test]
fn test_length_overflow() {
    let wire_data = format!("{}.\nhello", "18446744073709551616");
    assert!(matches!(
        decode_frame(wire_data.as_bytes()),
        FrameScan::Malformed(FrameError::LengthOverflow)
    ));
}

#[test]
fn test_negative_length() {
    // '-' before any digit is noise
    let (text, _) = complete(b"-5.\nhello");
    assert_eq!(text, "hello");
}

#[test]
fn test_whitespace_in_length() {
    assert!(matches!(
        decode_frame(b"1 2 3.\nhello world!"),
        FrameScan::Malformed(FrameError::InvalidLengthByte(b' '))
    ));
}

#[test]
fn frame_round_trip_strips_terminator() {
    for m in ["hello", "hello.", "hello.\n", "", "Hello 世界", "a.b."] {
        let mut out = Vec::new();
        send_message(&mut out, m);
        let (text, used) = complete(&out);
        assert_eq!(used, out.len());
        let expected = m.strip_suffix(".\n").or(m.strip_suffix('.')).unwrap_or(m);
        assert_eq!(text, expected);
    }
}

#[test]
fn send_message_normalizes_terminator() {
    let mut out = Vec::new();
    send_message(&mut out, "close.");
    assert_eq!(out, b"7.\nclose.\n");
    let mut out = Vec::new();
    send_message(&mut out, "close");
    assert_eq!(out, b"7.\nclose.\n");
    let mut out = Vec::new();
    send_message(&mut out, "close.\n");
    assert_eq!(out, b"7.\nclose.\n");
}

#[test]
fn utf8_header_counts_bytes() {
    let mut out = Vec::new();
    send_message(&mut out, "Hello 世界");
    assert!(out.starts_with(b"14.\n"));
    let wire = raw_frame("Hello 世界".as_bytes());
    assert!(wire.starts_with(b"12."));
    assert!(!wire.starts_with(b"8."));
}

#[test]
fn crlf_after_header_decodes_like_lf() {
    assert_eq!(complete(b"5.\r\nhello").0, complete(b"5.\nhello").0);
}

#[test]
fn three_heartbeats_then_frame() {
    let (text, _) = complete(b"...5.\nhello");
    assert_eq!(text, "hello");
}

#[test]
fn missing_line_feed_is_malformed() {
    assert!(matches!(
        decode_frame(b"5.xhello"),
        FrameScan::Malformed(FrameError::MissingLineFeed(b'x'))
    ));
    assert!(matches!(
        decode_frame(b"5.\rxhello"),
        FrameScan::Malformed(FrameError::MissingLineFeed(b'x'))
    ));
    assert!(matches!(decode_frame(b"5.\r"), FrameScan::Incomplete));
    assert!(matches!(decode_frame(b"5."), FrameScan::Incomplete));
}

#[test]
fn received_payload_loses_one_terminator() {
    let (text, _) = complete(b"6.\ntrue.\n");
    assert_eq!(text, "true");
    let (text, _) = complete(b"7.\ntrue..\n");
    assert_eq!(text, "true.");
}

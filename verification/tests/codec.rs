use bytes::BytesMut;
use rwhois::codec::RwhoisCodec;
use rwhois::Error;

fn dec(input: &[u8]) -> Vec<String> {
    let mut codec = RwhoisCodec::new();
    let mut buf = BytesMut::from(input);
    let mut out = Vec::new();
    while let Some(line) = codec.decode(&mut buf).unwrap() {
        out.push(line);
    }
    out
}

#[test]
fn decodes_lf_line() {
    assert_eq!(dec(b"-quit\n"), vec!["-quit"]);
}

#[test]
fn decodes_crlf_line() {
    assert_eq!(dec(b"-quit\r\n"), vec!["-quit"]);
}

#[test]
fn decodes_multiple_lines_in_one_buffer() {
    assert_eq!(
        dec(b"-rwhois V-1.5\r\n-holdconnect on\r\n-quit\r\n"),
        vec!["-rwhois V-1.5", "-holdconnect on", "-quit"]
    );
}

#[test]
fn empty_line_decodes_to_empty_string() {
    assert_eq!(dec(b"\r\n"), vec![""]);
}

#[test]
fn strips_embedded_control_bytes_keeps_tab() {
    let mut codec = RwhoisCodec::new();
    let mut buf = BytesMut::from(&b"foo\x07\tbar\x00baz\n"[..]);
    let line = codec.decode(&mut buf).unwrap().unwrap();
    assert_eq!(line, "foo\tbarbaz");
}

#[test]
fn trims_surrounding_whitespace() {
    let mut codec = RwhoisCodec::new();
    let mut buf = BytesMut::from(&b"   -quit   \r\n"[..]);
    let line = codec.decode(&mut buf).unwrap().unwrap();
    assert_eq!(line, "-quit");
}

#[test]
fn partial_line_returns_none_then_completes() {
    let mut codec = RwhoisCodec::new();
    let mut buf = BytesMut::from(&b"-quit"[..]);
    assert!(codec.decode(&mut buf).unwrap().is_none());
    buf.extend_from_slice(b"\r\n");
    let line = codec.decode(&mut buf).unwrap().unwrap();
    assert_eq!(line, "-quit");
}

#[test]
fn rejects_line_longer_than_max() {
    let mut codec = RwhoisCodec::with_max_line(16);
    let mut buf = BytesMut::from(&b"this-is-a-very-long-line\r\n"[..]);
    assert!(matches!(codec.decode(&mut buf), Err(Error::LineTooLong { max: 16 })));
}

#[test]
fn rejects_non_ascii_byte() {
    let mut codec = RwhoisCodec::new();
    let mut buf = BytesMut::from(&b"foo\xc3\xa9bar\r\n"[..]);
    assert!(matches!(codec.decode(&mut buf), Err(Error::Protocol { .. })));
}

#[test]
fn encodes_crlf() {
    let mut codec = RwhoisCodec::new();
    let mut buf = BytesMut::new();
    codec.encode_str(&"%ok".to_string(), &mut buf).unwrap();
    assert_eq!(&buf[..], b"%ok\r\n");
}

#[test]
fn encoder_rejects_embedded_newline() {
    let mut codec = RwhoisCodec::new();
    let mut buf = BytesMut::new();
    assert!(codec.encode_str("foo\nbar", &mut buf).is_err());
    assert!(codec.encode_str("foo\rbar", &mut buf).is_err());
}

#[test]
fn encoder_rejects_oversize() {
    let mut codec = RwhoisCodec::with_max_line(8);
    let mut buf = BytesMut::new();
    assert!(matches!(codec.encode_str("0123456789", &mut buf), Err(Error::LineTooLong { max: 8 })));
}

#[test]
fn encoded_line_decodes_back() {
    let mut codec = RwhoisCodec::new();
    let mut buf = BytesMut::new();
    codec.encode_str("-limit 5", &mut buf).unwrap();
    assert_eq!(codec.decode(&mut buf).unwrap().as_deref(), Some("-limit 5"));
    assert!(buf.is_empty());
}

#[test]
fn max_line_is_reported_and_defaults() {
    assert_eq!(RwhoisCodec::new().max_line(), rwhois::MAX_LINE);
    assert_eq!(RwhoisCodec::with_max_line(64).max_line(), 64);
}

#[test]
fn oversized_partial_input_is_rejected() {
    let mut codec = RwhoisCodec::with_max_line(4);
    let mut buf = BytesMut::from(&b"abcdefgh"[..]);
    assert!(matches!(codec.decode(&mut buf), Err(Error::LineTooLong { max: 4 })));
}

#[test]
fn non_ascii_line_leaves_buffer() {
    let mut codec = RwhoisCodec::new();
    let mut buf = BytesMut::from(&b"\xff\r\n-quit\r\n"[..]);
    assert!(codec.decode(&mut buf).is_err());
    assert_eq!(codec.decode(&mut buf).unwrap().as_deref(), Some("-quit"));
}

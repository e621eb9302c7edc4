use bytes::BytesMut;
use gridgame::codecs::{
    buffer_len, is_whitespace, parse_request, trim_end, CodecError, GridTextCodec, LineCodec,
};
use gridgame::grid::{GridPoint, GridUpdate};
use gridgame::protocol::{GridClientRequest, GridClientResponse, GridServerHangup};

fn buffer(bytes: &[u8]) -> BytesMut {
    BytesMut::from(bytes.to_vec())
}

#[test]
fn line_decode_takes_first_line() {
    let mut buf = buffer(b"hello\nworld\n");
    let line = LineCodec.decode(&mut buf);
    assert_eq!(line, Ok(Some("hello".to_string())));
    assert_eq!(&buf[..], b"world\n");
    let line = LineCodec.decode(&mut buf);
    assert_eq!(line, Ok(Some("world".to_string())));
    assert_eq!(&buf[..], b"");
}

#[test]
fn line_decode_waits_for_newline() {
    let mut buf = buffer(b"partial line");
    assert_eq!(LineCodec.decode(&mut buf), Ok(None));
    assert_eq!(&buf[..], b"partial line");
    let mut empty = BytesMut::new();
    assert_eq!(LineCodec.decode(&mut empty), Ok(None));
    assert_eq!(empty.len(), 0);
}

#[test]
fn line_decode_empty_line() {
    let mut buf = buffer(b"\nrest");
    assert_eq!(LineCodec.decode(&mut buf), Ok(Some(String::new())));
    assert_eq!(&buf[..], b"rest");
}

#[test]
fn line_decode_rejects_invalid_utf8() {
    let mut buf = buffer(&[0x66, 0xff, 0x67, b'\n', b'o', b'k']);
    assert_eq!(LineCodec.decode(&mut buf), Err(CodecError::InvalidUtf8));
    // the bad line and its newline are consumed anyway
    assert_eq!(&buf[..], b"ok");
}

#[test]
fn line_decode_keeps_multibyte_text() {
    let mut buf = buffer("héllo wörld\nx".as_bytes());
    assert_eq!(LineCodec.decode(&mut buf), Ok(Some("héllo wörld".to_string())));
    assert_eq!(&buf[..], b"x");
}

#[test]
fn line_encode_appends_newline() {
    let mut buf = buffer(b"ab");
    assert_eq!(LineCodec.encode("cd€".to_string(), &mut buf), Ok(()));
    let mut expected = b"ab".to_vec();
    expected.extend_from_slice("cd€".as_bytes());
    expected.push(b'\n');
    assert_eq!(&buf[..], &expected[..]);
}

#[test]
fn line_roundtrip() {
    let mut buf = BytesMut::new();
    LineCodec.encode("first".to_string(), &mut buf).unwrap();
    LineCodec.encode("zweite Zeile ✓".to_string(), &mut buf).unwrap();
    assert_eq!(LineCodec.decode(&mut buf), Ok(Some("first".to_string())));
    assert_eq!(LineCodec.decode(&mut buf), Ok(Some("zweite Zeile ✓".to_string())));
    assert_eq!(LineCodec.decode(&mut buf), Ok(None));
    assert_eq!(buf.len(), 0);
}

#[test]
fn whitespace_matches_std() {
    for c in ['\t', '\n', '\u{b}', '\u{c}', '\r', ' ', '\u{85}', '\u{a0}', '\u{1680}', '\u{2000}',
              '\u{200a}', '\u{2028}', '\u{2029}', '\u{202f}', '\u{205f}', '\u{3000}'] {
        assert!(is_whitespace(c), "{:?}", c);
        assert_eq!(is_whitespace(c), c.is_whitespace());
    }
    for c in ['a', '0', '\u{200b}', '\u{feff}', '_', '\u{0}', '\u{10ffff}'] {
        assert!(!is_whitespace(c), "{:?}", c);
        assert_eq!(is_whitespace(c), c.is_whitespace());
    }
}

#[test]
fn trim_end_strips_trailing_whitespace() {
    assert_eq!(trim_end("up  \t\r"), "up");
    assert_eq!(trim_end("  left"), "  left");
    assert_eq!(trim_end("a b \u{3000}"), "a b");
    assert_eq!(trim_end("   "), "");
    assert_eq!(trim_end(""), "");
}

#[test]
fn parse_directions() {
    assert_eq!(parse_request("up"), GridClientRequest::MoveRel(GridPoint(0, -1)));
    assert_eq!(parse_request("down"), GridClientRequest::MoveRel(GridPoint(0, 1)));
    assert_eq!(parse_request("left"), GridClientRequest::MoveRel(GridPoint(-1, 0)));
    assert_eq!(parse_request("right \r"), GridClientRequest::MoveRel(GridPoint(1, 0)));
    assert_eq!(parse_request(" up"), GridClientRequest::Unrecognized(" up".to_string()));
    assert_eq!(parse_request("UP"), GridClientRequest::Unrecognized("UP".to_string()));
}

#[test]
fn parse_login() {
    assert_eq!(parse_request("login:a"), GridClientRequest::LoginAs('a'));
    assert_eq!(parse_request("login:bob"), GridClientRequest::LoginAs('b'));
    assert_eq!(parse_request("login:é  "), GridClientRequest::LoginAs('é'));
    assert_eq!(parse_request("login:"), GridClientRequest::Unrecognized("login:".to_string()));
    assert_eq!(parse_request("login: "), GridClientRequest::Unrecognized("login:".to_string()));
    assert_eq!(parse_request("logout:a"), GridClientRequest::Unrecognized("logout:a".to_string()));
}

#[test]
fn grid_text_decode_lines() {
    let mut buf = buffer(b"login:z\r\nup\nhello there \nle");
    let mut codec = GridTextCodec;
    assert_eq!(codec.decode(&mut buf), Ok(Some(GridClientRequest::LoginAs('z'))));
    assert_eq!(codec.decode(&mut buf), Ok(Some(GridClientRequest::MoveRel(GridPoint(0, -1)))));
    assert_eq!(
        codec.decode(&mut buf),
        Ok(Some(GridClientRequest::Unrecognized("hello there".to_string())))
    );
    assert_eq!(codec.decode(&mut buf), Ok(None));
    assert_eq!(&buf[..], b"le");
}

#[test]
fn grid_text_decode_invalid_utf8() {
    let mut buf = buffer(&[0xc3, 0x28, b'\n']);
    assert_eq!(GridTextCodec.decode(&mut buf), Err(CodecError::InvalidUtf8));
    assert_eq!(buf.len(), 0);
}

#[test]
fn grid_text_encode_uses_debug_text() {
    let mut buf = BytesMut::new();
    let mut codec = GridTextCodec;
    codec.encode(GridClientResponse::LoginPrompt, &mut buf).unwrap();
    codec.encode(GridClientResponse::LoggedIn(7), &mut buf).unwrap();
    codec
        .encode(GridClientResponse::GridUpdated(GridUpdate::MovedTo(3, GridPoint(-1, 2))), &mut buf)
        .unwrap();
    codec.encode(GridClientResponse::Hangup(GridServerHangup::UnexpectedLogin), &mut buf).unwrap();
    assert_eq!(
        &buf[..],
        &b"LoginPrompt\nLoggedIn(7)\nGridUpdated(MovedTo(3, GridPoint(-1, 2)))\nHangup(UnexpectedLogin)\n"[..]
    );
}

#[test]
fn grid_text_encode_login_prompt() {
    let mut buf = BytesMut::new();
    assert_eq!(GridTextCodec.encode(GridClientResponse::LoginPrompt, &mut buf), Ok(()));
    assert_eq!(&buf[..], b"LoginPrompt\n");
}

#[test]
fn grid_text_encode_checked_appends() {
    let mut buf = buffer(b"x\n");
    assert_eq!(
        GridTextCodec.encode_checked(GridClientResponse::Hangup(GridServerHangup::InternalError), &mut buf),
        Ok(())
    );
    assert_eq!(&buf[..], b"x\nHangup(InternalError)\n");
    let mut line = LineCodec;
    assert_eq!(line.decode(&mut buf), Ok(Some("x".to_string())));
    assert_eq!(line.decode(&mut buf), Ok(Some("Hangup(InternalError)".to_string())));
}

#[test]
fn codec_error_variants_are_distinct() {
    assert_ne!(CodecError::InvalidUtf8, CodecError::BufferOverflow);
}

#[test]
fn line_encode_checked_appends_like_encode() {
    let mut buf = buffer(b"x\n");
    assert_eq!(LineCodec.encode_checked("ab".to_string(), &mut buf), Ok(()));
    assert_eq!(&buf[..], b"x\nab\n");
    assert_eq!(LineCodec.decode(&mut buf), Ok(Some("x".to_string())));
    assert_eq!(LineCodec.decode(&mut buf), Ok(Some("ab".to_string())));
}

#[test]
fn buffer_len_counts_bytes() {
    assert_eq!(buffer_len(&BytesMut::new()), 0);
    let mut buf = buffer(b"hi");
    assert_eq!(buffer_len(&buf), 2);
    LineCodec.encode_checked("é".to_string(), &mut buf).unwrap();
    assert_eq!(buffer_len(&buf), 5);
}

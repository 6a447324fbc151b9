use ste_lib::framing::{decode_frame, encode_frame, FrameError, FrameOutcome};

fn frame(payload: &[u8]) -> Vec<u8> {
    encode_frame(payload)
}

#[test]
fn encode_exact_bytes() {
    let out = frame(b"hello");
    assert_eq!(out, b"Content-Length: 5\r\n\r\nhello".to_vec());
}

#[test]
fn encode_empty_payload() {
    let out = frame(b"");
    assert_eq!(out, b"Content-Length: 0\r\n\r\n".to_vec());
}

#[test]
fn round_trip_simple() {
    let payload = b"{\"jsonrpc\":\"2.0\"}";
    let framed = frame(payload);
    match decode_frame(&framed) {
        FrameOutcome::Frame { payload: got, consumed } => {
            assert_eq!(got, payload.to_vec());
            assert_eq!(consumed, framed.len());
        }
        _ => panic!("expected a frame"),
    }
}

#[test]
fn round_trip_with_trailing_bytes() {
    let payload = b"abc\r\ndef";
    let mut framed = frame(payload);
    let frame_len = framed.len();
    framed.extend_from_slice(b"Content-Length: 1\r\n\r\nz");
    match decode_frame(&framed) {
        FrameOutcome::Frame { payload: got, consumed } => {
            assert_eq!(got, payload.to_vec());
            assert_eq!(consumed, frame_len);
        }
        _ => panic!("expected a frame"),
    }
}

#[test]
fn extra_headers_are_skipped() {
    let input = b"Content-Type: application/json\r\nContent-Length: 2\r\n\r\nok";
    match decode_frame(input) {
        FrameOutcome::Frame { payload, consumed } => {
            assert_eq!(payload, b"ok".to_vec());
            assert_eq!(consumed, input.len());
        }
        _ => panic!("expected a frame"),
    }
}

#[test]
fn missing_content_length_is_fatal() {
    let input = b"Content-Type: application/json\r\n\r\nok";
    match decode_frame(input) {
        FrameOutcome::Bad(e) => assert_eq!(e, FrameError::MissingContentLength),
        _ => panic!("expected an error"),
    }
}

#[test]
fn malformed_header_is_fatal() {
    let input = b"NoSeparatorHere\r\n\r\n";
    match decode_frame(input) {
        FrameOutcome::Bad(e) => assert_eq!(e, FrameError::MalformedHeader),
        _ => panic!("expected an error"),
    }
}

#[test]
fn non_numeric_length_is_fatal() {
    let input = b"Content-Length: twelve\r\n\r\n";
    match decode_frame(input) {
        FrameOutcome::Bad(e) => assert_eq!(e, FrameError::BadContentLength),
        _ => panic!("expected an error"),
    }
}

#[test]
fn empty_length_is_fatal() {
    let input = b"Content-Length: \r\n\r\n";
    match decode_frame(input) {
        FrameOutcome::Bad(e) => assert_eq!(e, FrameError::BadContentLength),
        _ => panic!("expected an error"),
    }
}

#[test]
fn oversized_length_is_fatal() {
    let input = b"Content-Length: 99999999999999999999999999\r\n\r\n";
    match decode_frame(input) {
        FrameOutcome::Bad(e) => assert_eq!(e, FrameError::BadContentLength),
        _ => panic!("expected an error"),
    }
}

#[test]
fn incomplete_header_needs_more() {
    assert!(matches!(decode_frame(b"Content-Len"), FrameOutcome::NeedMore));
}

#[test]
fn incomplete_body_needs_more() {
    assert!(matches!(
        decode_frame(b"Content-Length: 5\r\n\r\nab"),
        FrameOutcome::NeedMore
    ));
}

#[test]
fn later_content_length_wins() {
    let input = b"Content-Length: 3\r\nContent-Length: 2\r\n\r\nokX";
    match decode_frame(input) {
        FrameOutcome::Frame { payload, consumed } => {
            assert_eq!(payload, b"ok".to_vec());
            assert_eq!(consumed, input.len() - 1);
        }
        _ => panic!("expected a frame"),
    }
}

#[test]
fn leading_zeros_in_length_are_accepted() {
    let input = b"Content-Length: 007\r\n\r\nabcdefg";
    match decode_frame(input) {
        FrameOutcome::Frame { payload, .. } => assert_eq!(payload, b"abcdefg".to_vec()),
        _ => panic!("expected a frame"),
    }
}

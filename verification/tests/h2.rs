use proxy_core::frame::{FrameHeader, FrameType};
use proxy_core::state::{St, State};

const PREFACE: &[u8] = b"PRI * HTTP/2.0\r\n\r\nSM\r\n\r\n";

fn frame_bytes(len: u32, typ: u8, flags: u8, stream_id: u32, payload: &[u8]) -> Vec<u8> {
    let mut v = Vec::new();
    v.push((len >> 16) as u8);
    v.push((len >> 8) as u8);
    v.push(len as u8);
    v.push(typ);
    v.push(flags);
    v.push((stream_id >> 24) as u8);
    v.push((stream_id >> 16) as u8);
    v.push((stream_id >> 8) as u8);
    v.push(stream_id as u8);
    v.extend_from_slice(payload);
    v
}

#[test]
fn preface_and_settings_enqueue_the_ack() {
    let mut s = State::new();
    assert_eq!(s.state, St::Init);
    assert!(!s.interest.writable);
    let mut input = PREFACE.to_vec();
    input.extend_from_slice(&frame_bytes(0, 0x04, 0, 0, &[]));
    let (consumed, keep) = s.parse_and_handle(&input);
    assert_eq!(consumed, 33);
    assert!(keep);
    assert_eq!(s.state, St::ServerPrefaceSent);
    assert_eq!(s.output.len(), 1);
    assert_eq!(
        s.output[0].header,
        FrameHeader { payload_len: 0, frame_type: FrameType::Settings, flags: 1, stream_id: 0 }
    );
    assert_eq!(s.output[0].payload, None);
    assert!(s.interest.writable);
    assert!(s.interest.readable);
}

#[test]
fn drain_writes_the_ack_and_clears_writable() {
    let mut s = State::new();
    let mut input = PREFACE.to_vec();
    input.extend_from_slice(&frame_bytes(0, 0x04, 0, 0, &[]));
    let _ = s.parse_and_handle(&input);
    let mut buf = vec![0u8; 9];
    let n = s.gen(&mut buf).expect("serialization must succeed");
    assert_eq!(n, 9);
    assert_eq!(&buf[..], &[0, 0, 0, 0x04, 0x01, 0, 0, 0, 0]);
    assert!(!s.interest.writable);
    assert_eq!(s.output.len(), 0);
    let n = s.gen(&mut buf).expect("serialization must succeed");
    assert_eq!(n, 0);
    assert!(!s.interest.writable);
}

#[test]
fn gen_leaves_bytes_past_the_header_untouched() {
    let mut s = State::new();
    let mut input = PREFACE.to_vec();
    input.extend_from_slice(&frame_bytes(0, 0x04, 0, 0, &[]));
    let _ = s.parse_and_handle(&input);
    let mut buf = vec![0xaa_u8; 16];
    let n = s.gen(&mut buf).expect("serialization must succeed");
    assert_eq!(n, 9);
    assert_eq!(&buf[..9], &[0, 0, 0, 0x04, 0x01, 0, 0, 0, 0]);
    assert_eq!(&buf[9..], &[0xaa; 7]);
}

#[test]
fn invalid_preface_consumes_nothing() {
    let mut s = State::new();
    let (consumed, r) = s.parse(b"GET / HTTP/1.1\r\n\r\nxxxxxxxxxxxxxx");
    assert_eq!(consumed, 0);
    assert!(r.is_err());
    assert_eq!(s.state, St::Init);
}

#[test]
fn short_input_after_preface_still_consumes_the_preface() {
    let mut s = State::new();
    let mut input = PREFACE.to_vec();
    input.extend_from_slice(&[0, 0]);
    let (consumed, r) = s.parse(&input);
    assert_eq!(consumed, 24);
    assert!(r.is_err());
    assert_eq!(s.state, St::ClientPrefaceReceived);
}

#[test]
fn parse_consumes_exactly_one_frame() {
    let mut s = State::new();
    let (c0, r0) = s.parse(PREFACE);
    assert_eq!(c0, 24); // the preface alone: consumed, but no frame yet
    assert!(r0.is_err());
    assert_eq!(s.state, St::ClientPrefaceReceived);
    let mut input = frame_bytes(3, 0x00, 0, 1, &[1, 2, 3]);
    input.extend_from_slice(&frame_bytes(0, 0x06, 0, 0, &[]));
    input.extend_from_slice(&[0xff; 4]); // trailing garbage stays untouched
    let (consumed, r) = s.parse(&input);
    assert_eq!(consumed, 12);
    let f = r.expect("first frame must parse");
    assert_eq!(f.header.frame_type, FrameType::Data);
    assert_eq!(f.header.payload_len, 3);
    assert_eq!(f.header.stream_id, 1);
    assert_eq!(f.payload, &[1, 2, 3]);
    let rest = &input[consumed..];
    let (consumed2, r2) = s.parse(rest);
    assert_eq!(consumed2, 9);
    assert_eq!(r2.expect("second frame must parse").header.frame_type, FrameType::Ping);
}

#[test]
fn split_feeding_matches_single_feeding() {
    // the same two frames, fed whole and fed frame by frame
    let mut whole = frame_bytes(2, 0x00, 0, 1, &[9, 9]);
    whole.extend_from_slice(&frame_bytes(0, 0x06, 0, 0, &[]));

    let mut s1 = State::new();
    s1.state = St::ServerPrefaceSent;
    let (c1, r1) = s1.parse(&whole);
    let h1 = r1.expect("frame must parse").header;
    let (c2, r2) = s1.parse(&whole[c1..]);
    let h2 = r2.expect("frame must parse").header;

    let mut s2 = State::new();
    s2.state = St::ServerPrefaceSent;
    let (d1, q1) = s2.parse(&whole[..11]);
    assert_eq!(d1, c1);
    assert_eq!(q1.expect("frame must parse").header, h1);
    let (d2, q2) = s2.parse(&whole[11..]);
    assert_eq!(d2, c2);
    assert_eq!(q2.expect("frame must parse").header, h2);
}

#[test]
fn oversized_frame_is_a_framing_error() {
    let mut s = State::new();
    s.state = St::ClientPrefaceReceived;
    let input = frame_bytes(20000, 0x00, 0, 1, &[]);
    let (consumed, r) = s.parse(&input);
    assert_eq!(consumed, 0);
    assert!(r.is_err());
}

#[test]
fn unknown_frame_type_is_a_framing_error() {
    let mut s = State::new();
    s.state = St::ClientPrefaceReceived;
    let input = frame_bytes(0, 0x0b, 0, 1, &[]);
    let (consumed, r) = s.parse(&input);
    assert_eq!(consumed, 0);
    assert!(r.is_err());
}

#[test]
fn non_settings_frame_after_preface_is_fatal() {
    let mut s = State::new();
    let mut input = PREFACE.to_vec();
    input.extend_from_slice(&frame_bytes(0, 0x06, 0, 0, &[])); // a PING instead
    let (consumed, keep) = s.parse_and_handle(&input);
    assert_eq!(consumed, 33);
    assert!(!keep);
    assert_eq!(s.state, St::ClientPrefaceReceived);
    assert_eq!(s.output.len(), 0);
    assert!(!s.interest.writable);
}

#[test]
fn headers_run_through_the_connection_decoder() {
    let mut s = State::new();
    let mut input = PREFACE.to_vec();
    input.extend_from_slice(&frame_bytes(0, 0x04, 0, 0, &[]));
    let _ = s.parse_and_handle(&input);
    // 0x82 is the indexed representation of ":method: GET"
    let headers = frame_bytes(1, 0x01, 0x04, 1, &[0x82]);
    let (consumed, keep) = s.parse_and_handle(&headers);
    assert_eq!(consumed, 10);
    assert!(!keep);
    assert_eq!(s.state, St::ServerPrefaceSent);
    // a malformed block is ignored and the connection lives on
    let bad = frame_bytes(1, 0x01, 0x04, 1, &[0xbf]);
    let (consumed, keep) = s.parse_and_handle(&bad);
    assert_eq!(consumed, 10);
    assert!(!keep);
    assert_eq!(s.state, St::ServerPrefaceSent);
}

#[test]
fn malformed_size_update_does_not_crash_the_handler() {
    let mut s = State::new();
    let mut input = PREFACE.to_vec();
    input.extend_from_slice(&frame_bytes(0, 0x04, 0, 0, &[]));
    let _ = s.parse_and_handle(&input);
    // a size update whose integer is truncated, and one with too many octets
    for payload in [&[0x3f_u8][..], &[0x3f, 0x80, 0x80, 0x80, 0x80][..]] {
        let headers = frame_bytes(payload.len() as u32, 0x01, 0x04, 1, payload);
        let (consumed, keep) = s.parse_and_handle(&headers);
        assert_eq!(consumed, 9 + payload.len());
        assert!(!keep);
        assert_eq!(s.state, St::ServerPrefaceSent);
    }
    // a well-formed size update followed by an indexed field still decodes
    let good = frame_bytes(2, 0x01, 0x04, 1, &[0x20, 0x82]);
    let (consumed, keep) = s.parse_and_handle(&good);
    assert_eq!(consumed, 11);
    assert!(!keep);
    assert_eq!(s.state, St::ServerPrefaceSent);
}

#[test]
fn gen_on_an_empty_queue_accepts_any_buffer() {
    let mut s = State::new();
    let mut buf = vec![0u8; 3];
    let n = s.gen(&mut buf).expect("an empty queue writes nothing");
    assert_eq!(n, 0);
    assert_eq!(&buf[..], &[0, 0, 0]);
    assert!(!s.interest.writable);
}

#[test]
fn writable_tracks_the_output_queue() {
    let mut s = State::new();
    assert_eq!(s.interest.writable, !s.output.is_empty());
    let mut input = PREFACE.to_vec();
    input.extend_from_slice(&frame_bytes(0, 0x04, 0, 0, &[]));
    let _ = s.parse_and_handle(&input);
    assert_eq!(s.interest.writable, !s.output.is_empty());
    let mut buf = vec![0u8; 16];
    let _ = s.gen(&mut buf);
    assert_eq!(s.interest.writable, !s.output.is_empty());
    let _ = s.gen(&mut buf);
    assert_eq!(s.interest.writable, !s.output.is_empty());
}

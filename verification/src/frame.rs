//! The H/2 wire format: the 24-byte connection preface and length-prefixed
//! frames with a 9-byte header — 24-bit payload length, 8-bit type, 8-bit
//! flags, one reserved bit and a 31-bit stream id — followed by the payload.

use vstd::prelude::*;
use vstd::slice::{slice_index_get, slice_subrange};

verus! {

/// The registered H/2 frame types; a frame with any other type byte is a
/// framing error.
#[derive(Clone, Copy, Debug, PartialEq, Eq, Structural)]
pub enum FrameType {
    Data,
    Headers,
    Priority,
    RstStream,
    Settings,
    PushPromise,
    Ping,
    GoAway,
    WindowUpdate,
    Continuation,
}

/// The fixed 9-byte frame header.
#[derive(Clone, Copy, Debug, PartialEq, Eq, Structural)]
pub struct FrameHeader {
    pub payload_len: u32,
    pub frame_type: FrameType,
    pub flags: u8,
    pub stream_id: u32,
}

/// One parsed frame: its header and a borrow of its payload bytes.
#[derive(Clone, Copy, Debug)]
pub struct Frame<'a> {
    pub header: FrameHeader,
    pub payload: &'a [u8],
}

/// The fixed client preface `PRI * HTTP/2.0\r\n\r\nSM\r\n\r\n`.
pub open spec fn spec_preface() -> Seq<u8> {
    seq![
        0x50u8, 0x52, 0x49, 0x20, 0x2a, 0x20, 0x48, 0x54, 0x54, 0x50, 0x2f, 0x32, 0x2e, 0x30,
        0x0d, 0x0a, 0x0d, 0x0a, 0x53, 0x4d, 0x0d, 0x0a, 0x0d, 0x0a,
    ]
}

pub open spec fn spec_frame_type_of(b: u8) -> Option<FrameType> {
    if b == 0 {
        Some(FrameType::Data)
    } else if b == 1 {
        Some(FrameType::Headers)
    } else if b == 2 {
        Some(FrameType::Priority)
    } else if b == 3 {
        Some(FrameType::RstStream)
    } else if b == 4 {
        Some(FrameType::Settings)
    } else if b == 5 {
        Some(FrameType::PushPromise)
    } else if b == 6 {
        Some(FrameType::Ping)
    } else if b == 7 {
        Some(FrameType::GoAway)
    } else if b == 8 {
        Some(FrameType::WindowUpdate)
    } else if b == 9 {
        Some(FrameType::Continuation)
    } else {
        None
    }
}

pub open spec fn spec_type_byte(t: FrameType) -> u8 {
    match t {
        FrameType::Data => 0,
        FrameType::Headers => 1,
        FrameType::Priority => 2,
        FrameType::RstStream => 3,
        FrameType::Settings => 4,
        FrameType::PushPromise => 5,
        FrameType::Ping => 6,
        FrameType::GoAway => 7,
        FrameType::WindowUpdate => 8,
        FrameType::Continuation => 9,
    }
}

/// Header-level parse of one frame from the head of `s`: `None` on a short
/// buffer, an unknown type byte or a payload length above `max`; otherwise
/// the header and the count of bytes the frame occupies.
pub open spec fn spec_parse_frame(s: Seq<u8>, max: u32) -> Option<(FrameHeader, int)> {
    if s.len() < 9 {
        None
    } else {
        let len = (s[0] as int) * 0x10000 + (s[1] as int) * 0x100 + (s[2] as int);
        match spec_frame_type_of(s[3]) {
            None => None,
            Some(t) => if len > max {
                None
            } else if s.len() < 9 + len {
                None
            } else {
                Some(
                    (
                        FrameHeader {
                            payload_len: len as u32,
                            frame_type: t,
                            flags: s[4],
                            stream_id: (((s[5] as int) % 0x80) * 0x1000000 + (s[6] as int)
                                * 0x10000 + (s[7] as int) * 0x100 + (s[8] as int)) as u32,
                        },
                        9 + len,
                    ),
                )
            },
        }
    }
}

/// The 9 bytes that serialize a frame header, big-endian, with the reserved
/// bit clear.
pub open spec fn spec_header_bytes(h: FrameHeader) -> Seq<u8> {
    seq![
        (((h.payload_len as int) / 0x10000) % 0x100) as u8,
        (((h.payload_len as int) / 0x100) % 0x100) as u8,
        ((h.payload_len as int) % 0x100) as u8,
        spec_type_byte(h.frame_type),
        h.flags,
        (((h.stream_id as int) / 0x1000000) % 0x80) as u8,
        (((h.stream_id as int) / 0x10000) % 0x100) as u8,
        (((h.stream_id as int) / 0x100) % 0x100) as u8,
        ((h.stream_id as int) % 0x100) as u8,
    ]
}

/// A successful parse is stable under appended input: the same frame comes
/// out of any extension of the buffer, after the same number of bytes.
pub proof fn lemma_parse_frame_extends(s: Seq<u8>, ext: Seq<u8>, max: u32)
    requires
        spec_parse_frame(s, max) is Some,
    ensures
        spec_parse_frame(s + ext, max) == spec_parse_frame(s, max),
        (s + ext).subrange(9, spec_parse_frame(s, max)->Some_0.1) == s.subrange(
            9,
            spec_parse_frame(s, max)->Some_0.1,
        ),
{
    let t = s + ext;
    assert(t.len() >= s.len());
    assert(t[0] == s[0] && t[1] == s[1] && t[2] == s[2] && t[3] == s[3] && t[4] == s[4] && t[5]
        == s[5] && t[6] == s[6] && t[7] == s[7] && t[8] == s[8]);
    let c = spec_parse_frame(s, max)->Some_0.1;
    assert(t.subrange(9, c) =~= s.subrange(9, c));
}

/// The serializer and the parser are inverses for one frame: the 9 header
/// bytes followed by a payload of the declared length parse back to the
/// same header, with the same payload behind it.
pub proof fn lemma_header_round_trip(h: FrameHeader, payload: Seq<u8>, max: u32)
    requires
        h.payload_len == payload.len(),
        h.payload_len <= max,
        h.payload_len < 0x1000000,
        h.stream_id < 0x80000000,
    ensures
        spec_parse_frame(spec_header_bytes(h) + payload, max) == Some(
            (h, 9 + payload.len() as int),
        ),
        (spec_header_bytes(h) + payload).subrange(9, 9 + payload.len() as int) == payload,
{
    let s = spec_header_bytes(h) + payload;
    assert(spec_header_bytes(h).len() == 9);
    assert(s[0] == spec_header_bytes(h)[0] && s[1] == spec_header_bytes(h)[1] && s[2]
        == spec_header_bytes(h)[2] && s[3] == spec_header_bytes(h)[3] && s[4]
        == spec_header_bytes(h)[4] && s[5] == spec_header_bytes(h)[5] && s[6]
        == spec_header_bytes(h)[6] && s[7] == spec_header_bytes(h)[7] && s[8]
        == spec_header_bytes(h)[8]);
    let l = h.payload_len;
    assert(((l / 0x10000) % 0x100) * 0x10000 + ((l / 0x100) % 0x100) * 0x100 + (l % 0x100)
        == l) by (bit_vector)
        requires
            l < 0x1000000,
    ;
    let d = h.stream_id;
    assert(((d / 0x1000000) % 0x80) * 0x1000000 + ((d / 0x10000) % 0x100) * 0x10000 + ((d
        / 0x100) % 0x100) * 0x100 + (d % 0x100) == d) by (bit_vector)
        requires
            d < 0x80000000,
    ;
    assert(spec_frame_type_of(spec_type_byte(h.frame_type)) == Some(h.frame_type));
    assert(s.subrange(9, 9 + payload.len() as int) =~= payload);
}

fn frame_type_from_byte(b: u8) -> (r: Option<FrameType>)
    ensures
        r == spec_frame_type_of(b),
{
    if b == 0 {
        Some(FrameType::Data)
    } else if b == 1 {
        Some(FrameType::Headers)
    } else if b == 2 {
        Some(FrameType::Priority)
    } else if b == 3 {
        Some(FrameType::RstStream)
    } else if b == 4 {
        Some(FrameType::Settings)
    } else if b == 5 {
        Some(FrameType::PushPromise)
    } else if b == 6 {
        Some(FrameType::Ping)
    } else if b == 7 {
        Some(FrameType::GoAway)
    } else if b == 8 {
        Some(FrameType::WindowUpdate)
    } else if b == 9 {
        Some(FrameType::Continuation)
    } else {
        None
    }
}

/// Parses one frame from the head of `input`; `Some` carries the header,
/// the payload bytes, and how many bytes of `input` the frame occupies.
pub fn parse_frame<'a>(input: &'a [u8], max_frame_size: u32) -> (r: Option<
    (FrameHeader, &'a [u8], usize),
>)
    ensures
        match r {
            Some(p) => {
                &&& spec_parse_frame(input@, max_frame_size) == Some((p.0, p.2 as int))
                &&& p.1@ == input@.subrange(9, p.2 as int)
                &&& 9 <= p.2 <= input@.len()
                &&& p.2 == 9 + p.0.payload_len
            },
            None => spec_parse_frame(input@, max_frame_size) is None,
        },
{
    if input.len() < 9 {
        return None;
    }
    let b0 = *slice_index_get(input, 0);
    let b1 = *slice_index_get(input, 1);
    let b2 = *slice_index_get(input, 2);
    let b3 = *slice_index_get(input, 3);
    let b4 = *slice_index_get(input, 4);
    let b5 = *slice_index_get(input, 5);
    let b6 = *slice_index_get(input, 6);
    let b7 = *slice_index_get(input, 7);
    let b8 = *slice_index_get(input, 8);
    let len: u32 = (b0 as u32) * 0x10000 + (b1 as u32) * 0x100 + (b2 as u32);
    let t = match frame_type_from_byte(b3) {
        None => {
            return None;
        },
        Some(t) => t,
    };
    if len > max_frame_size {
        return None;
    }
    if input.len() - 9 < len as usize {
        return None;
    }
    let sid: u32 = ((b5 as u32) % 0x80) * 0x1000000 + (b6 as u32) * 0x10000 + (b7 as u32) * 0x100
        + (b8 as u32);
    let consumed: usize = 9 + len as usize;
    let payload = slice_subrange(input, 9, consumed);
    Some(
        (
            FrameHeader { payload_len: len, frame_type: t, flags: b4, stream_id: sid },
            payload,
            consumed,
        ),
    )
}

/// Serializes a frame header into the first 9 bytes of `output`, leaving the
/// rest of the buffer as it was, and returns the count of bytes written.
pub fn gen_frame_header(output: &mut Vec<u8>, h: &FrameHeader) -> (r: usize)
    requires
        old(output).len() >= 9,
    ensures
        r == 9,
        final(output)@.len() == old(output)@.len(),
        forall|i: int| 0 <= i < 9 ==> final(output)@[i] == spec_header_bytes(*h)[i],
        forall|i: int| 9 <= i < old(output)@.len() ==> final(output)@[i] == old(output)@[i],
{
    output.set(0, ((h.payload_len / 0x10000) % 0x100) as u8);
    output.set(1, ((h.payload_len / 0x100) % 0x100) as u8);
    output.set(2, (h.payload_len % 0x100) as u8);
    let tb: u8 = match h.frame_type {
        FrameType::Data => 0,
        FrameType::Headers => 1,
        FrameType::Priority => 2,
        FrameType::RstStream => 3,
        FrameType::Settings => 4,
        FrameType::PushPromise => 5,
        FrameType::Ping => 6,
        FrameType::GoAway => 7,
        FrameType::WindowUpdate => 8,
        FrameType::Continuation => 9,
    };
    output.set(3, tb);
    output.set(4, h.flags);
    output.set(5, ((h.stream_id / 0x1000000) % 0x80) as u8);
    output.set(6, ((h.stream_id / 0x10000) % 0x100) as u8);
    output.set(7, ((h.stream_id / 0x100) % 0x100) as u8);
    output.set(8, (h.stream_id % 0x100) as u8);
    9
}

} // verus!

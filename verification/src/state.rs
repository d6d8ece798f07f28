//! The per-connection H/2 state machine: it recognises the client preface,
//! consumes one frame per call, answers a SETTINGS frame with an empty
//! SETTINGS-ACK, runs header blocks through the connection's HPACK decoder,
//! and keeps the I/O-readiness interest set in step with the output queue.

use vstd::prelude::*;
use crate::frame::{Frame, FrameHeader, FrameType, gen_frame_header, parse_frame, spec_parse_frame, spec_preface};
use crate::hpack_dec::{decode_header_block, new_decoder};
use crate::hpack_scan::block_safe;
use vstd::slice::{slice_index_get, slice_subrange};

verus! {

/// The I/O events the enclosing poller is asked to watch.
#[derive(Clone, Copy, Debug, PartialEq, Eq, Structural)]
pub struct Readiness {
    pub readable: bool,
    pub writable: bool,
    pub hup: bool,
    pub error: bool,
}

/// A frame queued for serialization: its header, and its payload when it has
/// one.
#[derive(Clone, Debug, PartialEq)]
pub struct OutputFrame {
    pub header: FrameHeader,
    pub payload: Option<Vec<u8>>,
}

/// The connection's discrete state.
#[derive(Clone, Copy, Debug, PartialEq, Eq, Structural)]
pub enum St {
    Init,
    ClientPrefaceReceived,
    ServerPrefaceSent,
}

/// The empty SETTINGS frame with the ACK flag, sent as the server preface.
pub open spec fn spec_settings_ack() -> FrameHeader {
    FrameHeader { payload_len: 0, frame_type: FrameType::Settings, flags: 1, stream_id: 0 }
}

/// Per-connection H/2 state. The invariant `wf` ties the interest set to the
/// output queue: `writable` is asked for exactly while a frame waits.
pub struct State {
    pub output: Vec<OutputFrame>,
    pub state: St,
    pub interest: Readiness,
    pub max_frame_size: u32,
    pub decoder: hpack::Decoder<'static>,
}

impl State {
    /// `writable` appears in the interest set iff the output queue is
    /// non-empty; every operation preserves this.
    pub open spec fn wf(self) -> bool {
        self.interest.writable <==> self.output@.len() > 0
    }

    /// What one `parse` call computes from the state and the input bytes:
    /// the state afterwards, the count of consumed bytes, and the recognised
    /// frame, if any. In `Init` a valid preface is consumed first; a frame
    /// error after a valid preface still consumes the preface and advances
    /// the state.
    pub open spec fn spec_parse(st: St, input: Seq<u8>, max: u32) -> (St, int, Option<
        (FrameHeader, Seq<u8>),
    >) {
        if st == St::Init {
            if input.len() >= 24 && input.take(24) == spec_preface() {
                match spec_parse_frame(input.skip(24), max) {
                    None => (St::ClientPrefaceReceived, 24, None),
                    Some(hc) => (
                        St::ClientPrefaceReceived,
                        24 + hc.1,
                        Some((hc.0, input.skip(24).subrange(9, hc.1))),
                    ),
                }
            } else {
                (St::Init, 0, None)
            }
        } else {
            match spec_parse_frame(input, max) {
                None => (st, 0, None),
                Some(hc) => (st, hc.1, Some((hc.0, input.subrange(9, hc.1)))),
            }
        }
    }

    pub fn new() -> (r: State)
        ensures
            r.wf(),
            r.state == St::Init,
            r.output@.len() == 0,
            r.interest == (Readiness { readable: true, writable: false, hup: true, error: true }),
            r.max_frame_size == 16384,
    {
        State {
            output: Vec::new(),
            state: St::Init,
            interest: Readiness { readable: true, writable: false, hup: true, error: true },
            max_frame_size: 16384,
            decoder: new_decoder(),
        }
    }

    /// Best-effort single-frame parse. Returns how many bytes were consumed
    /// from the head of `input` — never more than one frame and, when due,
    /// the preface — and the frame or a framing error. The caller keeps the
    /// unconsumed tail for the next call.
    pub fn parse<'a>(&mut self, input: &'a [u8]) -> (r: (usize, Result<Frame<'a>, ()>))
        ensures
            final(self).output == old(self).output,
            final(self).interest == old(self).interest,
            final(self).max_frame_size == old(self).max_frame_size,
            ({
                let (st2, c, f) = State::spec_parse(
                    old(self).state,
                    input@,
                    old(self).max_frame_size,
                );
                &&& final(self).state == st2
                &&& r.0 == c
                &&& match f {
                    Some(hp) => r.1 is Ok && r.1->Ok_0.header == hp.0 && r.1->Ok_0.payload@
                        == hp.1,
                    None => r.1 is Err,
                }
            }),
            r.0 <= input@.len(),
            r.1 is Ok ==> r.0 == (if old(self).state == St::Init {
                24int
            } else {
                0int
            }) + 9 + r.1->Ok_0.header.payload_len,
    {
        if self.state == St::Init {
            if !check_preface(input) {
                return (0, Err(()));
            }
            self.state = St::ClientPrefaceReceived;
            let rest = slice_subrange(input, 24, input.len());
            match parse_frame(rest, self.max_frame_size) {
                None => (24, Err(())),
                Some((h, p, c)) => ((24 + c, Ok(Frame { header: h, payload: p }))),
            }
        } else {
            match parse_frame(input, self.max_frame_size) {
                None => (0, Err(())),
                Some((h, p, c)) => ((c, Ok(Frame { header: h, payload: p }))),
            }
        }
    }

    /// Applies one frame to the state machine and says whether the caller
    /// should keep feeding. A SETTINGS frame right after the preface enqueues
    /// the SETTINGS-ACK and asks for writability; a HEADERS frame after the
    /// server preface runs through the connection's HPACK decoder; any frame
    /// a state does not accept is fatal for the connection and answered with
    /// `false`, the state left as it was.
    pub fn handle(&mut self, frame: &Frame) -> (keep: bool)
        requires
            old(self).wf(),
        ensures
            final(self).wf(),
            final(self).max_frame_size == old(self).max_frame_size,
            old(self).state == St::Init ==> final(self).output == old(self).output && final(self).state == old(self).state && final(self).interest == old(self).interest && keep
                == true,
            old(self).state == St::ClientPrefaceReceived ==> if frame.header.frame_type
                == FrameType::Settings {
                &&& final(self).state == St::ServerPrefaceSent
                &&& final(self).output@ == old(self).output@.push(
                    OutputFrame { header: spec_settings_ack(), payload: Option::None },
                )
                &&& final(self).interest == (Readiness {
                    writable: true,
                    ..old(self).interest
                })
                &&& keep == true
            } else {
                &&& final(self).output == old(self).output
                &&& final(self).state == old(self).state
                &&& final(self).interest == old(self).interest
                &&& keep == false
            },
            old(self).state == St::ServerPrefaceSent ==> final(self).output == old(self).output
                && final(self).state == old(self).state && final(self).interest == old(self).interest && keep == false,
    {
        match self.state {
            St::Init => true,
            St::ClientPrefaceReceived => {
                match frame.header.frame_type {
                    FrameType::Settings => {
                        let server_settings = OutputFrame {
                            header: FrameHeader {
                                payload_len: 0,
                                frame_type: FrameType::Settings,
                                flags: 1,
                                stream_id: 0,
                            },
                            payload: None,
                        };
                        self.output.push(server_settings);
                        self.state = St::ServerPrefaceSent;
                        self.interest.writable = true;
                        true
                    },
                    _ => false,
                }
            },
            St::ServerPrefaceSent => {
                match frame.header.frame_type {
                    FrameType::Headers => {
                        // the decoder must see every header block so that its
                        // dynamic table stays in step with the peer's encoder;
                        // a malformed block is ignored and the connection goes
                        // on. The hpack crate aborts on a malformed
                        // size-update integer instead of reporting it, so a
                        // block that would reach one is dropped undecoded —
                        // the decoder would have rejected it anyway
                        if block_safe(frame.payload) {
                            let _ = decode_header_block(&mut self.decoder, frame.payload);
                        }
                        false
                    },
                    _ => false,
                }
            },
        }
    }

    /// `parse` followed by `handle`; a parse error reports its consumed
    /// bytes and `false`.
    pub fn parse_and_handle(&mut self, input: &[u8]) -> (r: (usize, bool))
        requires
            old(self).wf(),
        ensures
            final(self).wf(),
            final(self).max_frame_size == old(self).max_frame_size,
            ({
                let (st2, c, f) = State::spec_parse(
                    old(self).state,
                    input@,
                    old(self).max_frame_size,
                );
                &&& r.0 == c
                &&& match f {
                    None => r.1 == false && final(self).state == st2 && final(self).output == old(self).output && final(self).interest == old(self).interest,
                    Some(hp) => if st2 == St::ClientPrefaceReceived && hp.0.frame_type
                        == FrameType::Settings {
                        &&& final(self).state == St::ServerPrefaceSent
                        &&& final(self).output@ == old(self).output@.push(
                            OutputFrame { header: spec_settings_ack(), payload: Option::None },
                        )
                        &&& final(self).interest == (Readiness {
                            writable: true,
                            ..old(self).interest
                        })
                        &&& r.1 == true
                    } else {
                        &&& final(self).state == st2
                        &&& final(self).output == old(self).output
                        &&& final(self).interest == old(self).interest
                        &&& r.1 == false
                    },
                }
            }),
    {
        let (sz, res) = self.parse(input);
        match res {
            Err(_) => (sz, false),
            Ok(frame) => (sz, self.handle(&frame)),
        }
    }

    /// Serializes the header of the frame at the head of the output queue
    /// into the first bytes of `output` and removes the frame from the
    /// queue; once the queue is empty, `writable` leaves the interest set.
    /// An empty queue writes nothing.
    pub fn gen(&mut self, output: &mut Vec<u8>) -> (r: Result<usize, ()>)
        requires
            old(self).wf(),
            old(self).output@.len() > 0 ==> old(output).len() >= 9,
        ensures
            final(self).wf(),
            final(self).state == old(self).state,
            final(self).max_frame_size == old(self).max_frame_size,
            final(output)@.len() == old(output)@.len(),
            old(self).output@.len() == 0 ==> {
                &&& r == Ok::<usize, ()>(0)
                &&& final(self).output == old(self).output
                &&& final(self).interest == old(self).interest
                &&& final(output)@ == old(output)@
            },
            old(self).output@.len() > 0 ==> {
                &&& r == Ok::<usize, ()>(9)
                &&& final(self).output@ == old(self).output@.skip(1)
                &&& final(self).interest == (Readiness {
                    writable: final(self).output@.len() > 0,
                    ..old(self).interest
                })
                &&& forall|i: int|
                    0 <= i < 9 ==> final(output)@[i] == crate::frame::spec_header_bytes(
                        old(self).output@[0].header,
                    )[i]
                &&& forall|i: int|
                    9 <= i < old(output)@.len() ==> final(output)@[i] == old(output)@[i]
            },
    {
        if self.output.len() == 0 {
            self.interest.writable = false;
            return Ok(0);
        }
        let f = self.output.remove(0);
        let n = gen_frame_header(output, &f.header);
        proof {
            assert(self.output@ =~= old(self).output@.skip(1));
        }
        if self.output.len() == 0 {
            self.interest.writable = false;
        } else {
            self.interest.writable = true;
        }
        Ok(n)
    }
}

/// Feeding in chunks equals feeding the concatenation: when one call on
/// `chunk` recognises a frame, the same call on `chunk + rest` recognises
/// the same frame after the same number of bytes and leaves the same state,
/// and the unconsumed tail carried into the next call is the tail of the
/// concatenation. Applied at every split point, the frames produced and the
/// bytes consumed over a chunked stream match a single feed of the whole,
/// as long as each call saw one complete frame.
pub proof fn lemma_parse_concat(st: St, chunk: Seq<u8>, rest: Seq<u8>, max: u32)
    requires
        State::spec_parse(st, chunk, max).2 is Some,
    ensures
        State::spec_parse(st, chunk + rest, max) == State::spec_parse(st, chunk, max),
        (chunk + rest).skip(State::spec_parse(st, chunk, max).1) == chunk.skip(
            State::spec_parse(st, chunk, max).1,
        ) + rest,
{
    let c = State::spec_parse(st, chunk, max).1;
    let t = chunk + rest;
    if st == St::Init {
        assert(chunk.len() >= 24 && chunk.take(24) == spec_preface());
        assert(t.take(24) =~= chunk.take(24));
        assert(t.skip(24) =~= chunk.skip(24) + rest);
        assert(spec_parse_frame(chunk.skip(24), max) is Some);
        let fc = spec_parse_frame(chunk.skip(24), max)->Some_0.1;
        crate::frame::lemma_parse_frame_extends(chunk.skip(24), rest, max);
        assert(9 + spec_parse_frame(chunk.skip(24), max)->Some_0.0.payload_len == fc);
        assert(fc <= chunk.skip(24).len());
        assert(c == 24 + fc);
        assert(t.skip(c) =~= chunk.skip(c) + rest);
    } else {
        assert(spec_parse_frame(chunk, max) is Some);
        let fc = spec_parse_frame(chunk, max)->Some_0.1;
        crate::frame::lemma_parse_frame_extends(chunk, rest, max);
        assert(fc <= chunk.len());
        assert(c == fc);
        assert(t.skip(c) =~= chunk.skip(c) + rest);
    }
}

/// The 24 preface bytes as a buffer.
fn preface_bytes() -> (v: Vec<u8>)
    ensures
        v@ == spec_preface(),
{
    let mut v: Vec<u8> = Vec::new();
    v.push(0x50);
    v.push(0x52);
    v.push(0x49);
    v.push(0x20);
    v.push(0x2a);
    v.push(0x20);
    v.push(0x48);
    v.push(0x54);
    v.push(0x54);
    v.push(0x50);
    v.push(0x2f);
    v.push(0x32);
    v.push(0x2e);
    v.push(0x30);
    v.push(0x0d);
    v.push(0x0a);
    v.push(0x0d);
    v.push(0x0a);
    v.push(0x53);
    v.push(0x4d);
    v.push(0x0d);
    v.push(0x0a);
    v.push(0x0d);
    v.push(0x0a);
    proof {
        assert(v@ =~= spec_preface());
    }
    v
}

/// True iff `input` starts with the 24-byte client preface.
fn check_preface(input: &[u8]) -> (r: bool)
    ensures
        r == (input@.len() >= 24 && input@.take(24) == spec_preface()),
{
    if input.len() < 24 {
        return false;
    }
    let p = preface_bytes();
    let mut i: usize = 0;
    while i < 24
        invariant
            0 <= i <= 24,
            input@.len() >= 24,
            p@ == spec_preface(),
            p@.len() == 24,
            forall|k: int| 0 <= k < i ==> input@[k] == spec_preface()[k],
        decreases 24 - i,
    {
        if *slice_index_get(input, i) != p[i] {
            proof {
                assert(input@.take(24)[i as int] != spec_preface()[i as int]);
            }
            return false;
        }
        i = i + 1;
    }
    proof {
        assert(input@.take(24) =~= spec_preface());
    }
    true
}

} // verus!

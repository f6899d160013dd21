//! The stream transport's wire format: each bundle travels as a 4-byte
//! big-endian length followed by exactly that many payload bytes. The
//! receiver answers `OK` after a decodable frame and `ERROR` after an
//! undecodable one, and a stream that ends at a frame boundary is a
//! clean close while one that ends mid-frame is not. The socket loops
//! live in the runtime shell; the byte-level rules stand here.

use vstd::prelude::*;

verus! {

/// The four big-endian bytes of a 32-bit length.
pub open spec fn be32_bytes(n: u32) -> Seq<u8> {
    seq![(n >> 24) as u8, (n >> 16) as u8, (n >> 8) as u8, n as u8]
}

/// The 32-bit value read from four big-endian bytes.
pub open spec fn be32_value(b0: u8, b1: u8, b2: u8, b3: u8) -> u32 {
    ((b0 as u32) << 24) | ((b1 as u32) << 16) | ((b2 as u32) << 8) | (b3 as u32)
}

/// Writing a length and reading it back gives the length; reading four
/// bytes and writing the value back gives the bytes.
pub proof fn lemma_be32_round_trip(n: u32, b0: u8, b1: u8, b2: u8, b3: u8)
    ensures
        be32_value((n >> 24) as u8, (n >> 16) as u8, (n >> 8) as u8, n as u8) == n,
        be32_bytes(be32_value(b0, b1, b2, b3)) =~= seq![b0, b1, b2, b3],
{
    assert((((n >> 24) as u8 as u32) << 24) | (((n >> 16) as u8 as u32) << 16) | (((n
        >> 8) as u8 as u32) << 8) | (n as u8 as u32) == n) by (bit_vector);
    let v = be32_value(b0, b1, b2, b3);
    assert({
        let v2 = ((b0 as u32) << 24) | ((b1 as u32) << 16) | ((b2 as u32) << 8) | (b3 as u32);
        (v2 >> 24) as u8 == b0 && (v2 >> 16) as u8 == b1 && (v2 >> 8) as u8 == b2 && v2 as u8
            == b3
    }) by (bit_vector);
}

/// One frame: the body's length as four big-endian bytes, then the body.
pub open spec fn frame_bytes(body: Seq<u8>) -> Seq<u8> {
    be32_bytes(body.len() as u32) + body
}

/// Serialize the length prefix of a frame.
pub fn u32_to_be_bytes(n: u32) -> (r: Vec<u8>)
    ensures
        r@ == be32_bytes(n),
{
    let mut r: Vec<u8> = Vec::new();
    assert(n >> 24 < 256 && n >> 16 < 65536 && n >> 8 < 16777216) by (bit_vector);
    r.push((n >> 24) as u8);
    r.push((n >> 16) as u8);
    r.push((n >> 8) as u8);
    r.push(n as u8);
    proof {
        assert(r@ =~= be32_bytes(n));
    }
    r
}

/// Read a length prefix.
pub fn u32_from_be_bytes(b0: u8, b1: u8, b2: u8, b3: u8) -> (r: u32)
    ensures
        r == be32_value(b0, b1, b2, b3),
{
    ((b0 as u32) << 24) | ((b1 as u32) << 16) | ((b2 as u32) << 8) | (b3 as u32)
}

/// Frame a body for sending: length prefix, then the body bytes.
pub fn encode_frame(body: &Vec<u8>) -> (r: Vec<u8>)
    requires
        body@.len() <= u32::MAX,
    ensures
        r@ == frame_bytes(body@),
{
    let len: u32 = body.len() as u32;
    let mut r = u32_to_be_bytes(len);
    crate::text::push_all(&mut r, body.as_slice());
    r
}

/// The acknowledgment the receiver writes: `OK` after a frame whose
/// body decoded, `ERROR` after one that did not.
pub fn ack_bytes(decode_ok: bool) -> (r: Vec<u8>)
    ensures
        decode_ok ==> r@ == "OK"@.map_values(|c: char| c as u8),
        !decode_ok ==> r@ == "ERROR"@.map_values(|c: char| c as u8),
{
    proof {
        reveal_strlit("OK");
        reveal_strlit("ERROR");
    }
    let mut r: Vec<u8> = Vec::new();
    if decode_ok {
        r.push(79);
        r.push(75);
        proof {
            assert(r@ =~= "OK"@.map_values(|c: char| c as u8));
        }
    } else {
        r.push(69);
        r.push(82);
        r.push(82);
        r.push(79);
        r.push(82);
        proof {
            assert(r@ =~= "ERROR"@.map_values(|c: char| c as u8));
        }
    }
    r
}

/// The complete frame bodies at the front of a byte stream, in order:
/// a length prefix followed by that many bytes yields one body, and
/// parsing continues behind it; a missing or short tail yields nothing
/// further.
pub open spec fn spec_frames(s: Seq<u8>) -> Seq<Seq<u8>>
    decreases s.len(),
{
    if s.len() < 4 {
        seq![]
    } else {
        let len = be32_value(s[0], s[1], s[2], s[3]) as int;
        if 4 + len <= s.len() {
            seq![s.subrange(4, 4 + len)] + spec_frames(s.skip(4 + len))
        } else {
            seq![]
        }
    }
}

/// Whether the stream ends cleanly: at a frame boundary, with no
/// partial length prefix and no partial body left over.
pub open spec fn spec_clean_eof(s: Seq<u8>) -> bool
    decreases s.len(),
{
    if s.len() == 0 {
        true
    } else if s.len() < 4 {
        false
    } else {
        let len = be32_value(s[0], s[1], s[2], s[3]) as int;
        if 4 + len <= s.len() {
            spec_clean_eof(s.skip(4 + len))
        } else {
            false
        }
    }
}

/// What a receiver finds in a byte stream: the decoded frame bodies and
/// whether the stream ended at a frame boundary.
pub struct FrameSplit {
    pub frames: Vec<Vec<u8>>,
    pub clean_eof: bool,
}

/// Split a received byte stream into its complete frame bodies, and say
/// whether it ended cleanly. This is the framing loop of the receive
/// side, applied to the bytes one connection delivered.
pub fn split_frames(input: &[u8]) -> (r: FrameSplit)
    ensures
        r.frames@.map_values(|f: Vec<u8>| f@) == spec_frames(input@),
        r.clean_eof == spec_clean_eof(input@),
{
    let mut frames: Vec<Vec<u8>> = Vec::new();
    let mut pos: usize = 0;
    let n = input.len();
    proof {
        assert(input@.skip(0) =~= input@);
    }
    loop
        invariant
            pos <= n,
            n == input@.len(),
            spec_frames(input@) =~= frames@.map_values(|f: Vec<u8>| f@) + spec_frames(
                input@.skip(pos as int),
            ),
            spec_clean_eof(input@) == spec_clean_eof(input@.skip(pos as int)),
        decreases n - pos,
    {
        let ghost rest = input@.skip(pos as int);
        if n - pos < 4 {
            proof {
                if pos == n {
                    assert(rest =~= Seq::<u8>::empty());
                    assert(spec_clean_eof(rest));
                } else {
                    assert(rest.len() > 0);
                    assert(!spec_clean_eof(rest));
                }
                assert(spec_frames(rest) =~= Seq::<Seq<u8>>::empty());
            }
            if pos != n {
                return FrameSplit { frames, clean_eof: false };
            }
            return FrameSplit { frames, clean_eof: true };
        }
        let len32 = u32_from_be_bytes(input[pos], input[pos + 1], input[pos + 2], input[pos + 3]);
        let len = len32 as usize;
        proof {
            assert(rest[0] == input@[pos as int] && rest[1] == input@[pos + 1] && rest[2]
                == input@[pos + 2] && rest[3] == input@[pos + 3]);
        }
        if len > n - pos - 4 {
            proof {
                assert(4 + len32 as int > rest.len());
                assert(spec_frames(rest) =~= Seq::<Seq<u8>>::empty());
                assert(!spec_clean_eof(rest));
            }
            return FrameSplit { frames, clean_eof: false };
        }
        let mut body: Vec<u8> = Vec::new();
        let body_start = pos + 4;
        for i in 0..len
            invariant
                body_start + len <= n,
                n == input@.len(),
                body@ =~= input@.subrange(body_start as int, body_start + i),
        {
            body.push(input[body_start + i]);
            proof {
                assert(input@.subrange(body_start as int, body_start + i + 1) =~= input@
                    .subrange(body_start as int, body_start + i).push(
                    input@[body_start + i],
                ));
            }
        }
        proof {
            assert(body@ =~= rest.subrange(4, 4 + len32 as int));
            assert(rest.skip(4 + len32 as int) =~= input@.skip(pos + 4 + len32 as int));
            assert(spec_frames(rest) =~= seq![rest.subrange(4, 4 + len32 as int)] + spec_frames(
                rest.skip(4 + len32 as int),
            ));
            assert(spec_clean_eof(rest) == spec_clean_eof(rest.skip(4 + len32 as int)));
        }
        frames.push(body);
        pos = pos + 4 + len;
        proof {
            assert(frames@.map_values(|f: Vec<u8>| f@) =~= frames@.subrange(
                0,
                frames@.len() - 1,
            ).map_values(|f: Vec<u8>| f@).push(frames@.last()@));
        }
    }
}

/// The framing round trip: a stream that carries one well-formed frame
/// and then anything further parses as that frame's body followed by
/// whatever the remainder parses as, and it ends cleanly exactly when
/// the remainder does. In particular a single encoded frame parses back
/// to its body, with a clean end.
pub proof fn lemma_frames_round_trip(body: Seq<u8>, rest: Seq<u8>)
    requires
        body.len() <= u32::MAX,
    ensures
        spec_frames(frame_bytes(body) + rest) =~= seq![body] + spec_frames(rest),
        spec_clean_eof(frame_bytes(body) + rest) == spec_clean_eof(rest),
        spec_frames(frame_bytes(body)) =~= seq![body],
        spec_clean_eof(frame_bytes(body)),
{
    let n = body.len() as u32;
    let s = frame_bytes(body) + rest;
    lemma_be32_round_trip(n, 0, 0, 0, 0);
    assert(s[0] == (n >> 24) as u8 && s[1] == (n >> 16) as u8 && s[2] == (n >> 8) as u8 && s[3]
        == n as u8);
    assert(be32_value(s[0], s[1], s[2], s[3]) == n);
    assert(4 + n as int <= s.len());
    assert(s.subrange(4, 4 + n as int) =~= body);
    assert(s.skip(4 + n as int) =~= rest);
    assert(spec_frames(s) =~= seq![body] + spec_frames(rest));
    let s0 = frame_bytes(body);
    assert(s0[0] == (n >> 24) as u8 && s0[1] == (n >> 16) as u8 && s0[2] == (n >> 8) as u8
        && s0[3] == n as u8);
    assert(be32_value(s0[0], s0[1], s0[2], s0[3]) == n);
    assert(4 + n as int <= s0.len());
    assert(s0.subrange(4, 4 + n as int) =~= body);
    assert(s0.skip(4 + n as int) =~= Seq::<u8>::empty());
    assert(spec_frames(Seq::<u8>::empty()) =~= Seq::<Seq<u8>>::empty());
    assert(spec_clean_eof(Seq::<u8>::empty()));
    assert(spec_frames(s0) =~= seq![body] + spec_frames(Seq::<u8>::empty()));
    assert(spec_clean_eof(s0) == spec_clean_eof(Seq::<u8>::empty()));
}

} // verus!

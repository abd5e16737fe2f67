//! Wire frames: `channel (u16 LE) | request id (u32 LE) | outcome (u8) |
//! length (u32 LE) | payload`.

use vstd::prelude::*;

verus! {

/// Number of bytes before the payload of a frame.
pub const HEADER_LEN: usize = 11;

/// Little-endian bytes of a `u16`.
pub open spec fn u16_le(x: u16) -> Seq<u8> {
    seq![(x & 0xff) as u8, (x >> 8u16) as u8]
}

/// Little-endian bytes of a `u32`.
pub open spec fn u32_le(x: u32) -> Seq<u8> {
    seq![(x & 0xff) as u8, ((x >> 8u32) & 0xff) as u8, ((x >> 16u32) & 0xff) as u8, (x >> 24u32) as u8]
}

pub open spec fn u16_from_le(b0: u8, b1: u8) -> u16 {
    (b0 as u16) | ((b1 as u16) << 8u16)
}

pub open spec fn u32_from_le(b0: u8, b1: u8, b2: u8, b3: u8) -> u32 {
    (b0 as u32) | ((b1 as u32) << 8u32) | ((b2 as u32) << 16u32) | ((b3 as u32) << 24u32)
}

/// The bytes of one frame.
pub open spec fn frame_bytes(channel: u16, request_id: u32, outcome: u8, payload: Seq<u8>) -> Seq<u8> {
    u16_le(channel) + u32_le(request_id) + seq![outcome] + u32_le(payload.len() as u32) + payload
}

proof fn lemma_u16_round_trip(x: u16)
    ensures
        u16_from_le((x & 0xff) as u8, (x >> 8u16) as u8) == x,
{
    assert(((((x & 0xff) as u8) as u16) | ((((x >> 8u16) as u8) as u16) << 8u16)) == x) by (bit_vector);
}

proof fn lemma_u32_round_trip(x: u32)
    ensures
        u32_from_le(
            (x & 0xff) as u8,
            ((x >> 8u32) & 0xff) as u8,
            ((x >> 16u32) & 0xff) as u8,
            (x >> 24u32) as u8,
        ) == x,
{
    assert(((((x & 0xff) as u8) as u32) | (((((x >> 8u32) & 0xff) as u8) as u32) << 8u32) | (((((x
        >> 16u32) & 0xff) as u8) as u32) << 16u32) | ((((x >> 24u32) as u8) as u32) << 24u32)) == x)
        by (bit_vector);
}


/// What `decode_frame` found at the start of a buffer, over plain values.
pub enum DecodeView {
    Complete { channel: u16, request_id: u32, outcome: u8, payload: Seq<u8>, consumed: nat },
    Incomplete,
    Corrupt(FrameError),
}

/// Why a frame can never become valid, whatever bytes follow.
#[derive(Clone, Copy, Debug, PartialEq, Eq, Structural)]
pub enum FrameError {
    /// The channel id is not below the number of configured channels.
    UnknownChannel,
    /// The length field exceeds the largest payload accepted.
    PayloadTooLarge,
}

pub open spec fn header_channel(b: Seq<u8>) -> u16 {
    u16_from_le(b[0], b[1])
}

pub open spec fn header_request_id(b: Seq<u8>) -> u32 {
    u32_from_le(b[2], b[3], b[4], b[5])
}

pub open spec fn header_outcome(b: Seq<u8>) -> u8 {
    b[6]
}

pub open spec fn header_length(b: Seq<u8>) -> u32 {
    u32_from_le(b[7], b[8], b[9], b[10])
}

/// Decoding of the first frame of `b`: incomplete while the header or the
/// announced payload has not fully arrived; corrupt as soon as the header
/// names an unknown channel or an oversized payload.
/// `max_payloads[c]` is the largest payload accepted on channel `c`.
pub open spec fn decode_spec(b: Seq<u8>, max_payloads: Seq<u32>) -> DecodeView {
    if b.len() < HEADER_LEN {
        DecodeView::Incomplete
    } else if header_channel(b) >= max_payloads.len() {
        DecodeView::Corrupt(FrameError::UnknownChannel)
    } else if header_length(b) > max_payloads[header_channel(b) as int] {
        DecodeView::Corrupt(FrameError::PayloadTooLarge)
    } else if b.len() < HEADER_LEN + header_length(b) {
        DecodeView::Incomplete
    } else {
        DecodeView::Complete {
            channel: header_channel(b),
            request_id: header_request_id(b),
            outcome: header_outcome(b),
            payload: b.subrange(HEADER_LEN as int, HEADER_LEN + header_length(b)),
            consumed: (HEADER_LEN + header_length(b)) as nat,
        }
    }
}

/// One decoded frame.
pub struct Frame {
    pub channel: u16,
    pub request_id: u32,
    pub outcome: u8,
    pub payload: Vec<u8>,
}

/// Result of looking for a frame at the start of a buffer.
pub enum Decoded {
    /// A whole frame, which took `consumed` bytes of the buffer.
    Complete { frame: Frame, consumed: usize },
    /// More bytes are needed; not an error.
    Incomplete,
    /// The stream cannot be parsed any further.
    Corrupt(FrameError),
}

impl View for Decoded {
    type V = DecodeView;

    open spec fn view(&self) -> DecodeView {
        match self {
            Decoded::Complete { frame, consumed } => DecodeView::Complete {
                channel: frame.channel,
                request_id: frame.request_id,
                outcome: frame.outcome,
                payload: frame.payload@,
                consumed: *consumed as nat,
            },
            Decoded::Incomplete => DecodeView::Incomplete,
            Decoded::Corrupt(e) => DecodeView::Corrupt(*e),
        }
    }
}

fn push_u16_le(out: &mut Vec<u8>, x: u16)
    ensures
        final(out)@ == old(out)@ + u16_le(x),
{
    out.push((x & 0xff) as u8);
    out.push((x >> 8u16) as u8);
    assert(final(out)@ =~= old(out)@ + u16_le(x));
}

fn push_u32_le(out: &mut Vec<u8>, x: u32)
    ensures
        final(out)@ == old(out)@ + u32_le(x),
{
    out.push((x & 0xff) as u8);
    out.push(((x >> 8u32) & 0xff) as u8);
    out.push(((x >> 16u32) & 0xff) as u8);
    out.push((x >> 24u32) as u8);
    assert(final(out)@ =~= old(out)@ + u32_le(x));
}

/// Encodes one frame. The encoding is deterministic and carries the payload
/// length, so that frame boundaries can be found again in a byte stream.
pub fn encode_frame(channel: u16, request_id: u32, outcome: u8, payload: &[u8]) -> (r: Vec<u8>)
    requires
        payload@.len() <= u32::MAX,
    ensures
        r@ == frame_bytes(channel, request_id, outcome, payload@),
{
    let mut out: Vec<u8> = Vec::new();
    push_u16_le(&mut out, channel);
    push_u32_le(&mut out, request_id);
    out.push(outcome);
    push_u32_le(&mut out, payload.len() as u32);
    let ghost head = out@;
    let mut i: usize = 0;
    while i < payload.len()
        invariant
            i <= payload@.len(),
            out@ == head + payload@.subrange(0, i as int),
        decreases payload@.len() - i,
    {
        out.push(payload[i]);
        i += 1;
        assert(out@ =~= head + payload@.subrange(0, i as int));
    }
    assert(payload@.subrange(0, payload@.len() as int) =~= payload@);
    out
}

/// Looks for one frame at the start of `buf`; channel `c` accepts payloads
/// of at most `max_payloads[c]` bytes.
pub fn decode_frame(buf: &[u8], max_payloads: &[u32]) -> (r: Decoded)
    ensures
        r@ == decode_spec(buf@, max_payloads@),
{
    if buf.len() < HEADER_LEN {
        return Decoded::Incomplete;
    }
    let channel: u16 = (buf[0] as u16) | ((buf[1] as u16) << 8u16);
    let request_id: u32 = (buf[2] as u32) | ((buf[3] as u32) << 8u32) | ((buf[4] as u32) << 16u32)
        | ((buf[5] as u32) << 24u32);
    let outcome: u8 = buf[6];
    let length: u32 = (buf[7] as u32) | ((buf[8] as u32) << 8u32) | ((buf[9] as u32) << 16u32) | ((
    buf[10] as u32) << 24u32);
    if channel as usize >= max_payloads.len() {
        return Decoded::Corrupt(FrameError::UnknownChannel);
    }
    if length > max_payloads[channel as usize] {
        return Decoded::Corrupt(FrameError::PayloadTooLarge);
    }
    let len: usize = length as usize;
    if buf.len() - HEADER_LEN < len {
        return Decoded::Incomplete;
    }
    let mut payload: Vec<u8> = Vec::new();
    let mut i: usize = 0;
    while i < len
        invariant
            i <= len,
            HEADER_LEN + len <= buf.len(),
            payload@ == buf@.subrange(HEADER_LEN as int, HEADER_LEN + i),
        decreases len - i,
    {
        payload.push(buf[HEADER_LEN + i]);
        i += 1;
        assert(payload@ =~= buf@.subrange(HEADER_LEN as int, HEADER_LEN + i));
    }
    Decoded::Complete {
        frame: Frame { channel, request_id, outcome, payload },
        consumed: HEADER_LEN + len,
    }
}

/// Decoding an encoded frame, whatever bytes follow it, gives back its
/// channel, request id, outcome and payload, and consumes exactly its bytes.
pub proof fn lemma_frame_round_trip(
    channel: u16,
    request_id: u32,
    outcome: u8,
    payload: Seq<u8>,
    rest: Seq<u8>,
    max_payloads: Seq<u32>,
)
    requires
        channel < max_payloads.len(),
        payload.len() <= max_payloads[channel as int],
    ensures
        decode_spec(frame_bytes(channel, request_id, outcome, payload) + rest, max_payloads)
            == (DecodeView::Complete {
            channel,
            request_id,
            outcome,
            payload,
            consumed: (HEADER_LEN + payload.len()) as nat,
        }),
{
    let b = frame_bytes(channel, request_id, outcome, payload) + rest;
    let len = payload.len() as u32;
    lemma_u16_round_trip(channel);
    lemma_u32_round_trip(request_id);
    lemma_u32_round_trip(len);
    assert(b[0] == (channel & 0xff) as u8);
    assert(b[1] == (channel >> 8u16) as u8);
    assert(b[2] == (request_id & 0xff) as u8);
    assert(b[3] == ((request_id >> 8u32) & 0xff) as u8);
    assert(b[4] == ((request_id >> 16u32) & 0xff) as u8);
    assert(b[5] == (request_id >> 24u32) as u8);
    assert(b[6] == outcome);
    assert(b[7] == (len & 0xff) as u8);
    assert(b[8] == ((len >> 8u32) & 0xff) as u8);
    assert(b[9] == ((len >> 16u32) & 0xff) as u8);
    assert(b[10] == (len >> 24u32) as u8);
    assert(header_length(b) == payload.len());
    assert(b.subrange(HEADER_LEN as int, HEADER_LEN + payload.len()) =~= payload);
}

} // verus!

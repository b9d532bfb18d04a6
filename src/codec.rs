//! Binary data frames: `[opcode 1][u32 subscription id][u64 timestamp ns][payload]`,
//! integers little-endian.

use vstd::prelude::*;

verus! {

/// Op code of a "message data" frame.
pub const MESSAGE_DATA_OPCODE: u8 = 1;

/// Number of bytes in front of the payload of a data frame.
pub const DATA_FRAME_HEADER_LEN: usize = 13;

/// The four little-endian bytes of `x`.
pub open spec fn le_u32(x: u32) -> Seq<u8> {
    seq![(x & 0xff) as u8, ((x >> 8u32) & 0xff) as u8, ((x >> 16u32) & 0xff) as u8, ((x >> 24u32) & 0xff) as u8]
}

/// The eight little-endian bytes of `x`.
pub open spec fn le_u64(x: u64) -> Seq<u8> {
    seq![
        (x & 0xff) as u8,
        ((x >> 8u64) & 0xff) as u8,
        ((x >> 16u64) & 0xff) as u8,
        ((x >> 24u64) & 0xff) as u8,
        ((x >> 32u64) & 0xff) as u8,
        ((x >> 40u64) & 0xff) as u8,
        ((x >> 48u64) & 0xff) as u8,
        ((x >> 56u64) & 0xff) as u8,
    ]
}

/// The bytes of a data frame carrying `payload` for subscription `sub` at `timestamp_ns`.
pub open spec fn data_frame(sub: u32, timestamp_ns: u64, payload: Seq<u8>) -> Seq<u8> {
    seq![MESSAGE_DATA_OPCODE] + le_u32(sub) + le_u64(timestamp_ns) + payload
}

/// The little-endian `u32` held by the four bytes of `b` from `at` on.
pub open spec fn read_le_u32(b: Seq<u8>, at: int) -> u32 {
    (b[at] as u32) | ((b[at + 1] as u32) << 8u32) | ((b[at + 2] as u32) << 16u32) | ((b[at + 3]
        as u32) << 24u32)
}

/// The little-endian `u64` held by the eight bytes of `b` from `at` on.
pub open spec fn read_le_u64(b: Seq<u8>, at: int) -> u64 {
    (b[at] as u64) | ((b[at + 1] as u64) << 8u64) | ((b[at + 2] as u64) << 16u64) | ((b[at + 3]
        as u64) << 24u64) | ((b[at + 4] as u64) << 32u64) | ((b[at + 5] as u64) << 40u64) | ((b[at
        + 6] as u64) << 48u64) | ((b[at + 7] as u64) << 56u64)
}

/// What a well-formed data frame holds: its subscription id, timestamp and payload.
pub open spec fn parse_data_frame(b: Seq<u8>) -> Option<(u32, u64, Seq<u8>)> {
    if b.len() >= DATA_FRAME_HEADER_LEN && b[0] == MESSAGE_DATA_OPCODE {
        Some((read_le_u32(b, 1), read_le_u64(b, 5), b.subrange(DATA_FRAME_HEADER_LEN as int, b.len() as int)))
    } else {
        None
    }
}

proof fn lemma_u32_bytes(x: u32)
    ensures
        read_le_u32(le_u32(x), 0) == x,
{
    let s = le_u32(x);
    let b0 = x & 0xff;
    let b1 = (x >> 8u32) & 0xff;
    let b2 = (x >> 16u32) & 0xff;
    let b3 = (x >> 24u32) & 0xff;
    assert(b0 < 256 && b1 < 256 && b2 < 256 && b3 < 256) by (bit_vector)
        requires
            b0 == x & 0xff,
            b1 == (x >> 8u32) & 0xff,
            b2 == (x >> 16u32) & 0xff,
            b3 == (x >> 24u32) & 0xff,
    ;
    assert(s[0] as u32 == b0 && s[1] as u32 == b1 && s[2] as u32 == b2 && s[3] as u32 == b3);
    assert(b0 | (b1 << 8u32) | (b2 << 16u32) | (b3 << 24u32) == x) by (bit_vector)
        requires
            b0 == x & 0xff,
            b1 == (x >> 8u32) & 0xff,
            b2 == (x >> 16u32) & 0xff,
            b3 == (x >> 24u32) & 0xff,
    ;
}

proof fn lemma_u64_bytes(x: u64)
    ensures
        read_le_u64(le_u64(x), 0) == x,
{
    let s = le_u64(x);
    let b0 = x & 0xff;
    let b1 = (x >> 8u64) & 0xff;
    let b2 = (x >> 16u64) & 0xff;
    let b3 = (x >> 24u64) & 0xff;
    let b4 = (x >> 32u64) & 0xff;
    let b5 = (x >> 40u64) & 0xff;
    let b6 = (x >> 48u64) & 0xff;
    let b7 = (x >> 56u64) & 0xff;
    assert(b0 < 256 && b1 < 256 && b2 < 256 && b3 < 256 && b4 < 256 && b5 < 256 && b6 < 256
        && b7 < 256) by (bit_vector)
        requires
            b0 == x & 0xff,
            b1 == (x >> 8u64) & 0xff,
            b2 == (x >> 16u64) & 0xff,
            b3 == (x >> 24u64) & 0xff,
            b4 == (x >> 32u64) & 0xff,
            b5 == (x >> 40u64) & 0xff,
            b6 == (x >> 48u64) & 0xff,
            b7 == (x >> 56u64) & 0xff,
    ;
    assert(s[0] as u64 == b0 && s[1] as u64 == b1 && s[2] as u64 == b2 && s[3] as u64 == b3);
    assert(s[4] as u64 == b4 && s[5] as u64 == b5 && s[6] as u64 == b6 && s[7] as u64 == b7);
    assert(b0 | (b1 << 8u64) | (b2 << 16u64) | (b3 << 24u64) | (b4 << 32u64) | (b5 << 40u64) | (b6
        << 48u64) | (b7 << 56u64) == x) by (bit_vector)
        requires
            b0 == x & 0xff,
            b1 == (x >> 8u64) & 0xff,
            b2 == (x >> 16u64) & 0xff,
            b3 == (x >> 24u64) & 0xff,
            b4 == (x >> 32u64) & 0xff,
            b5 == (x >> 40u64) & 0xff,
            b6 == (x >> 48u64) & 0xff,
            b7 == (x >> 56u64) & 0xff,
    ;
}

/// Decoding the frame built for `(sub, timestamp_ns, payload)` gives back exactly that triple.
pub proof fn lemma_data_frame_round_trip(sub: u32, timestamp_ns: u64, payload: Seq<u8>)
    ensures
        parse_data_frame(data_frame(sub, timestamp_ns, payload)) == Some((sub, timestamp_ns, payload)),
{
    let f = data_frame(sub, timestamp_ns, payload);
    lemma_u32_bytes(sub);
    lemma_u64_bytes(timestamp_ns);
    assert(f.subrange(1, 5) =~= le_u32(sub));
    assert(f.subrange(5, 13) =~= le_u64(timestamp_ns));
    assert(read_le_u32(f, 1) == read_le_u32(le_u32(sub), 0));
    assert(read_le_u64(f, 5) == read_le_u64(le_u64(timestamp_ns), 0));
    assert(f.subrange(13, f.len() as int) =~= payload);
}

/// Builds the data frame that carries `payload` to the subscription `subscription_id`.
pub fn encode_message_data(subscription_id: u32, timestamp_ns: u64, payload: &[u8]) -> (r: Vec<u8>)
    requires
        payload@.len() + DATA_FRAME_HEADER_LEN <= usize::MAX,
    ensures
        r@ == data_frame(subscription_id, timestamp_ns, payload@),
{
    let mut buffer: Vec<u8> = Vec::with_capacity(DATA_FRAME_HEADER_LEN + payload.len());
    buffer.push(MESSAGE_DATA_OPCODE);
    buffer.push((subscription_id & 0xff) as u8);
    buffer.push(((subscription_id >> 8u32) & 0xff) as u8);
    buffer.push(((subscription_id >> 16u32) & 0xff) as u8);
    buffer.push(((subscription_id >> 24u32) & 0xff) as u8);
    buffer.push((timestamp_ns & 0xff) as u8);
    buffer.push(((timestamp_ns >> 8u64) & 0xff) as u8);
    buffer.push(((timestamp_ns >> 16u64) & 0xff) as u8);
    buffer.push(((timestamp_ns >> 24u64) & 0xff) as u8);
    buffer.push(((timestamp_ns >> 32u64) & 0xff) as u8);
    buffer.push(((timestamp_ns >> 40u64) & 0xff) as u8);
    buffer.push(((timestamp_ns >> 48u64) & 0xff) as u8);
    buffer.push(((timestamp_ns >> 56u64) & 0xff) as u8);
    let ghost header = buffer@;
    assert(header =~= seq![MESSAGE_DATA_OPCODE] + le_u32(subscription_id) + le_u64(timestamp_ns));
    let mut i: usize = 0;
    while i < payload.len()
        invariant
            i <= payload@.len(),
            buffer@ == header + payload@.subrange(0, i as int),
        decreases payload@.len() - i,
    {
        buffer.push(payload[i]);
        i = i + 1;
        assert(buffer@ =~= header + payload@.subrange(0, i as int));
    }
    assert(payload@.subrange(0, payload@.len() as int) =~= payload@);
    buffer
}

/// Reads a data frame back into its subscription id, timestamp and payload; `None` when the
/// bytes are shorter than the header or do not start with the data op code.
pub fn decode_message_data(frame: &[u8]) -> (r: Option<(u32, u64, Vec<u8>)>)
    ensures
        match (r, parse_data_frame(frame@)) {
            (Some((s, t, p)), Some((s2, t2, p2))) => s == s2 && t == t2 && p@ == p2,
            (None, None) => true,
            _ => false,
        },
{
    if frame.len() < DATA_FRAME_HEADER_LEN || frame[0] != MESSAGE_DATA_OPCODE {
        return None;
    }
    let sub: u32 = (frame[1] as u32) | ((frame[2] as u32) << 8u32) | ((frame[3] as u32) << 16u32)
        | ((frame[4] as u32) << 24u32);
    let ts: u64 = (frame[5] as u64) | ((frame[6] as u64) << 8u64) | ((frame[7] as u64) << 16u64)
        | ((frame[8] as u64) << 24u64) | ((frame[9] as u64) << 32u64) | ((frame[10] as u64) << 40u64)
        | ((frame[11] as u64) << 48u64) | ((frame[12] as u64) << 56u64);
    let mut payload: Vec<u8> = Vec::new();
    let mut i: usize = DATA_FRAME_HEADER_LEN;
    while i < frame.len()
        invariant
            DATA_FRAME_HEADER_LEN <= i <= frame@.len(),
            payload@ == frame@.subrange(DATA_FRAME_HEADER_LEN as int, i as int),
        decreases frame@.len() - i,
    {
        payload.push(frame[i]);
        i = i + 1;
        assert(payload@ =~= frame@.subrange(DATA_FRAME_HEADER_LEN as int, i as int));
    }
    Some((sub, ts, payload))
}

} // verus!

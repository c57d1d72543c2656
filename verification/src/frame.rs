//! Framing of messages on the socket: each encoded message is preceded by
//! its length as a 4-byte big-endian number.
use vstd::prelude::*;

verus! {

/// `n` as four big-endian bytes.
pub open spec fn be_bytes(n: u32) -> Seq<u8> {
    seq![
        (n / 0x1000000) as u8,
        ((n / 0x10000) % 0x100) as u8,
        ((n / 0x100) % 0x100) as u8,
        (n % 0x100) as u8,
    ]
}

/// The number that four big-endian bytes stand for.
pub open spec fn be_value(b: Seq<u8>) -> nat
    recommends
        b.len() == 4,
{
    (b[0] as nat) * 0x1000000 + (b[1] as nat) * 0x10000 + (b[2] as nat) * 0x100 + (b[3] as nat)
}

/// The length field of a payload of `len` bytes: the length cut to 32 bits,
/// as a `u32` cast cuts it.
pub open spec fn length_field(len: nat) -> u32 {
    (len % 0x1_0000_0000) as u32
}

/// A payload preceded by its length field.
pub open spec fn frame(payload: Seq<u8>) -> Seq<u8> {
    be_bytes(length_field(payload.len())) + payload
}

/// Reading back the bytes of a number gives the number.
pub proof fn lemma_be_roundtrip(n: u32)
    ensures
        be_value(be_bytes(n)) == n,
{
    let c0: u32 = n / 0x1000000;
    let c1: u32 = (n / 0x10000) % 0x100;
    let c2: u32 = (n / 0x100) % 0x100;
    let c3: u32 = n % 0x100;
    assert(c0 * 0x1000000 + c1 * 0x10000 + c2 * 0x100 + c3 == n && c0 < 0x100) by (bit_vector)
        requires
            c0 == n / 0x1000000,
            c1 == (n / 0x10000) % 0x100,
            c2 == (n / 0x100) % 0x100,
            c3 == n % 0x100,
    ;
}

/// Puts the length field in front of a payload.
pub fn encode_frame(payload: &[u8]) -> (f: Vec<u8>)
    ensures
        f@ == frame(payload@),
{
    let len: u64 = payload.len() as u64;
    let n: u32 = (len % 0x1_0000_0000) as u32;
    let mut f: Vec<u8> = Vec::with_capacity(payload.len());
    f.push((n / 0x1000000) as u8);
    f.push(((n / 0x10000) % 0x100) as u8);
    f.push(((n / 0x100) % 0x100) as u8);
    f.push((n % 0x100) as u8);
    let mut i: usize = 0;
    while i < payload.len()
        invariant
            i <= payload@.len(),
            f@ == be_bytes(n) + payload@.take(i as int),
            n == length_field(payload@.len()),
        decreases payload@.len() - i,
    {
        f.push(payload[i]);
        assert(payload@.take(i + 1) =~= payload@.take(i as int).push(payload@[i as int]));
        i = i + 1;
    }
    assert(payload@.take(payload@.len() as int) =~= payload@);
    f
}

/// The payload length that a 4-byte length field announces.
pub fn frame_payload_len(header: &[u8; 4]) -> (n: u32)
    ensures
        n == be_value(header@),
        n as int == (header@[0] as int) * 16777216 + (header@[1] as int) * 65536 + (header@[2] as int)
            * 256 + (header@[3] as int),
{
    let n: u32 = (header[0] as u32) * 0x1000000 + (header[1] as u32) * 0x10000 + (header[2] as u32)
        * 0x100 + (header[3] as u32);
    n
}

/// Reading the length field of a frame gives back the length of its payload
/// (where that length fits in 32 bits), and the payload follows the field.
pub proof fn law_frame_roundtrip(payload: Seq<u8>)
    requires
        payload.len() < 0x1_0000_0000,
    ensures
        be_value(frame(payload).take(4)) == payload.len(),
        frame(payload).skip(4) == payload,
{
    let n = length_field(payload.len());
    lemma_be_roundtrip(n);
    assert(frame(payload).take(4) =~= be_bytes(n));
    assert(frame(payload).skip(4) =~= payload);
}

/// The length field is big-endian: the first byte is the most significant,
/// each byte is one base-256 digit of the payload's length (for payloads
/// shorter than 2^32 bytes), and the payload follows.
pub proof fn law_frame_header_big_endian(payload: Seq<u8>)
    requires
        payload.len() < 0x1_0000_0000,
    ensures
        frame(payload).len() == payload.len() + 4,
        frame(payload)[0] as int == payload.len() / 16777216,
        frame(payload)[1] as int == (payload.len() / 65536) % 256,
        frame(payload)[2] as int == (payload.len() / 256) % 256,
        frame(payload)[3] as int == payload.len() % 256,
        (frame(payload)[0] as int) * 16777216 + (frame(payload)[1] as int) * 65536 + (frame(payload)[2] as int)
            * 256 + (frame(payload)[3] as int) == payload.len(),
        forall|i: int| 0 <= i < payload.len() ==> #[trigger] frame(payload)[i + 4] == payload[i],
{
    let n = length_field(payload.len());
    let len = payload.len() as int;
    assert(n as int == len);
    let c0: u32 = n / 0x1000000;
    let c1: u32 = (n / 0x10000) % 0x100;
    let c2: u32 = (n / 0x100) % 0x100;
    let c3: u32 = n % 0x100;
    assert(c0 < 0x100 && c0 * 0x1000000 + c1 * 0x10000 + c2 * 0x100 + c3 == n) by (bit_vector)
        requires
            c0 == n / 0x1000000,
            c1 == (n / 0x10000) % 0x100,
            c2 == (n / 0x100) % 0x100,
            c3 == n % 0x100,
    ;
    assert(frame(payload)[0] == c0 as u8);
    assert(frame(payload)[1] == c1 as u8);
    assert(frame(payload)[2] == c2 as u8);
    assert(frame(payload)[3] == c3 as u8);
}

} // verus!

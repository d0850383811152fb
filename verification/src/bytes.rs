//! Big-endian integers as they stand in frames.

use vstd::prelude::*;

verus! {

/// The four bytes of `x`, most significant first.
pub open spec fn be_bytes(x: u32) -> Seq<u8> {
    seq![
        (x / 0x100_0000) as u8,
        ((x / 0x1_0000) % 0x100) as u8,
        ((x / 0x100) % 0x100) as u8,
        (x % 0x100) as u8,
    ]
}

/// The integer whose big-endian bytes are the first four of `s`.
pub open spec fn be_value(s: Seq<u8>) -> u32
    recommends
        s.len() >= 4,
{
    (s[0] as int * 0x100_0000 + s[1] as int * 0x1_0000 + s[2] as int * 0x100 + s[3] as int) as u32
}

/// Reading undoes writing.
pub proof fn lemma_be_value_of_bytes(x: u32)
    ensures
        be_bytes(x).len() == 4,
        be_value(be_bytes(x)) == x,
{
    assert(x == (x / 0x100_0000) * 0x100_0000 + ((x / 0x1_0000) % 0x100) * 0x1_0000 + ((x / 0x100)
        % 0x100) * 0x100 + x % 0x100 && x / 0x100_0000 < 0x100) by (bit_vector);
}

/// Writing undoes reading.
pub proof fn lemma_be_bytes_of_value(s: Seq<u8>)
    requires
        s.len() == 4,
    ensures
        be_bytes(be_value(s)) == s,
{
    let b0 = s[0] as u32;
    let b1 = s[1] as u32;
    let b2 = s[2] as u32;
    let b3 = s[3] as u32;
    let v = be_value(s);
    assert(v == b0 * 0x100_0000 + b1 * 0x1_0000 + b2 * 0x100 + b3);
    assert(v / 0x100_0000 == b0 && (v / 0x1_0000) % 0x100 == b1 && (v / 0x100) % 0x100 == b2 && v
        % 0x100 == b3) by (bit_vector)
        requires
            b0 < 0x100,
            b1 < 0x100,
            b2 < 0x100,
            b3 < 0x100,
            v == b0 * 0x100_0000 + b1 * 0x1_0000 + b2 * 0x100 + b3,
    ;
    assert(be_bytes(v) =~= s);
}

/// Writes `x` in four bytes, most significant first.
pub fn u32_to_be_bytes(x: u32) -> (bytes: [u8; 4])
    ensures
        bytes@ == be_bytes(x),
{
    let bytes = [
        (x / 0x100_0000) as u8,
        ((x / 0x1_0000) % 0x100) as u8,
        ((x / 0x100) % 0x100) as u8,
        (x % 0x100) as u8,
    ];
    assert(bytes@ =~= be_bytes(x));
    bytes
}

/// Reads the big-endian integer that stands at `offset` in `data`.
pub fn u32_from_be_bytes(data: &[u8], offset: usize) -> (x: u32)
    requires
        offset + 4 <= data.len(),
    ensures
        x == be_value(data@.subrange(offset as int, offset + 4)),
{
    let b0 = data[offset] as u32;
    let b1 = data[offset + 1] as u32;
    let b2 = data[offset + 2] as u32;
    let b3 = data[offset + 3] as u32;
    b0 * 0x100_0000 + b1 * 0x1_0000 + b2 * 0x100 + b3
}

/// Copies the 32 bytes that stand at `offset` in `data`.
pub fn array_at(data: &[u8], offset: usize) -> (block: [u8; 32])
    requires
        offset + 32 <= data.len(),
    ensures
        block@ == data@.subrange(offset as int, offset + 32),
{
    let mut block = [0u8; 32];
    let mut i: usize = 0;
    while i < 32
        invariant
            i <= 32,
            offset + 32 <= data.len(),
            forall|j: int| 0 <= j < i ==> block@[j] == data@[offset + j],
        decreases 32 - i,
    {
        block[i] = data[offset + i];
        i += 1;
    }
    assert(block@ =~= data@.subrange(offset as int, offset + 32));
    block
}

/// Copies what stands in `data` from `start` on.
pub fn tail_from(data: &[u8], start: usize) -> (tail: Vec<u8>)
    requires
        start <= data.len(),
    ensures
        tail@ == data@.subrange(start as int, data.len() as int),
{
    let mut tail: Vec<u8> = Vec::new();
    let mut i: usize = start;
    while i < data.len()
        invariant
            start <= i <= data.len(),
            tail@ == data@.subrange(start as int, i as int),
        decreases data.len() - i,
    {
        tail.push(data[i]);
        i += 1;
    }
    tail
}

/// Copies the `len` bytes that stand at `start` in `data`.
pub fn range_of(data: &[u8], start: usize, len: usize) -> (part: Vec<u8>)
    requires
        start + len <= data.len(),
    ensures
        part@ == data@.subrange(start as int, start + len),
{
    let mut part: Vec<u8> = Vec::new();
    let mut i: usize = 0;
    while i < len
        invariant
            i <= len,
            start + len <= data.len(),
            part@ == data@.subrange(start as int, start + i),
        decreases len - i,
    {
        part.push(data[start + i]);
        i += 1;
    }
    part
}

} // verus!

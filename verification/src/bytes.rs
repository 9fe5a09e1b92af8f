//! Big-endian integer fields and byte scanning, the primitives every DNS
//! section codec is built from.
use vstd::prelude::*;

verus! {

/// The value of two bytes read as a big-endian 16-bit integer.
pub open spec fn be16(hi: u8, lo: u8) -> u16 {
    (hi * 256 + lo) as u16
}

/// The two big-endian bytes of a 16-bit integer, most significant first.
pub open spec fn be16_bytes(x: u16) -> Seq<u8> {
    seq![(x / 256) as u8, (x % 256) as u8]
}

/// The value of four bytes read as a big-endian 32-bit integer.
pub open spec fn be32(b0: u8, b1: u8, b2: u8, b3: u8) -> u32 {
    (b0 * 0x1000000 + b1 * 0x10000 + b2 * 256 + b3) as u32
}

/// The four big-endian bytes of a 32-bit integer, most significant first.
pub open spec fn be32_bytes(x: u32) -> Seq<u8> {
    seq![
        (x / 0x1000000) as u8,
        ((x / 0x10000) % 256) as u8,
        ((x / 256) % 256) as u8,
        (x % 256) as u8,
    ]
}

/// The unsigned 32-bit integer with the same bit pattern as a signed one
/// (two's complement).
pub open spec fn u32_of_i32(x: i32) -> u32 {
    if x >= 0 {
        x as u32
    } else {
        (x + 0x1_0000_0000) as u32
    }
}

/// The signed 32-bit integer with the same bit pattern as an unsigned one
/// (two's complement).
pub open spec fn i32_of_u32(x: u32) -> i32 {
    if x < 0x8000_0000 {
        x as i32
    } else {
        (x - 0x1_0000_0000) as i32
    }
}

/// Reading back the two big-endian bytes of a 16-bit integer gives the
/// integer itself.
pub proof fn lemma_be16_round_trip(x: u16)
    ensures
        be16(be16_bytes(x)[0], be16_bytes(x)[1]) == x,
{
}

/// Reading back the four big-endian bytes of a 32-bit integer gives the
/// integer itself.
pub proof fn lemma_be32_round_trip(x: u32)
    ensures
        be32(be32_bytes(x)[0], be32_bytes(x)[1], be32_bytes(x)[2], be32_bytes(x)[3]) == x,
{
}

/// The two's-complement views of a signed 32-bit integer convert back and
/// forth without loss.
pub proof fn lemma_i32_round_trip(x: i32)
    ensures
        i32_of_u32(u32_of_i32(x)) == x,
{
}

/// Appends the two big-endian bytes of `x`.
pub fn push_be16(out: &mut Vec<u8>, x: u16)
    ensures
        final(out)@ == old(out)@ + be16_bytes(x),
{
    out.push((x / 256) as u8);
    out.push((x % 256) as u8);
    proof {
        assert(out@ =~= old(out)@ + be16_bytes(x));
    }
}

/// Appends the four big-endian bytes of `x`.
pub fn push_be32(out: &mut Vec<u8>, x: u32)
    ensures
        final(out)@ == old(out)@ + be32_bytes(x),
{
    out.push((x / 0x1000000) as u8);
    out.push(((x / 0x10000) % 256) as u8);
    out.push(((x / 256) % 256) as u8);
    out.push((x % 256) as u8);
    proof {
        assert(out@ =~= old(out)@ + be32_bytes(x));
    }
}

/// Reads the big-endian 16-bit field at `pos`.
pub fn read_be16(buf: &Vec<u8>, pos: usize) -> (r: u16)
    requires
        pos + 2 <= buf@.len(),
    ensures
        r == be16(buf@[pos as int], buf@[pos + 1]),
{
    let n = buf.len();
    assert(pos + 2 <= n);
    let hi = buf[pos];
    let lo = buf[pos + 1];
    hi as u16 * 256 + lo as u16
}

/// Reads the big-endian 32-bit field at `pos`.
pub fn read_be32(buf: &Vec<u8>, pos: usize) -> (r: u32)
    requires
        pos + 4 <= buf@.len(),
    ensures
        r == be32(buf@[pos as int], buf@[pos + 1], buf@[pos + 2], buf@[pos + 3]),
{
    let n = buf.len();
    assert(pos + 4 <= n);
    let b0 = buf[pos];
    let b1 = buf[pos + 1];
    let b2 = buf[pos + 2];
    let b3 = buf[pos + 3];
    b0 as u32 * 0x1000000 + b1 as u32 * 0x10000 + b2 as u32 * 256 + b3 as u32
}

/// The unsigned bit pattern of a signed 32-bit value.
pub fn i32_to_u32(x: i32) -> (r: u32)
    ensures
        r == u32_of_i32(x),
{
    if x >= 0 {
        x as u32
    } else {
        (x as i64 + 0x1_0000_0000i64) as u32
    }
}

/// The signed reading of an unsigned 32-bit bit pattern.
pub fn u32_to_i32(x: u32) -> (r: i32)
    ensures
        r == i32_of_u32(x),
{
    if x < 0x8000_0000 {
        x as i32
    } else {
        (x as i64 - 0x1_0000_0000i64) as i32
    }
}

/// The first position at or after `pos` where `b` stands in `buf`, if any.
pub open spec fn spec_find_byte(buf: Seq<u8>, b: u8, pos: int) -> Option<int>
    decreases buf.len() - pos,
{
    if pos < 0 || pos >= buf.len() {
        None
    } else if buf[pos] == b {
        Some(pos)
    } else {
        spec_find_byte(buf, b, pos + 1)
    }
}

/// What a successful or failed scan means: the found position holds `b` and
/// nothing before it does; a failed scan means `b` is absent from `pos` on.
pub proof fn lemma_find_byte(buf: Seq<u8>, b: u8, pos: int)
    requires
        0 <= pos,
    ensures
        match spec_find_byte(buf, b, pos) {
            Some(i) => pos <= i < buf.len() && buf[i] == b && (forall|j: int|
                pos <= j < i ==> buf[j] != b),
            None => forall|j: int| pos <= j < buf.len() ==> buf[j] != b,
        },
    decreases buf.len() - pos,
{
    if pos < buf.len() && buf[pos] != b {
        lemma_find_byte(buf, b, pos + 1);
    }
}

/// A scan from `start` stops exactly at `end` when `end` holds `b` and no
/// position before it does.
pub proof fn lemma_find_byte_at(buf: Seq<u8>, b: u8, start: int, end: int)
    requires
        0 <= start <= end < buf.len(),
        buf[end] == b,
        forall|j: int| start <= j < end ==> buf[j] != b,
    ensures
        spec_find_byte(buf, b, start) == Some(end),
    decreases end - start,
{
    if start < end {
        lemma_find_byte_at(buf, b, start + 1, end);
    }
}

/// Scanning a suffix finds the same occurrence, shifted by the suffix's start.
pub proof fn lemma_find_byte_skip(buf: Seq<u8>, b: u8, off: int, pos: int)
    requires
        0 <= off <= pos <= buf.len(),
    ensures
        spec_find_byte(buf, b, pos) == match spec_find_byte(buf.skip(off), b, pos - off) {
            Some(i) => Some(i + off),
            None => None::<int>,
        },
    decreases buf.len() - pos,
{
    if pos < buf.len() {
        assert(buf.skip(off)[pos - off] == buf[pos]);
        if buf[pos] != b {
            lemma_find_byte_skip(buf, b, off, pos + 1);
        }
    }
}

/// Appends `src[from..to]` to `out`.
pub fn copy_range(src: &Vec<u8>, from: usize, to: usize, out: &mut Vec<u8>)
    requires
        from <= to <= src@.len(),
    ensures
        final(out)@ == old(out)@ + src@.subrange(from as int, to as int),
{
    let mut i = from;
    while i < to
        invariant
            from <= i <= to <= src@.len(),
            out@ == old(out)@ + src@.subrange(from as int, i as int),
        decreases to - i,
    {
        out.push(src[i]);
        proof {
            assert(out@ =~= old(out)@ + src@.subrange(from as int, i + 1));
        }
        i = i + 1;
    }
}

/// Scans forward from `start` for the first occurrence of `b`.
pub fn find_byte_from(buf: &Vec<u8>, b: u8, start: usize) -> (r: Option<usize>)
    ensures
        match r {
            Some(i) => spec_find_byte(buf@, b, start as int) == Some(i as int),
            None => spec_find_byte(buf@, b, start as int) is None,
        },
{
    let mut i = start;
    while i < buf.len()
        invariant
            start <= i,
            spec_find_byte(buf@, b, start as int) == spec_find_byte(buf@, b, i as int),
        decreases buf@.len() - i,
    {
        if buf[i] == b {
            return Some(i);
        }
        i = i + 1;
    }
    None
}

} // verus!

//! Fixed-width integers in byte strings.
//!
//! RTP, RTCP, SRTP and STUN put integers on the wire in network order (big
//! endian); the WAV container stores them little endian. The spec functions
//! here say what the bytes of an integer are, and the executable functions read
//! and write them.

use vstd::prelude::*;

verus! {

/// The two bytes of `v` in network order.
pub open spec fn be16(v: u16) -> Seq<u8> {
    seq![(v / 256) as u8, (v % 256) as u8]
}

/// The four bytes of `v` in network order.
pub open spec fn be32(v: u32) -> Seq<u8> {
    seq![
        (v / 0x100_0000) as u8,
        (v / 0x1_0000 % 256) as u8,
        (v / 256 % 256) as u8,
        (v % 256) as u8,
    ]
}

/// The two bytes of `v`, least significant first.
pub open spec fn le16(v: u16) -> Seq<u8> {
    seq![(v % 256) as u8, (v / 256) as u8]
}

/// The four bytes of `v`, least significant first.
pub open spec fn le32(v: u32) -> Seq<u8> {
    seq![
        (v % 256) as u8,
        (v / 256 % 256) as u8,
        (v / 0x1_0000 % 256) as u8,
        (v / 0x100_0000) as u8,
    ]
}

/// The integer in network order at position `i` of `s`.
pub open spec fn be16_at(s: Seq<u8>, i: int) -> u16 {
    (s[i] * 256 + s[i + 1]) as u16
}

/// The integer in network order at position `i` of `s`.
pub open spec fn be32_at(s: Seq<u8>, i: int) -> u32 {
    (s[i] * 0x100_0000 + s[i + 1] * 0x1_0000 + s[i + 2] * 256 + s[i + 3]) as u32
}

/// Reading back the bytes of an integer gives the integer, wherever they stand.
pub proof fn law_be16_round_trip(v: u16, s: Seq<u8>, i: int)
    requires
        0 <= i,
        i + 2 <= s.len(),
        s.subrange(i, i + 2) == be16(v),
    ensures
        be16_at(s, i) == v,
{
    let t = s.subrange(i, i + 2);
    assert(t[0] == s[i] && t[1] == s[i + 1]);
}

/// Reading back the bytes of an integer gives the integer, wherever they stand.
pub proof fn law_be32_round_trip(v: u32, s: Seq<u8>, i: int)
    requires
        0 <= i,
        i + 4 <= s.len(),
        s.subrange(i, i + 4) == be32(v),
    ensures
        be32_at(s, i) == v,
{
    let t = s.subrange(i, i + 4);
    assert(t[0] == s[i] && t[1] == s[i + 1] && t[2] == s[i + 2] && t[3] == s[i + 3]);
}

/// The bytes of the integer read at a position are the bytes that stand there.
pub proof fn law_be16_bytes_of_read(s: Seq<u8>, i: int)
    requires
        0 <= i,
        i + 2 <= s.len(),
    ensures
        be16(be16_at(s, i)) == s.subrange(i, i + 2),
{
    assert(be16(be16_at(s, i)) =~= s.subrange(i, i + 2));
}

/// The bytes of the integer read at a position are the bytes that stand there.
pub proof fn law_be32_bytes_of_read(s: Seq<u8>, i: int)
    requires
        0 <= i,
        i + 4 <= s.len(),
    ensures
        be32(be32_at(s, i)) == s.subrange(i, i + 4),
{
    let (a, b, c, d) = (s[i] as int, s[i + 1] as int, s[i + 2] as int, s[i + 3] as int);
    let v = a * 0x100_0000 + b * 0x1_0000 + c * 256 + d;
    assert(v / 256 == a * 0x1_0000 + b * 256 + c && v % 256 == d);
    assert(v / 0x1_0000 == a * 256 + b);
    assert(v / 0x100_0000 == a);
    assert((a * 256 + b) % 256 == b);
    assert((a * 0x1_0000 + b * 256 + c) % 256 == c);
    assert(be32(be32_at(s, i)) =~= seq![a as u8, b as u8, c as u8, d as u8]);
    assert(be32(be32_at(s, i)) =~= s.subrange(i, i + 4));
}

/// Reads two bytes in network order at `i`.
pub fn read_be16(s: &[u8], i: usize) -> (v: u16)
    requires
        i + 2 <= s@.len(),
    ensures
        v == be16_at(s@, i as int),
{
    (s[i] as u16) * 256 + s[i + 1] as u16
}

/// Reads four bytes in network order at `i`.
pub fn read_be32(s: &[u8], i: usize) -> (v: u32)
    requires
        i + 4 <= s@.len(),
    ensures
        v == be32_at(s@, i as int),
{
    (s[i] as u32) * 0x100_0000 + (s[i + 1] as u32) * 0x1_0000 + (s[i + 2] as u32) * 256 + s[i
        + 3] as u32
}

/// Appends `v` in network order.
pub fn push_be16(out: &mut Vec<u8>, v: u16)
    ensures
        final(out)@ == old(out)@ + be16(v),
{
    out.push((v / 256) as u8);
    out.push((v % 256) as u8);
}

/// Appends `v` in network order.
pub fn push_be32(out: &mut Vec<u8>, v: u32)
    ensures
        final(out)@ == old(out)@ + be32(v),
{
    out.push((v / 0x100_0000) as u8);
    out.push((v / 0x1_0000 % 256) as u8);
    out.push((v / 256 % 256) as u8);
    out.push((v % 256) as u8);
}

/// Appends `v`, least significant byte first.
pub fn push_le16(out: &mut Vec<u8>, v: u16)
    ensures
        final(out)@ == old(out)@ + le16(v),
{
    out.push((v % 256) as u8);
    out.push((v / 256) as u8);
}

/// Appends `v`, least significant byte first.
pub fn push_le32(out: &mut Vec<u8>, v: u32)
    ensures
        final(out)@ == old(out)@ + le32(v),
{
    out.push((v % 256) as u8);
    out.push((v / 256 % 256) as u8);
    out.push((v / 0x1_0000 % 256) as u8);
    out.push((v / 0x100_0000) as u8);
}

/// Appends the bytes of `part`.
pub fn append_bytes(out: &mut Vec<u8>, part: &[u8])
    ensures
        final(out)@ == old(out)@ + part@,
{
    out.extend_from_slice(part);
    assert(out@ =~= old(out)@ + part@);
}

/// A copy of the bytes of `s` from `from` up to `to`.
pub fn copy_range(s: &[u8], from: usize, to: usize) -> (out: Vec<u8>)
    requires
        from <= to <= s@.len(),
    ensures
        out@ == s@.subrange(from as int, to as int),
{
    let mut out: Vec<u8> = Vec::new();
    append_bytes(&mut out, vstd::slice::slice_subrange(s, from, to));
    assert(out@ =~= s@.subrange(from as int, to as int));
    out
}

/// Network order puts the most significant byte first.
pub proof fn law_network_order(v: u16, w: u32, s: Seq<u8>, i: int)
    requires
        0 <= i,
        i + 4 <= s.len(),
    ensures
        be16(v).len() == 2,
        be16(v)[0] * 256 + be16(v)[1] == v,
        be32(w).len() == 4,
        be32(w)[0] * 0x100_0000 + be32(w)[1] * 0x1_0000 + be32(w)[2] * 0x100 + be32(w)[3] == w,
        be16_at(s, i) == s[i] * 256 + s[i + 1],
        be32_at(s, i) == s[i] * 0x100_0000 + s[i + 1] * 0x1_0000 + s[i + 2] * 0x100 + s[i + 3],
{
}

/// Little endian puts the least significant byte first.
pub proof fn law_little_endian(v: u16, w: u32)
    ensures
        le16(v).len() == 2,
        le16(v)[0] + le16(v)[1] * 256 == v,
        le32(w).len() == 4,
        le32(w)[0] + le32(w)[1] * 0x100 + le32(w)[2] * 0x1_0000 + le32(w)[3] * 0x100_0000 == w,
{
}

} // verus!

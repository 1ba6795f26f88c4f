//! Little-endian and "both-endian" integer fields.
use vstd::prelude::*;

verus! {

/// Value of the two little-endian bytes at `p`.
pub open spec fn le16_at(s: Seq<u8>, p: int) -> int {
    s[p] + 256 * s[p + 1]
}

/// Value of the four little-endian bytes at `p`.
pub open spec fn le32_at(s: Seq<u8>, p: int) -> int {
    s[p] + 256 * s[p + 1] + 65536 * s[p + 2] + 16777216 * s[p + 3]
}

/// The four bytes of `v`, least significant first.
pub open spec fn le32_bytes(v: u32) -> Seq<u8> {
    seq![
        (v % 256) as u8,
        ((v / 256) % 256) as u8,
        ((v / 65536) % 256) as u8,
        ((v / 16777216) % 256) as u8,
    ]
}

/// The two bytes of `v`, least significant first.
pub open spec fn le16_bytes(v: u16) -> Seq<u8> {
    seq![(v % 256) as u8, ((v / 256) % 256) as u8]
}

/// On-disk form of a 32-bit both-endian field: little-endian, then big-endian.
pub open spec fn both_endian32_bytes(v: u32) -> Seq<u8> {
    le32_bytes(v) + le32_bytes(v).reverse()
}

/// On-disk form of a 16-bit both-endian field: little-endian, then big-endian.
pub open spec fn both_endian16_bytes(v: u16) -> Seq<u8> {
    le16_bytes(v) + le16_bytes(v).reverse()
}

/// Reads the unsigned byte at `pos`.
pub fn le_u8(input: &[u8], pos: usize) -> (r: Option<u8>)
    ensures
        pos < input@.len() ==> r == Some(input@[pos as int]),
        pos >= input@.len() ==> r is None,
{
    if pos < input.len() {
        Some(input[pos])
    } else {
        None
    }
}

/// Reads a little-endian `u16` at `pos`.
pub fn le_u16(input: &[u8], pos: usize) -> (r: Option<u16>)
    ensures
        pos + 2 <= input@.len() ==> r == Some(le16_at(input@, pos as int) as u16),
        pos + 2 > input@.len() ==> r is None,
{
    if pos <= input.len() && input.len() - pos >= 2 {
        Some(input[pos] as u16 + 256 * input[pos + 1] as u16)
    } else {
        None
    }
}

/// Reads a little-endian `u32` at `pos`.
pub fn le_u32(input: &[u8], pos: usize) -> (r: Option<u32>)
    ensures
        pos + 4 <= input@.len() ==> r == Some(le32_at(input@, pos as int) as u32),
        pos + 4 > input@.len() ==> r is None,
{
    if pos <= input.len() && input.len() - pos >= 4 {
        Some(
            input[pos] as u32 + 256 * input[pos + 1] as u32 + 65536 * input[pos + 2] as u32
                + 16777216 * input[pos + 3] as u32,
        )
    } else {
        None
    }
}

/// Reads a 16-bit both-endian field at `pos`: the little-endian half is
/// taken, the big-endian half is skipped.
pub fn both_endian16(input: &[u8], pos: usize) -> (r: Option<u16>)
    ensures
        pos + 4 <= input@.len() ==> r == Some(le16_at(input@, pos as int) as u16),
        pos + 4 > input@.len() ==> r is None,
{
    if pos <= input.len() && input.len() - pos >= 4 {
        le_u16(input, pos)
    } else {
        None
    }
}

/// Reads a 32-bit both-endian field at `pos`: the little-endian half is
/// taken, the big-endian half is skipped.
pub fn both_endian32(input: &[u8], pos: usize) -> (r: Option<u32>)
    ensures
        pos + 8 <= input@.len() ==> r == Some(le32_at(input@, pos as int) as u32),
        pos + 8 > input@.len() ==> r is None,
{
    if pos <= input.len() && input.len() - pos >= 8 {
        le_u32(input, pos)
    } else {
        None
    }
}

/// Writes `v` as a 32-bit both-endian field.
pub fn emit_both_endian32(v: u32) -> (r: Vec<u8>)
    ensures
        r@ == both_endian32_bytes(v),
{
    let b0 = (v % 256) as u8;
    let b1 = ((v / 256) % 256) as u8;
    let b2 = ((v / 65536) % 256) as u8;
    let b3 = ((v / 16777216) % 256) as u8;
    let r = vec![b0, b1, b2, b3, b3, b2, b1, b0];
    assert(r@ =~= both_endian32_bytes(v));
    r
}

/// Writes `v` as a 16-bit both-endian field.
pub fn emit_both_endian16(v: u16) -> (r: Vec<u8>)
    ensures
        r@ == both_endian16_bytes(v),
{
    let b0 = (v % 256) as u8;
    let b1 = ((v / 256) % 256) as u8;
    let r = vec![b0, b1, b1, b0];
    assert(r@ =~= both_endian16_bytes(v));
    r
}

/// Bytes that hold the same value twice, little-endian then big-endian.
pub open spec fn is_both_endian32(s: Seq<u8>) -> bool {
    s.len() == 8 && s[4] == s[3] && s[5] == s[2] && s[6] == s[1] && s[7] == s[0]
}

/// Bytes that hold the same value twice, little-endian then big-endian.
pub open spec fn is_both_endian16(s: Seq<u8>) -> bool {
    s.len() == 4 && s[2] == s[1] && s[3] == s[0]
}

/// Reading a well-formed 32-bit both-endian field and writing the value back
/// gives the bytes that were read.
pub proof fn both_endian32_round_trip(s: Seq<u8>)
    requires
        is_both_endian32(s),
    ensures
        le32_at(s, 0) <= u32::MAX,
        both_endian32_bytes(le32_at(s, 0) as u32) == s,
{
    let (a, b, c, d) = (s[0] as int, s[1] as int, s[2] as int, s[3] as int);
    let v = le32_at(s, 0);
    assert(v == a + 256 * b + 65536 * c + 16777216 * d);
    assert(v % 256 == a && (v / 256) % 256 == b && (v / 65536) % 256 == c
        && (v / 16777216) % 256 == d) by (nonlinear_arith)
        requires
            v == a + 256 * b + 65536 * c + 16777216 * d,
            0 <= a < 256,
            0 <= b < 256,
            0 <= c < 256,
            0 <= d < 256,
    ;
    assert(both_endian32_bytes(v as u32) =~= s);
}

/// Reading a well-formed 16-bit both-endian field and writing the value back
/// gives the bytes that were read.
pub proof fn both_endian16_round_trip(s: Seq<u8>)
    requires
        is_both_endian16(s),
    ensures
        le16_at(s, 0) <= u16::MAX,
        both_endian16_bytes(le16_at(s, 0) as u16) == s,
{
    let (a, b) = (s[0] as int, s[1] as int);
    let v = le16_at(s, 0);
    assert(v % 256 == a && (v / 256) % 256 == b) by (nonlinear_arith)
        requires
            v == a + 256 * b,
            0 <= a < 256,
            0 <= b < 256,
    ;
    assert(both_endian16_bytes(v as u16) =~= s);
}

} // verus!

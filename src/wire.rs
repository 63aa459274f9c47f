//! Reading integers from bytes, as the `bytes` and `bitreader` crates do it.
use bitreader::BitReader;
use bytes::Buf;
use vstd::arithmetic::power2::pow2;
use vstd::prelude::*;

verus! {

/// The unsigned value of `s`, most significant byte first.
pub open spec fn be_nat(s: Seq<u8>) -> nat
    decreases s.len(),
{
    if s.len() == 0 {
        0
    } else {
        be_nat(s.drop_last()) * 256 + s.last() as nat
    }
}

/// The unsigned value of `s`, least significant byte first.
pub open spec fn le_nat(s: Seq<u8>) -> nat
    decreases s.len(),
{
    if s.len() == 0 {
        0
    } else {
        s[0] as nat + 256 * le_nat(s.drop_first())
    }
}

/// Bit `i` of `s`, counting from the most significant bit of the first byte.
pub open spec fn bit_at(s: Seq<u8>, i: int) -> nat {
    ((s[i / 8] as nat / pow2((7 - i % 8) as nat)) % 2) as nat
}

/// The unsigned value of the `n` bits of `s` from bit `start` on, most significant first.
pub open spec fn bits_be(s: Seq<u8>, start: int, n: nat) -> nat
    decreases n,
{
    if n == 0 {
        0
    } else {
        bits_be(s, start, (n - 1) as nat) * 2 + bit_at(s, start + n - 1)
    }
}

/// Relies on bytes::Buf::get_u16_be: the two bytes at `pos`, most significant first.
#[verifier::external_body]
pub(crate) fn get_u16_be(b: &[u8], pos: usize) -> (r: u16)
    requires
        pos + 2 <= b@.len(),
    ensures
        r as nat == be_nat(b@.subrange(pos as int, pos + 2)),
{
    std::io::Cursor::new(&b[pos..]).get_u16_be()
}

/// Relies on bytes::Buf::get_u16_le: the two bytes at `pos`, least significant first.
#[verifier::external_body]
pub(crate) fn get_u16_le(b: &[u8], pos: usize) -> (r: u16)
    requires
        pos + 2 <= b@.len(),
    ensures
        r as nat == le_nat(b@.subrange(pos as int, pos + 2)),
{
    std::io::Cursor::new(&b[pos..]).get_u16_le()
}

/// Relies on bytes::Buf::get_u32_be: the four bytes at `pos`, most significant first.
#[verifier::external_body]
pub(crate) fn get_u32_be(b: &[u8], pos: usize) -> (r: u32)
    requires
        pos + 4 <= b@.len(),
    ensures
        r as nat == be_nat(b@.subrange(pos as int, pos + 4)),
{
    std::io::Cursor::new(&b[pos..]).get_u32_be()
}

/// Relies on bytes::Buf::get_u32_le: the four bytes at `pos`, least significant first.
#[verifier::external_body]
pub(crate) fn get_u32_le(b: &[u8], pos: usize) -> (r: u32)
    requires
        pos + 4 <= b@.len(),
    ensures
        r as nat == le_nat(b@.subrange(pos as int, pos + 4)),
{
    std::io::Cursor::new(&b[pos..]).get_u32_le()
}

/// Relies on bytes::Buf::get_u64_be: the eight bytes at `pos`, most significant first.
#[verifier::external_body]
pub(crate) fn get_u64_be(b: &[u8], pos: usize) -> (r: u64)
    requires
        pos + 8 <= b@.len(),
    ensures
        r as nat == be_nat(b@.subrange(pos as int, pos + 8)),
{
    std::io::Cursor::new(&b[pos..]).get_u64_be()
}

/// Relies on bytes::Buf::get_u64_le: the eight bytes at `pos`, least significant first.
#[verifier::external_body]
pub(crate) fn get_u64_le(b: &[u8], pos: usize) -> (r: u64)
    requires
        pos + 8 <= b@.len(),
    ensures
        r as nat == le_nat(b@.subrange(pos as int, pos + 8)),
{
    std::io::Cursor::new(&b[pos..]).get_u64_le()
}

/// Relies on bitreader's BitReader (new, skip, read_u64): the `width` bits of `span` from
/// bit `start` on, most significant first; none where they run past the span or
/// `width` exceeds 64.
#[verifier::external_body]
pub(crate) fn read_bits(span: &[u8], start: u64, width: u8) -> (r: Option<u64>)
    requires
        span@.len() * 8 <= u64::MAX,
    ensures
        r.is_some() == (width <= 64 && start + width <= span@.len() * 8),
        r.is_some() ==> r.unwrap() as nat == bits_be(span@, start as int, width as nat),
{
    let mut reader = BitReader::new(span);
    reader.skip(start).ok()?;
    reader.read_u64(width).ok()
}

} // verus!

//! Numbers and texts as bytes.
//!
//! The functions of this file are taken on trust: each states what the
//! function of the `byteorder` crate or of the standard library that it
//! calls is documented to do.

use vstd::prelude::*;
use vstd::bytes::{spec_u32_from_le_bytes, spec_u32_to_le_bytes, spec_u64_to_le_bytes};
use vstd::utf8::{decode_utf8, valid_utf8};
use byteorder::{LittleEndian, ReadBytesExt, WriteBytesExt};

verus! {

/// `WriteBytesExt::write_u32` on a byte vector: appends the four bytes of
/// `x`, lowest first.
#[verifier::external_body]
pub(crate) fn put_u32(buf: &mut Vec<u8>, x: u32)
    ensures
        final(buf)@ == old(buf)@ + spec_u32_to_le_bytes(x),
{
    let _ = buf.write_u32::<LittleEndian>(x);
}

/// `WriteBytesExt::write_u64` on a byte vector: appends the eight bytes of
/// `x`, lowest first.
#[verifier::external_body]
pub(crate) fn put_u64(buf: &mut Vec<u8>, x: u64)
    ensures
        final(buf)@ == old(buf)@ + spec_u64_to_le_bytes(x),
{
    let _ = buf.write_u64::<LittleEndian>(x);
}

/// `ReadBytesExt::read_u32` on a byte slice: the number that its first
/// four bytes hold, lowest first; `None` if it has fewer.
#[verifier::external_body]
pub(crate) fn take_u32(bytes: &[u8]) -> (x: Option<u32>)
    ensures
        bytes@.len() >= 4 ==> x == Some(spec_u32_from_le_bytes(bytes@.subrange(0, 4))),
        bytes@.len() < 4 ==> x is None,
{
    let mut rest = bytes;
    rest.read_u32::<LittleEndian>().ok()
}

/// `String::from_utf8_lossy`: the text that valid UTF-8 bytes encode.
/// Nothing is stated of bytes that are not valid UTF-8.
#[verifier::external_body]
pub(crate) fn text_of(bytes: &[u8]) -> (s: String)
    ensures
        valid_utf8(bytes@) ==> s@ == decode_utf8(bytes@),
{
    String::from_utf8_lossy(bytes).to_string()
}

} // verus!

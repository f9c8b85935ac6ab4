//! The twelve bytes that open a stream: magic, version and object count.

use vstd::prelude::*;
use vstd::slice::slice_subrange;
use crate::error::{eof, FormatError, IoFault, PackError};

verus! {

/// The only version of the format that is read.
pub const VERSION: u32 = 2;

/// The length of the preamble.
pub const PREAMBLE_LEN: usize = 12;

/// The magic literal, `PACK`.
pub open spec fn magic() -> Seq<u8> {
    seq![0x50u8, 0x41u8, 0x43u8, 0x4bu8]
}

/// The number that the first four bytes of `bytes` spell, most significant
/// byte first.
pub open spec fn be_u32(bytes: Seq<u8>) -> u32 {
    (bytes[0] as int * 0x100_0000 + bytes[1] as int * 0x1_0000 + bytes[2] as int * 0x100
        + bytes[3] as int) as u32
}

/// What the preamble of `input` gives: the object count, once magic and
/// version have been found right. Each field must be whole before it is
/// judged.
pub open spec fn preamble_count(input: Seq<u8>) -> Result<u32, PackError> {
    if input.len() < 4 {
        Err(eof())
    } else if input.subrange(0, 4) != magic() {
        Err(PackError::Format(FormatError::BadMagic))
    } else if input.len() < 8 {
        Err(eof())
    } else if be_u32(input.subrange(4, 8)) != VERSION {
        Err(
            PackError::Format(
                FormatError::UnsupportedVersion { found: be_u32(input.subrange(4, 8)) },
            ),
        )
    } else if input.len() < 12 {
        Err(eof())
    } else {
        Ok(be_u32(input.subrange(8, 12)))
    }
}

/// The preamble is judged by its own twelve bytes alone.
pub proof fn lemma_preamble_local(a: Seq<u8>, b: Seq<u8>)
    requires
        a.len() >= PREAMBLE_LEN,
        b.len() >= PREAMBLE_LEN,
        a.subrange(0, PREAMBLE_LEN as int) == b.subrange(0, PREAMBLE_LEN as int),
    ensures
        preamble_count(a) == preamble_count(b),
{
    let pa = a.subrange(0, PREAMBLE_LEN as int);
    let pb = b.subrange(0, PREAMBLE_LEN as int);
    assert(a.subrange(0, 4) =~= pa.subrange(0, 4));
    assert(b.subrange(0, 4) =~= pb.subrange(0, 4));
    assert(a.subrange(4, 8) =~= pa.subrange(4, 8));
    assert(b.subrange(4, 8) =~= pb.subrange(4, 8));
    assert(a.subrange(8, 12) =~= pa.subrange(8, 12));
    assert(b.subrange(8, 12) =~= pb.subrange(8, 12));
}

/// Calls `byteorder::ByteOrder::read_u32` of `byteorder::BigEndian`.
///
/// Trusted: the result is the big-endian number in the first four bytes. The
/// outside function panics on fewer than four bytes, which are left out.
#[verifier::external_body]
pub(crate) fn read_u32_be(bytes: &[u8]) -> (value: u32)
    requires
        bytes@.len() >= 4,
    ensures
        value == be_u32(bytes@),
{
    <byteorder::BigEndian as byteorder::ByteOrder>::read_u32(bytes)
}

/// Checks the preamble and gives the object count. The preamble's bytes are
/// `input[0..12]`, which pass to the output as they are.
pub fn read_preamble(input: &[u8]) -> (r: Result<u32, PackError>)
    ensures
        r == preamble_count(input@),
{
    if input.len() < 4 {
        return Err(PackError::Io(IoFault::UnexpectedEof));
    }
    let found_magic: bool = input[0] == 0x50 && input[1] == 0x41 && input[2] == 0x43 && input[3]
        == 0x4b;
    if !found_magic {
        assert(input@.subrange(0, 4) != magic()) by {
            if input@.subrange(0, 4) == magic() {
                assert(input@.subrange(0, 4)[0] == 0x50u8);
                assert(input@.subrange(0, 4)[1] == 0x41u8);
                assert(input@.subrange(0, 4)[2] == 0x43u8);
                assert(input@.subrange(0, 4)[3] == 0x4bu8);
            }
        }
        return Err(PackError::Format(FormatError::BadMagic));
    }
    assert(input@.subrange(0, 4) =~= magic());
    if input.len() < 8 {
        return Err(PackError::Io(IoFault::UnexpectedEof));
    }
    let version: u32 = read_u32_be(slice_subrange(input, 4, 8));
    if version != VERSION {
        return Err(PackError::Format(FormatError::UnsupportedVersion { found: version }));
    }
    if input.len() < 12 {
        return Err(PackError::Io(IoFault::UnexpectedEof));
    }
    let count: u32 = read_u32_be(slice_subrange(input, 8, 12));
    Ok(count)
}

} // verus!

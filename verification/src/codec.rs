//! The zlib codec, as the one place where compressed bytes are made and read.

use vstd::prelude::*;
use crate::error::IoFault;

verus! {

/// What reading one zlib stream from the front of `input` gives: the bytes it
/// holds and the number of bytes of `input` that the stream occupies.
pub uninterp spec fn zlib_inflated(input: Seq<u8>) -> Result<(Seq<u8>, nat), IoFault>;

/// What compressing `data` at the default level gives: the zlib stream and the
/// number of bytes of `data` that the compressor took in.
pub uninterp spec fn zlib_deflated(data: Seq<u8>) -> Result<(Seq<u8>, nat), IoFault>;

/// `stream` is a zlib stream of `data` that ends by itself: read from the
/// front of any bytes that begin with `stream`, it gives `data` and ends where
/// `stream` ends.
pub open spec fn reads_back_as(stream: Seq<u8>, data: Seq<u8>) -> bool {
    forall|rest: Seq<u8>| #[trigger]
        zlib_inflated(stream + rest) == Ok::<(Seq<u8>, nat), IoFault>((data, stream.len()))
}

/// The model of what `zlib_inflate` hands back.
pub open spec fn inflate_outcome(r: Result<(Vec<u8>, usize), IoFault>) -> Result<
    (Seq<u8>, nat),
    IoFault,
> {
    match r {
        Ok((bytes, used)) => Ok((bytes@, used as nat)),
        Err(fault) => Err(fault),
    }
}

/// The model of what `zlib_deflate` hands back.
pub open spec fn deflate_outcome(r: Result<(Vec<u8>, u64), IoFault>) -> Result<
    (Seq<u8>, nat),
    IoFault,
> {
    match r {
        Ok((bytes, taken)) => Ok((bytes@, taken as nat)),
        Err(fault) => Err(fault),
    }
}

/// Makes a `flate2::bufread::ZlibDecoder` over `input`, reads it to its end
/// with `Read::read_to_end`, and asks it for `total_in`. An error of kind
/// `UnexpectedEof` is told apart from every other.
///
/// Trusted: the outcome is a function of `input` alone, and the decoder, which
/// reads from the slice, reports no more bytes consumed than the slice holds.
/// The decoder stops at the stream's own end marker, so `used` may be less
/// than `input.len()`.
#[verifier::external_body]
pub(crate) fn zlib_inflate(input: &[u8]) -> (r: Result<(Vec<u8>, usize), IoFault>)
    ensures
        inflate_outcome(r) == zlib_inflated(input@),
        r matches Ok((_, used)) ==> used <= input.len(),
{
    let mut decoder = flate2::bufread::ZlibDecoder::new(input);
    let mut bytes: Vec<u8> = Vec::new();
    match std::io::Read::read_to_end(&mut decoder, &mut bytes) {
        Ok(_) => Ok((bytes, decoder.total_in() as usize)),
        Err(e) => match e.kind() {
            std::io::ErrorKind::UnexpectedEof => Err(IoFault::UnexpectedEof),
            _ => Err(IoFault::InvalidInput),
        },
    }
}

/// Makes a `flate2::bufread::ZlibEncoder` over `data` at
/// `Compression::default()`, reads it to its end with `Read::read_to_end`,
/// and asks it for `total_in`.
///
/// Trusted: the outcome is a function of `data` alone; the encoder takes in no
/// more than `data` holds; and the stream it writes is one that the decoder
/// reads back, whatever bytes follow it, as exactly the bytes taken in,
/// ending where the stream ends.
#[verifier::external_body]
pub(crate) fn zlib_deflate(data: &[u8]) -> (r: Result<(Vec<u8>, u64), IoFault>)
    ensures
        deflate_outcome(r) == zlib_deflated(data@),
        r matches Ok((_, taken)) ==> taken <= data.len(),
        r matches Ok((bytes, taken)) ==> reads_back_as(bytes@, data@.take(taken as int)),
{
    let mut encoder = flate2::bufread::ZlibEncoder::new(data, flate2::Compression::default());
    let mut bytes: Vec<u8> = Vec::new();
    match std::io::Read::read_to_end(&mut encoder, &mut bytes) {
        Ok(_) => Ok((bytes, encoder.total_in())),
        Err(e) => match e.kind() {
            std::io::ErrorKind::UnexpectedEof => Err(IoFault::UnexpectedEof),
            _ => Err(IoFault::InvalidInput),
        },
    }
}

} // verus!

//! The transcoder: one payload, moved between its compressed and its logical
//! form, and held to the size that its header declares.

use vstd::prelude::*;
use vstd::slice::slice_subrange;
use crate::codec::{
    deflate_outcome, inflate_outcome, reads_back_as, zlib_deflate, zlib_deflated, zlib_inflate,
    zlib_inflated,
};
use crate::error::{eof, size_mismatch, FormatError, IoFault, PackError};

verus! {

/// The way in which a whole stream is rewritten.
#[derive(Clone, Copy, Debug, PartialEq, Eq, Structural)]
pub enum Direction {
    /// Payloads come compressed and leave in their logical form.
    Decompress,
    /// Payloads come in their logical form and leave compressed.
    Compress,
}

/// What becomes of a decoder's outcome: its bytes are the payload where there
/// are as many of them as declared.
pub open spec fn inflated_payload(outcome: Result<(Seq<u8>, nat), IoFault>, declared: u64) -> Result<
    (Seq<u8>, nat),
    PackError,
> {
    match outcome {
        Err(fault) => Err(PackError::Io(fault)),
        Ok((bytes, used)) => if bytes.len() == declared {
            Ok((bytes, used))
        } else {
            Err(size_mismatch(declared, bytes.len() as int))
        },
    }
}

/// What becomes of an encoder's outcome: its bytes are the payload where it
/// took in as many bytes as declared.
pub open spec fn deflated_payload(outcome: Result<(Seq<u8>, nat), IoFault>, declared: u64) -> Result<
    Seq<u8>,
    PackError,
> {
    match outcome {
        Err(fault) => Err(PackError::Io(fault)),
        Ok((bytes, taken)) => if taken == declared {
            Ok(bytes)
        } else {
            Err(size_mismatch(declared, taken as int))
        },
    }
}

/// The payload that starts at `pos`, transcoded, with the position just past
/// it in the input.
///
/// Decompressing, the decoder is handed all that is left of the input and
/// finds the payload's end by itself. Compressing, the payload is the next
/// `declared` bytes; where fewer are left, those that are left are all the
/// encoder could take. No payload starts past the end of the input.
pub open spec fn payload_at(direction: Direction, input: Seq<u8>, pos: int, declared: u64) -> Result<
    (Seq<u8>, int),
    PackError,
> {
    if pos < 0 || pos > input.len() {
        Err(eof())
    } else {
        match direction {
            Direction::Decompress => match inflated_payload(
                zlib_inflated(input.subrange(pos, input.len() as int)),
                declared,
            ) {
                Err(e) => Err(e),
                Ok((bytes, used)) => Ok((bytes, pos + used)),
            },
            Direction::Compress => if input.len() - pos < declared {
                Err(size_mismatch(declared, input.len() - pos))
            } else {
                match deflated_payload(
                    zlib_deflated(input.subrange(pos, pos + declared)),
                    declared,
                ) {
                    Err(e) => Err(e),
                    Ok(bytes) => Ok((bytes, pos + declared)),
                }
            },
        }
    }
}

/// What the encoder makes of `data`, if it makes anything, is a stream that
/// the decoder reads back as the bytes the encoder took.
pub open spec fn codec_restores(data: Seq<u8>) -> bool {
    match zlib_deflated(data) {
        Err(_) => true,
        Ok((stream, taken)) => taken <= data.len() && reads_back_as(stream, data.take(taken as int)),
    }
}

/// The model of an inflated payload together with the bytes it took.
pub open spec fn inflated_outcome(r: Result<(Vec<u8>, usize), PackError>) -> Result<
    (Seq<u8>, nat),
    PackError,
> {
    match r {
        Ok((bytes, used)) => Ok((bytes@, used as nat)),
        Err(e) => Err(e),
    }
}

/// The model of a deflated payload.
pub open spec fn deflated_outcome(r: Result<Vec<u8>, PackError>) -> Result<Seq<u8>, PackError> {
    match r {
        Ok(bytes) => Ok(bytes@),
        Err(e) => Err(e),
    }
}

/// The model of a transcoded payload together with the position reached.
pub open spec fn payload_outcome(r: Result<(Vec<u8>, usize), PackError>) -> Result<
    (Seq<u8>, int),
    PackError,
> {
    match r {
        Ok((bytes, end)) => Ok((bytes@, end as int)),
        Err(e) => Err(e),
    }
}

/// Judges what the decoder gave against the declared size: a fault of the
/// decoder is passed on, and bytes are accepted only if there are exactly
/// `declared` of them.
pub fn settle_inflated(outcome: Result<(Vec<u8>, usize), IoFault>, declared: u64) -> (r: Result<
    (Vec<u8>, usize),
    PackError,
>)
    ensures
        inflated_outcome(r) == inflated_payload(inflate_outcome(outcome), declared),
        r matches Ok((bytes, _)) ==> bytes@.len() == declared,
{
    match outcome {
        Err(fault) => Err(PackError::Io(fault)),
        Ok((bytes, used)) => {
            let actual: u64 = bytes.len() as u64;
            if actual == declared {
                Ok((bytes, used))
            } else {
                Err(PackError::Format(FormatError::SizeMismatch { declared, actual }))
            }
        },
    }
}

/// Judges what the encoder gave against the declared size: a fault of the
/// encoder is passed on, and its bytes are accepted only if it took in
/// exactly `declared` bytes.
pub fn settle_deflated(outcome: Result<(Vec<u8>, u64), IoFault>, declared: u64) -> (r: Result<
    Vec<u8>,
    PackError,
>)
    ensures
        deflated_outcome(r) == deflated_payload(deflate_outcome(outcome), declared),
        r is Ok ==> outcome is Ok && outcome.unwrap().1 == declared,
{
    match outcome {
        Err(fault) => Err(PackError::Io(fault)),
        Ok((bytes, taken)) => {
            if taken == declared {
                Ok(bytes)
            } else {
                Err(PackError::Format(FormatError::SizeMismatch { declared, actual: taken }))
            }
        },
    }
}

/// Transcodes the payload that starts at `pos` and gives it with the
/// position just past it in the input.
pub fn transcode_payload(direction: Direction, input: &[u8], pos: usize, declared: u64) -> (r: Result<
    (Vec<u8>, usize),
    PackError,
>)
    ensures
        payload_outcome(r) == payload_at(direction, input@, pos as int, declared),
        r matches Ok((_, end)) ==> pos <= end <= input.len(),
        r matches Ok((bytes, end)) ==> match direction {
            Direction::Decompress => bytes@.len() == declared,
            Direction::Compress => end - pos == declared && codec_restores(
                input@.subrange(pos as int, end as int),
            ),
        },
{
    if pos > input.len() {
        return Err(PackError::Io(IoFault::UnexpectedEof));
    }
    match direction {
        Direction::Decompress => {
            let rest = slice_subrange(input, pos, input.len());
            match settle_inflated(zlib_inflate(rest), declared) {
                Err(e) => Err(e),
                Ok((bytes, used)) => Ok((bytes, pos + used)),
            }
        },
        Direction::Compress => {
            let left: usize = input.len() - pos;
            if (left as u64) < declared {
                return Err(
                    PackError::Format(
                        FormatError::SizeMismatch { declared, actual: left as u64 },
                    ),
                );
            }
            let end: usize = pos + (declared as usize);
            match settle_deflated(zlib_deflate(slice_subrange(input, pos, end)), declared) {
                Err(e) => Err(e),
                Ok(bytes) => Ok((bytes, end)),
            }
        },
    }
}

} // verus!

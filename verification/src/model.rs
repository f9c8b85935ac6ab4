//! The model of a pass: what a stream becomes, as a function of its bytes.

use vstd::prelude::*;
use crate::delta::delta_end;
use crate::digest::{sealed, DIGEST_LEN};
use crate::error::{eof, FormatError, PackError};
use crate::object::{object_header_at, ObjectHeader};
use crate::preamble::{preamble_count, PREAMBLE_LEN};
use crate::transcode::{payload_at, Direction};

verus! {

/// What stands before the payload of the record at `pos`: the header it
/// declares, and the position just past header and base reference.
pub open spec fn framing_at(input: Seq<u8>, pos: int) -> Result<(ObjectHeader, int), PackError> {
    match object_header_at(input, pos) {
        Err(e) => Err(e),
        Ok((header, after_header)) => match delta_end(input, header.kind, after_header) {
            Err(e) => Err(e),
            Ok(after_base) => Ok((header, after_base)),
        },
    }
}

/// What the record at `pos` becomes, with the position just past it in the
/// input: its header and base reference as they stand, then its payload
/// transcoded.
pub open spec fn record_at(direction: Direction, input: Seq<u8>, pos: int) -> Result<
    (Seq<u8>, int),
    PackError,
> {
    match framing_at(input, pos) {
        Err(e) => Err(e),
        Ok((header, after_base)) => match payload_at(direction, input, after_base, header.size) {
            Err(e) => Err(e),
            Ok((payload, end)) => Ok((input.subrange(pos, after_base) + payload, end)),
        },
    }
}

/// The payload of the record at `pos`, taken at its declared size.
pub open spec fn logical_payload(input: Seq<u8>, pos: int) -> Seq<u8> {
    match framing_at(input, pos) {
        Err(_) => Seq::empty(),
        Ok((header, after_base)) => input.subrange(after_base, after_base + header.size),
    }
}

/// Puts `done` in front of what an outcome holds.
pub open spec fn after(done: Seq<u8>, rest: Result<(Seq<u8>, int), PackError>) -> Result<
    (Seq<u8>, int),
    PackError,
> {
    match rest {
        Err(e) => Err(e),
        Ok((bytes, end)) => Ok((done + bytes, end)),
    }
}

/// What `count` records in a row become, the first of them at `pos`, with the
/// position just past the last. The first record that fails decides.
pub open spec fn records_from(direction: Direction, input: Seq<u8>, pos: int, count: nat) -> Result<
    (Seq<u8>, int),
    PackError,
>
    decreases count,
{
    if count == 0 {
        Ok((Seq::empty(), pos))
    } else {
        match record_at(direction, input, pos) {
            Err(e) => Err(e),
            Ok((bytes, next)) => after(
                bytes,
                records_from(direction, input, next, (count - 1) as nat),
            ),
        }
    }
}

/// Whether what is left of the input at `pos` is a trailer and nothing more.
pub open spec fn trailer_at(input: Seq<u8>, pos: int) -> Result<(), PackError> {
    if input.len() - pos < DIGEST_LEN {
        Err(eof())
    } else if input.len() - pos > DIGEST_LEN {
        Err(
            PackError::Format(
                FormatError::TrailingData { remaining: (input.len() - pos - DIGEST_LEN) as usize },
            ),
        )
    } else {
        Ok(())
    }
}

/// What a whole input becomes: its preamble as it stands, every record
/// transcoded, and in place of its trailer the digest of all that precedes.
pub open spec fn transformed(direction: Direction, input: Seq<u8>) -> Result<Seq<u8>, PackError> {
    match preamble_count(input) {
        Err(e) => Err(e),
        Ok(count) => match records_from(direction, input, PREAMBLE_LEN as int, count as nat) {
            Err(e) => Err(e),
            Ok((records, end)) => match trailer_at(input, end) {
                Err(e) => Err(e),
                Ok(_) => Ok(sealed(input.subrange(0, PREAMBLE_LEN as int) + records)),
            },
        },
    }
}

/// An input without its trailer, closed with the digest of what is left.
pub open spec fn resealed(input: Seq<u8>) -> Seq<u8> {
    sealed(input.take(input.len() - DIGEST_LEN))
}

/// `host` starts with the bytes of `written`.
pub open spec fn begins_with(host: Seq<u8>, written: Seq<u8>) -> bool {
    written.len() <= host.len() && host.subrange(0, written.len() as int) == written
}

/// Whatever follows `written`, the decompressing pass reads `count` records
/// from it after the preamble, gives `logical` for them, and ends where
/// `written` ends.
pub open spec fn reads_back_records(written: Seq<u8>, count: nat, logical: Seq<u8>) -> bool {
    forall|host: Seq<u8>| #[trigger]
        begins_with(host, written) ==> records_from(
            Direction::Decompress,
            host,
            PREAMBLE_LEN as int,
            count,
        ) == Ok::<(Seq<u8>, int), PackError>((logical, written.len() as int))
}

} // verus!

//! The reference to a base object that follows the header of a delta.
//!
//! A base is named either by its 20-byte identifier or by a self-terminating
//! run of bytes that holds its distance back in the stream. Neither is
//! decoded: the bytes pass to the output as they are.

use vstd::prelude::*;
use vstd::slice::{slice_subrange, slice_to_vec};
use crate::error::{eof, IoFault, PackError};
use crate::object::ObjectType;
use crate::span::{lemma_span_end_moved, lemma_span_end_shape, scan_span, span_end};

verus! {

/// The length of a base object's identifier.
pub const BASE_ID_LEN: usize = 20;

/// How a record names the object it is a delta against.
#[derive(Debug, PartialEq, Eq)]
pub enum DeltaBase {
    /// The object is no delta.
    NoBase,
    /// The base's identifier.
    ByHash(Vec<u8>),
    /// The bytes of the base's distance back in the stream.
    ByOffset(Vec<u8>),
}

/// The model of a `DeltaBase`.
pub enum DeltaBaseView {
    NoBase,
    ByHash(Seq<u8>),
    ByOffset(Seq<u8>),
}

impl View for DeltaBase {
    type V = DeltaBaseView;

    open spec fn view(&self) -> DeltaBaseView {
        match self {
            DeltaBase::NoBase => DeltaBaseView::NoBase,
            DeltaBase::ByHash(id) => DeltaBaseView::ByHash(id@),
            DeltaBase::ByOffset(run) => DeltaBaseView::ByOffset(run@),
        }
    }
}

impl DeltaBaseView {
    /// The bytes that the reference takes in the stream.
    pub open spec fn bytes(self) -> Seq<u8> {
        match self {
            DeltaBaseView::NoBase => Seq::empty(),
            DeltaBaseView::ByHash(id) => id,
            DeltaBaseView::ByOffset(run) => run,
        }
    }
}

/// The position just past the base reference of an object of type `kind`
/// whose header ends at `pos`.
pub open spec fn delta_end(input: Seq<u8>, kind: ObjectType, pos: int) -> Result<int, PackError> {
    match kind {
        ObjectType::RefDelta => if pos + BASE_ID_LEN <= input.len() {
            Ok(pos + BASE_ID_LEN)
        } else {
            Err(eof())
        },
        ObjectType::OfsDelta => match span_end(input, pos) {
            Some(end) => Ok(end),
            None => Err(eof()),
        },
        _ => Ok(pos),
    }
}

/// The base reference of an object of type `kind` whose header ends at
/// `pos`, with the position just past it.
pub open spec fn delta_base_at(input: Seq<u8>, kind: ObjectType, pos: int) -> Result<
    (DeltaBaseView, int),
    PackError,
> {
    match delta_end(input, kind, pos) {
        Err(e) => Err(e),
        Ok(end) => Ok(
            (
                match kind {
                    ObjectType::RefDelta => DeltaBaseView::ByHash(input.subrange(pos, end)),
                    ObjectType::OfsDelta => DeltaBaseView::ByOffset(input.subrange(pos, end)),
                    _ => DeltaBaseView::NoBase,
                },
                end,
            ),
        ),
    }
}

/// The model of a base reference read together with the position reached.
pub open spec fn base_outcome(r: Result<(DeltaBase, usize), PackError>) -> Result<
    (DeltaBaseView, int),
    PackError,
> {
    match r {
        Ok((base, end)) => Ok((base@, end as int)),
        Err(e) => Err(e),
    }
}

/// A base reference is read from its own bytes alone: the same bytes at
/// another place of another input end as many bytes further on.
pub proof fn lemma_delta_end_moved(a: Seq<u8>, kind: ObjectType, pa: int, b: Seq<u8>, pb: int)
    requires
        delta_end(a, kind, pa) is Ok,
        0 <= pb,
        pb + (delta_end(a, kind, pa).unwrap() - pa) <= b.len(),
        a.subrange(pa, delta_end(a, kind, pa).unwrap()) == b.subrange(
            pb,
            pb + (delta_end(a, kind, pa).unwrap() - pa),
        ),
    ensures
        delta_end(b, kind, pb) == Ok::<int, PackError>(
            pb + (delta_end(a, kind, pa).unwrap() - pa),
        ),
{
    if kind == ObjectType::OfsDelta {
        lemma_span_end_moved(a, pa, b, pb);
    }
}

impl DeltaBase {
    /// The bytes that the reference takes in the stream.
    pub fn bytes(&self) -> (bytes: &[u8])
        ensures
            bytes@ == self@.bytes(),
    {
        match self {
            DeltaBase::NoBase => {
                let none: &[u8] = &[];
                assert(none@ =~= Seq::<u8>::empty());
                none
            },
            DeltaBase::ByHash(id) => id.as_slice(),
            DeltaBase::ByOffset(run) => run.as_slice(),
        }
    }
}

/// Reads the base reference of an object of type `kind` whose header ends at
/// `pos`. For an object that is no delta nothing is read.
pub fn read_delta_base(input: &[u8], kind: ObjectType, pos: usize) -> (r: Result<
    (DeltaBase, usize),
    PackError,
>)
    ensures
        base_outcome(r) == delta_base_at(input@, kind, pos as int),
        r matches Ok((_, end)) ==> pos <= end,
        r matches Ok((base, end)) ==> pos <= input.len() ==> end <= input.len() && base@.bytes()
            == input@.subrange(pos as int, end as int),
{
    match kind {
        ObjectType::RefDelta => {
            if pos > input.len() || input.len() - pos < BASE_ID_LEN {
                return Err(PackError::Io(IoFault::UnexpectedEof));
            }
            let end: usize = pos + BASE_ID_LEN;
            Ok((DeltaBase::ByHash(slice_to_vec(slice_subrange(input, pos, end))), end))
        },
        ObjectType::OfsDelta => match scan_span(input, pos) {
            None => Err(PackError::Io(IoFault::UnexpectedEof)),
            Some(end) => {
                proof {
                    lemma_span_end_shape(input@, pos as int);
                }
                Ok((DeltaBase::ByOffset(slice_to_vec(slice_subrange(input, pos, end))), end))
            },
        },
        _ => {
            proof {
                if pos <= input.len() {
                    assert(input@.subrange(pos as int, pos as int) =~= Seq::<u8>::empty());
                }
            }
            Ok((DeltaBase::NoBase, pos))
        },
    }
}

} // verus!

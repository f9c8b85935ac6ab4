//! The type-and-size field that opens every object record.
//!
//! The first byte carries a continuation flag, three type bits and the low
//! four bits of the size; each further byte carries seven more size bits,
//! least significant group first.

use vstd::prelude::*;
use vstd::arithmetic::power2::{
    lemma2_to64, lemma2_to64_rest, lemma_pow2_pos, lemma_pow2_strictly_increases, pow2,
};
use vstd::bits::{lemma_u64_mul_pow2_le_max_iff_max_shr, lemma_u64_shl_is_mul};
use crate::error::{eof, FormatError, IoFault, PackError};
use crate::span::{lemma_span_end_moved, lemma_span_end_shape, scan_span, span_end};

verus! {

/// The kinds of object that a record can hold.
#[derive(Clone, Copy, Debug, PartialEq, Eq, Structural)]
pub enum ObjectType {
    /// Wire value 0: no object.
    NoType,
    Commit,
    Tree,
    Blob,
    Tag,
    /// A delta against a base found at a distance back in the stream.
    OfsDelta,
    /// A delta against a base named by its identifier.
    RefDelta,
}

/// What a record's first field declares.
#[derive(Clone, Copy, Debug, PartialEq, Eq, Structural)]
pub struct ObjectHeader {
    pub kind: ObjectType,
    /// The length of the payload in its logical form.
    pub size: u64,
}

/// The three type bits of a field's first byte.
pub open spec fn type_bits(first: u8) -> u8 {
    (first >> 4) & 0x07
}

/// The object type that a wire value stands for. The value 5 is reserved and
/// stands for none, as does anything above 7.
pub open spec fn type_of_tag(tag: u8) -> Option<ObjectType> {
    if tag == 0 {
        Some(ObjectType::NoType)
    } else if tag == 1 {
        Some(ObjectType::Commit)
    } else if tag == 2 {
        Some(ObjectType::Tree)
    } else if tag == 3 {
        Some(ObjectType::Blob)
    } else if tag == 4 {
        Some(ObjectType::Tag)
    } else if tag == 6 {
        Some(ObjectType::OfsDelta)
    } else if tag == 7 {
        Some(ObjectType::RefDelta)
    } else {
        None
    }
}

/// The wire value of an object type.
pub open spec fn tag_of_type(kind: ObjectType) -> u8 {
    match kind {
        ObjectType::NoType => 0,
        ObjectType::Commit => 1,
        ObjectType::Tree => 2,
        ObjectType::Blob => 3,
        ObjectType::Tag => 4,
        ObjectType::OfsDelta => 6,
        ObjectType::RefDelta => 7,
    }
}

/// The size that the bytes of one field spell out, as a number without bound:
/// the low four bits of the first byte, and seven bits of each later byte,
/// the first of them shifted by 4 and each next one by 7 more.
pub open spec fn span_size(span: Seq<u8>) -> nat
    decreases span.len(),
{
    if span.len() == 0 {
        0
    } else if span.len() == 1 {
        (span[0] & 0x0f) as nat
    } else {
        span_size(span.drop_last()) + ((span.last() & 0x7f) as nat) * pow2(
            (4 + 7 * (span.len() - 2)) as nat,
        )
    }
}

/// A number held to what 64 bits can carry.
pub open spec fn saturated(n: int) -> u64 {
    if n > u64::MAX {
        u64::MAX
    } else {
        n as u64
    }
}

/// The size that a field declares. A field that spells out more than 64 bits
/// can hold declares the largest size there is, which no payload has.
pub open spec fn declared_size(span: Seq<u8>) -> u64 {
    saturated(span_size(span) as int)
}

/// What reading a type-and-size field at `pos` gives: the header and the
/// position just past the field. The field must be whole before its type is
/// looked at.
pub open spec fn object_header_at(input: Seq<u8>, pos: int) -> Result<(ObjectHeader, int), PackError> {
    match span_end(input, pos) {
        None => Err(eof()),
        Some(end) => match type_of_tag(type_bits(input[pos])) {
            None => Err(
                PackError::Format(FormatError::UnknownObjectType { tag: type_bits(input[pos]) }),
            ),
            Some(kind) => Ok(
                (ObjectHeader { kind, size: declared_size(input.subrange(pos, end)) }, end),
            ),
        },
    }
}

/// The model of a header read together with the position reached.
pub open spec fn header_outcome(r: Result<(ObjectHeader, usize), PackError>) -> Result<
    (ObjectHeader, int),
    PackError,
> {
    match r {
        Ok((header, end)) => Ok((header, end as int)),
        Err(e) => Err(e),
    }
}

/// A header is read from its own bytes alone: the same bytes at another
/// place of another input give the same header, as many bytes further on.
pub proof fn lemma_object_header_moved(a: Seq<u8>, pa: int, b: Seq<u8>, pb: int)
    requires
        object_header_at(a, pa) is Ok,
        0 <= pb,
        pb + (object_header_at(a, pa).unwrap().1 - pa) <= b.len(),
        a.subrange(pa, object_header_at(a, pa).unwrap().1) == b.subrange(
            pb,
            pb + (object_header_at(a, pa).unwrap().1 - pa),
        ),
    ensures
        object_header_at(b, pb) == Ok::<(ObjectHeader, int), PackError>(
            (
                object_header_at(a, pa).unwrap().0,
                pb + (object_header_at(a, pa).unwrap().1 - pa),
            ),
        ),
{
    let ea = span_end(a, pa).unwrap();
    lemma_span_end_shape(a, pa);
    lemma_span_end_moved(a, pa, b, pb);
    assert(a.subrange(pa, ea)[0] == a[pa]);
    assert(b.subrange(pb, pb + (ea - pa))[0] == b[pb]);
}

impl ObjectType {
    /// Maps a wire value to its object type, totally: a value that stands for
    /// no type gives `None`.
    pub fn from_tag(tag: u8) -> (kind: Option<ObjectType>)
        ensures
            kind == type_of_tag(tag),
    {
        match tag {
            0 => Some(ObjectType::NoType),
            1 => Some(ObjectType::Commit),
            2 => Some(ObjectType::Tree),
            3 => Some(ObjectType::Blob),
            4 => Some(ObjectType::Tag),
            6 => Some(ObjectType::OfsDelta),
            7 => Some(ObjectType::RefDelta),
            _ => None,
        }
    }

    /// The wire value of this type.
    pub fn tag(&self) -> (tag: u8)
        ensures
            tag == tag_of_type(*self),
            tag <= 7,
            type_of_tag(tag) == Some(*self),
    {
        match self {
            ObjectType::NoType => 0,
            ObjectType::Commit => 1,
            ObjectType::Tree => 2,
            ObjectType::Blob => 3,
            ObjectType::Tag => 4,
            ObjectType::OfsDelta => 6,
            ObjectType::RefDelta => 7,
        }
    }
}

/// Adds one seven-bit group, shifted into its place, to a size held to 64
/// bits. `shift` is the group's place, itself held to 67.
fn add_group(acc: u64, group: u64, shift: u32, Ghost(total): Ghost<nat>, Ghost(place): Ghost<nat>) -> (r: u64)
    requires
        acc == saturated(total as int),
        group < 128,
        shift == if place < 67 { place } else { 67 },
    ensures
        r == saturated(total + group * pow2(place)),
{
    proof {
        lemma_pow2_pos(place);
        lemma2_to64();
        lemma2_to64_rest();
    }
    if group == 0 {
        assert(group * pow2(place) == 0) by (nonlinear_arith)
            requires
                group == 0,
        ;
        acc
    } else if shift >= 64 {
        proof {
            if place > 64 {
                lemma_pow2_strictly_increases(64, place);
            }
            assert(group * pow2(place) >= pow2(64)) by (nonlinear_arith)
                requires
                    group >= 1,
                    pow2(place) >= pow2(64),
            ;
        }
        u64::MAX
    } else {
        proof {
            lemma_u64_mul_pow2_le_max_iff_max_shr(group, shift as u64, u64::MAX);
        }
        if group > (u64::MAX >> shift) {
            u64::MAX
        } else {
            proof {
                lemma_u64_shl_is_mul(group, shift as u64);
            }
            let part: u64 = group << shift;
            assert(part >= 1) by (nonlinear_arith)
                requires
                    part == group * pow2(place),
                    group >= 1,
                    pow2(place) >= 1,
            ;
            if part > u64::MAX - acc {
                u64::MAX
            } else {
                acc + part
            }
        }
    }
}

/// Computes the size that the field `input[pos..end]` declares.
fn fold_size(input: &[u8], pos: usize, end: usize) -> (size: u64)
    requires
        pos < end <= input.len(),
    ensures
        size == declared_size(input@.subrange(pos as int, end as int)),
{
    let first: u8 = input[pos];
    let mut size: u64 = (first & 0x0f) as u64;
    let mut shift: u32 = 4;
    let mut at: usize = pos + 1;
    assert(input@.subrange(pos as int, at as int)[0] == first);
    while at < end
        invariant
            pos < at <= end <= input.len(),
            size == declared_size(input@.subrange(pos as int, at as int)),
            shift == if 4 + 7 * (at - pos - 1) < 67 {
                4 + 7 * (at - pos - 1)
            } else {
                67
            },
        decreases end - at,
    {
        let byte: u8 = input[at];
        let group: u64 = (byte & 0x7f) as u64;
        assert(byte & 0x7f < 128) by (bit_vector);
        let ghost before = input@.subrange(pos as int, at as int);
        let ghost after = input@.subrange(pos as int, at + 1);
        assert(after.drop_last() == before);
        assert(after.last() == byte);
        size = add_group(
            size,
            group,
            shift,
            Ghost(span_size(before)),
            Ghost((4 + 7 * (at - pos - 1)) as nat),
        );
        if shift < 64 {
            shift = shift + 7;
        }
        at = at + 1;
    }
    size
}

/// Reads the type-and-size field at `pos`. Gives the header and the position
/// just past the field, so that the caller can pass the field's own bytes on.
pub fn read_object_header(input: &[u8], pos: usize) -> (r: Result<(ObjectHeader, usize), PackError>)
    ensures
        header_outcome(r) == object_header_at(input@, pos as int),
        r matches Ok((_, end)) ==> pos < end <= input.len(),
{
    match scan_span(input, pos) {
        None => Err(PackError::Io(IoFault::UnexpectedEof)),
        Some(end) => {
            proof {
                lemma_span_end_shape(input@, pos as int);
            }
            let first: u8 = input[pos];
            let tag: u8 = (first >> 4) & 0x07;
            match ObjectType::from_tag(tag) {
                None => Err(PackError::Format(FormatError::UnknownObjectType { tag })),
                Some(kind) => {
                    let size: u64 = fold_size(input, pos, end);
                    Ok((ObjectHeader { kind, size }, end))
                },
            }
        },
    }
}

} // verus!

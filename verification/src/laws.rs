//! What holds of the pass as a whole, stated over its model and proved.

use vstd::prelude::*;
use vstd::arithmetic::power2::lemma2_to64;
use crate::codec::{reads_back_as, zlib_deflated, zlib_inflated};
use crate::delta::lemma_delta_end_moved;
use crate::digest::{lemma_sealed_body, sealed, DIGEST_LEN};
use crate::error::{eof, failure, size_mismatch, FormatError, IoFault, PackError};
use crate::model::{
    after, begins_with, framing_at, logical_payload, reads_back_records, record_at, records_from,
    resealed, transformed,
};
use crate::object::{
    declared_size, lemma_object_header_moved, object_header_at, span_size, ObjectHeader,
    ObjectType,
};
use crate::preamble::{
    be_u32, lemma_preamble_local, magic, preamble_count, PREAMBLE_LEN, VERSION,
};
use crate::span::{lemma_span_end_cut, lemma_span_end_shape};
use crate::transcode::{codec_restores, payload_at, Direction};

verus! {

/// The errors by which a stream that ends too early is refused.
pub open spec fn is_truncation_error(e: PackError) -> bool {
    e == eof() || e matches PackError::Format(FormatError::SizeMismatch { .. })
}

/// An outcome that refuses a stream as one that ends too early.
pub open spec fn refused_as_truncated<T>(r: Result<T, PackError>) -> bool {
    match r {
        Ok(_) => false,
        Err(e) => is_truncation_error(e),
    }
}

/// Putting bytes in front is done in any grouping.
pub proof fn lemma_after_after(a: Seq<u8>, b: Seq<u8>, rest: Result<(Seq<u8>, int), PackError>)
    ensures
        after(a, after(b, rest)) == after(a + b, rest),
{
    match rest {
        Err(e) => {},
        Ok((bytes, end)) => {
            assert(a + (b + bytes) =~= (a + b) + bytes);
        },
    }
}

/// One record more is read after those before it: `count + 1` records are
/// the first `count` and then the record at their end.
pub proof fn lemma_records_one_more(direction: Direction, input: Seq<u8>, pos: int, count: nat)
    ensures
        records_from(direction, input, pos, count + 1) == match records_from(
            direction,
            input,
            pos,
            count,
        ) {
            Err(e) => Err(e),
            Ok((bytes, end)) => after(bytes, record_at(direction, input, end)),
        },
    decreases count,
{
    let first = record_at(direction, input, pos);
    if count == 0 {
        match first {
            Err(e) => {},
            Ok((bytes, next)) => {
                assert(records_from(direction, input, next, 0) == Ok::<(Seq<u8>, int), PackError>(
                    (Seq::empty(), next),
                ));
                assert(bytes + Seq::<u8>::empty() =~= Seq::<u8>::empty() + bytes);
            },
        }
    } else {
        match first {
            Err(e) => {},
            Ok((bytes, next)) => {
                lemma_records_one_more(direction, input, next, (count - 1) as nat);
                match records_from(direction, input, next, (count - 1) as nat) {
                    Err(e) => {},
                    Ok((more, end)) => {
                        lemma_after_after(bytes, more, record_at(direction, input, end));
                    },
                }
            },
        }
    }
}

/// Framing that is found lies inside the input and is not empty.
pub proof fn lemma_framing_extent(input: Seq<u8>, pos: int)
    requires
        0 <= pos,
        framing_at(input, pos) is Ok,
    ensures
        pos < object_header_at(input, pos).unwrap().1 <= framing_at(input, pos).unwrap().1
            <= input.len(),
{
    lemma_span_end_shape(input, pos);
    let (header, after_header) = object_header_at(input, pos).unwrap();
    if header.kind == ObjectType::OfsDelta {
        lemma_span_end_shape(input, after_header);
    }
}

/// Framing is read from its own bytes alone: the same bytes at another place
/// of another input give the same header and end as many bytes further on.
pub proof fn lemma_framing_moved(a: Seq<u8>, pa: int, b: Seq<u8>, pb: int)
    requires
        0 <= pa,
        framing_at(a, pa) is Ok,
        0 <= pb,
        pb + (framing_at(a, pa).unwrap().1 - pa) <= b.len(),
        a.subrange(pa, framing_at(a, pa).unwrap().1) == b.subrange(
            pb,
            pb + (framing_at(a, pa).unwrap().1 - pa),
        ),
    ensures
        framing_at(b, pb) == Ok::<(ObjectHeader, int), PackError>(
            (framing_at(a, pa).unwrap().0, pb + (framing_at(a, pa).unwrap().1 - pa)),
        ),
{
    lemma_framing_extent(a, pa);
    let (header, ah) = object_header_at(a, pa).unwrap();
    let ea = framing_at(a, pa).unwrap().1;
    let sa = a.subrange(pa, ea);
    let sb = b.subrange(pb, pb + (ea - pa));
    assert(a.subrange(pa, ah) =~= sa.subrange(0, ah - pa));
    assert(b.subrange(pb, pb + (ah - pa)) =~= sb.subrange(0, ah - pa));
    lemma_object_header_moved(a, pa, b, pb);
    assert(a.subrange(ah, ea) =~= sa.subrange(ah - pa, ea - pa));
    assert(b.subrange(pb + (ah - pa), pb + (ea - pa)) =~= sb.subrange(ah - pa, ea - pa));
    lemma_delta_end_moved(a, header.kind, ah, b, pb + (ah - pa));
}

/// A record written by the compressing pass, wherever it stands and whatever
/// follows it, is read by the decompressing pass as the record it was made
/// from, given that the codec restores the record's payload.
pub proof fn lemma_compressed_record_reads_back(input: Seq<u8>, pos: int, host: Seq<u8>, at: int)
    requires
        0 <= pos,
        record_at(Direction::Compress, input, pos) is Ok,
        codec_restores(logical_payload(input, pos)),
        0 <= at,
        at + record_at(Direction::Compress, input, pos).unwrap().0.len() <= host.len(),
        host.subrange(at, at + record_at(Direction::Compress, input, pos).unwrap().0.len())
            == record_at(Direction::Compress, input, pos).unwrap().0,
    ensures
        pos < record_at(Direction::Compress, input, pos).unwrap().1 <= input.len(),
        record_at(Direction::Decompress, host, at) == Ok::<(Seq<u8>, int), PackError>(
            (
                input.subrange(pos, record_at(Direction::Compress, input, pos).unwrap().1),
                at + record_at(Direction::Compress, input, pos).unwrap().0.len(),
            ),
        ),
{
    lemma_framing_extent(input, pos);
    let (header, ab) = framing_at(input, pos).unwrap();
    let (written, end) = record_at(Direction::Compress, input, pos).unwrap();
    let payload = logical_payload(input, pos);
    let framing = input.subrange(pos, ab);
    let (stream, taken) = zlib_deflated(payload).unwrap();
    assert(written == framing + stream);
    assert(payload.take(taken as int) =~= payload);
    assert(reads_back_as(stream, payload));
    let from = at + framing.len();
    assert(host.subrange(at, from) =~= host.subrange(at, at + written.len()).subrange(
        0,
        framing.len() as int,
    ));
    assert(written.subrange(0, framing.len() as int) =~= framing);
    lemma_framing_moved(input, pos, host, at);
    let rest = host.subrange(at + written.len(), host.len() as int);
    assert(host.subrange(from, host.len() as int) =~= stream + rest) by {
        assert(host.subrange(from, at + written.len()) =~= host.subrange(
            at,
            at + written.len(),
        ).subrange(framing.len() as int, written.len() as int));
        assert(written.subrange(framing.len() as int, written.len() as int) =~= stream);
    }
    assert(zlib_inflated(stream + rest) == Ok::<(Seq<u8>, nat), IoFault>(
        (payload, stream.len()),
    ));
    assert(framing + payload =~= input.subrange(pos, end));
}

/// Once the compressing pass has written one record more, the decompressing
/// pass reads one record more from what was written.
pub proof fn lemma_reads_back_one_more(input: Seq<u8>, pos: int, before: Seq<u8>, count: nat)
    requires
        PREAMBLE_LEN <= pos,
        reads_back_records(before, count, input.subrange(PREAMBLE_LEN as int, pos)),
        record_at(Direction::Compress, input, pos) is Ok,
        codec_restores(logical_payload(input, pos)),
    ensures
        reads_back_records(
            before + record_at(Direction::Compress, input, pos).unwrap().0,
            count + 1,
            input.subrange(
                PREAMBLE_LEN as int,
                record_at(Direction::Compress, input, pos).unwrap().1,
            ),
        ),
{
    let (written, end) = record_at(Direction::Compress, input, pos).unwrap();
    let now = before + written;
    assert forall|host: Seq<u8>| #[trigger] begins_with(host, now) implies records_from(
        Direction::Decompress,
        host,
        PREAMBLE_LEN as int,
        count + 1,
    ) == Ok::<(Seq<u8>, int), PackError>(
        (input.subrange(PREAMBLE_LEN as int, end), now.len() as int),
    ) by {
        let head = host.subrange(0, now.len() as int);
        assert(host.subrange(0, before.len() as int) =~= head.subrange(0, before.len() as int));
        assert(now.subrange(0, before.len() as int) =~= before);
        assert(begins_with(host, before));
        assert(host.subrange(before.len() as int, now.len() as int) =~= head.subrange(
            before.len() as int,
            now.len() as int,
        ));
        assert(now.subrange(before.len() as int, now.len() as int) =~= written);
        lemma_compressed_record_reads_back(input, pos, host, before.len() as int);
        lemma_records_one_more(Direction::Decompress, host, PREAMBLE_LEN as int, count);
        assert(input.subrange(PREAMBLE_LEN as int, pos) + input.subrange(pos, end)
            =~= input.subrange(PREAMBLE_LEN as int, end));
    }
}

/// Two inputs that agree on a stretch agree on every part of it.
proof fn lemma_subrange_within(a: Seq<u8>, b: Seq<u8>, lo: int, hi: int, i: int, j: int)
    requires
        0 <= lo <= i <= j <= hi,
        hi <= a.len(),
        hi <= b.len(),
        a.subrange(lo, hi) == b.subrange(lo, hi),
    ensures
        a.subrange(i, j) == b.subrange(i, j),
{
    assert(a.subrange(i, j) =~= a.subrange(lo, hi).subrange(i - lo, j - lo));
    assert(b.subrange(i, j) =~= b.subrange(lo, hi).subrange(i - lo, j - lo));
}

/// The pass is a function of its input: the same bytes, rewritten in the
/// same direction, give the same outcome, digest included.
pub proof fn lemma_same_input_same_output(direction: Direction, first: Seq<u8>, second: Seq<u8>)
    requires
        first =~= second,
    ensures
        transformed(direction, first) == transformed(direction, second),
{
}

/// In either direction a record keeps its framing: what is written for it
/// starts with its header and base reference, byte for byte.
pub proof fn lemma_framing_passes_unchanged(direction: Direction, input: Seq<u8>, pos: int)
    requires
        0 <= pos,
        record_at(direction, input, pos) is Ok,
    ensures
        framing_at(input, pos) is Ok,
        record_at(direction, input, pos).unwrap().0.len() >= framing_at(input, pos).unwrap().1
            - pos,
        record_at(direction, input, pos).unwrap().0.subrange(
            0,
            framing_at(input, pos).unwrap().1 - pos,
        ) == input.subrange(pos, framing_at(input, pos).unwrap().1),
{
    lemma_framing_extent(input, pos);
    let after_base = framing_at(input, pos).unwrap().1;
    let written = record_at(direction, input, pos).unwrap().0;
    assert(written.subrange(0, after_base - pos) =~= input.subrange(pos, after_base));
}

/// A payload is accepted only if the codec accounts for exactly the declared
/// size: decompressing, the decoder gave that many bytes; compressing, the
/// encoder took that many.
pub proof fn lemma_accepted_payload_has_declared_size(
    direction: Direction,
    input: Seq<u8>,
    pos: int,
    declared: u64,
)
    requires
        payload_at(direction, input, pos, declared) is Ok,
    ensures
        match direction {
            Direction::Decompress => {
                &&& zlib_inflated(input.subrange(pos, input.len() as int)) is Ok
                &&& zlib_inflated(input.subrange(pos, input.len() as int)).unwrap().0.len()
                    == declared
                &&& payload_at(direction, input, pos, declared).unwrap().0.len() == declared
            },
            Direction::Compress => {
                &&& zlib_deflated(input.subrange(pos, pos + declared)) is Ok
                &&& zlib_deflated(input.subrange(pos, pos + declared)).unwrap().1 == declared
                &&& payload_at(direction, input, pos, declared).unwrap().1 == pos + declared
            },
        },
{
}

/// A record is accepted only with a payload of the size its header declares:
/// decompressing, what is written is the framing and that many bytes;
/// compressing, the record ends that many bytes after its framing.
pub proof fn lemma_accepted_record_has_declared_size(direction: Direction, input: Seq<u8>, pos: int)
    requires
        0 <= pos,
        record_at(direction, input, pos) is Ok,
    ensures
        framing_at(input, pos) is Ok,
        match direction {
            Direction::Decompress => {
                record_at(direction, input, pos).unwrap().0.len() == framing_at(
                    input,
                    pos,
                ).unwrap().1 - pos + framing_at(input, pos).unwrap().0.size
            },
            Direction::Compress => {
                record_at(direction, input, pos).unwrap().1 == framing_at(input, pos).unwrap().1
                    + framing_at(input, pos).unwrap().0.size
            },
        },
{
    lemma_framing_extent(input, pos);
}

/// Once a record has failed, the pass has failed, however many records were
/// still to come: a failure after `count` records is the failure after any
/// larger number of them.
pub proof fn lemma_failure_stays(
    direction: Direction,
    input: Seq<u8>,
    pos: int,
    count: nat,
    more: nat,
)
    requires
        records_from(direction, input, pos, count) is Err,
    ensures
        records_from(direction, input, pos, count + more) == records_from(
            direction,
            input,
            pos,
            count,
        ),
    decreases more,
{
    if more > 0 {
        lemma_failure_stays(direction, input, pos, count, (more - 1) as nat);
        lemma_records_one_more(direction, input, pos, (count + more - 1) as nat);
    }
}

/// The first record that fails decides: where the records before it are
/// accepted and it is not, the pass fails with its error, whatever follows.
pub proof fn lemma_first_failure_decides(
    direction: Direction,
    input: Seq<u8>,
    pos: int,
    before: nat,
    count: nat,
)
    requires
        before < count,
        records_from(direction, input, pos, before) is Ok,
        record_at(direction, input, records_from(direction, input, pos, before).unwrap().1) is Err,
    ensures
        records_from(direction, input, pos, count) is Err,
        failure(records_from(direction, input, pos, count)) == failure(
            record_at(direction, input, records_from(direction, input, pos, before).unwrap().1),
        ),
{
    lemma_records_one_more(direction, input, pos, before);
    lemma_failure_stays(direction, input, pos, before + 1, (count - before - 1) as nat);
}

/// The pass only moves forward: records that are accepted end no earlier
/// than they start, and later if there are any.
pub proof fn lemma_records_advance(direction: Direction, input: Seq<u8>, pos: int, count: nat)
    requires
        0 <= pos,
        records_from(direction, input, pos, count) is Ok,
    ensures
        pos <= records_from(direction, input, pos, count).unwrap().1,
        count > 0 ==> pos < records_from(direction, input, pos, count).unwrap().1,
    decreases count,
{
    if count > 0 {
        lemma_framing_extent(input, pos);
        let next = record_at(direction, input, pos).unwrap().1;
        lemma_records_advance(direction, input, next, (count - 1) as nat);
    }
}

/// An accepted input is a preamble, its records, and exactly one trailer:
/// the records end twenty bytes before the input does. The output keeps the
/// preamble and is sealed with the digest of all that precedes the digest.
pub proof fn lemma_accepted_input_shape(direction: Direction, input: Seq<u8>)
    requires
        transformed(direction, input) is Ok,
    ensures
        preamble_count(input) is Ok,
        input.len() >= PREAMBLE_LEN + DIGEST_LEN,
        input.subrange(0, 4) == magic(),
        records_from(
            direction,
            input,
            PREAMBLE_LEN as int,
            preamble_count(input).unwrap() as nat,
        ) is Ok,
        records_from(
            direction,
            input,
            PREAMBLE_LEN as int,
            preamble_count(input).unwrap() as nat,
        ).unwrap().1 + DIGEST_LEN == input.len(),
        transformed(direction, input).unwrap().len() >= PREAMBLE_LEN + DIGEST_LEN,
        transformed(direction, input).unwrap().subrange(0, PREAMBLE_LEN as int) == input.subrange(
            0,
            PREAMBLE_LEN as int,
        ),
        resealed(transformed(direction, input).unwrap()) == transformed(direction, input).unwrap(),
{
    let count = preamble_count(input).unwrap();
    let (records, end) = records_from(direction, input, PREAMBLE_LEN as int, count as nat).unwrap();
    let body = input.subrange(0, PREAMBLE_LEN as int) + records;
    let out = transformed(direction, input).unwrap();
    lemma_records_advance(direction, input, PREAMBLE_LEN as int, count as nat);
    lemma_sealed_body(body);
    assert(out.subrange(0, PREAMBLE_LEN as int) =~= input.subrange(0, PREAMBLE_LEN as int));
}

/// Compressing, a record that is accepted ends after it starts, inside the
/// input.
pub proof fn lemma_compress_record_extent(input: Seq<u8>, pos: int)
    requires
        0 <= pos,
        record_at(Direction::Compress, input, pos) is Ok,
    ensures
        pos < record_at(Direction::Compress, input, pos).unwrap().1 <= input.len(),
{
    lemma_framing_extent(input, pos);
}

/// Compressing, records that are accepted end no earlier than they start,
/// and inside the input if there are any.
pub proof fn lemma_compress_records_extent(input: Seq<u8>, pos: int, count: nat)
    requires
        0 <= pos,
        records_from(Direction::Compress, input, pos, count) is Ok,
    ensures
        pos <= records_from(Direction::Compress, input, pos, count).unwrap().1,
        count > 0 ==> records_from(Direction::Compress, input, pos, count).unwrap().1
            <= input.len(),
    decreases count,
{
    if count > 0 {
        lemma_compress_record_extent(input, pos);
        let next = record_at(Direction::Compress, input, pos).unwrap().1;
        lemma_compress_records_extent(input, next, (count - 1) as nat);
    }
}

/// Compressing, a record is read from its own bytes alone: an input that
/// holds the same bytes at the same place gives the same record.
pub proof fn lemma_compress_record_local(a: Seq<u8>, b: Seq<u8>, pos: int)
    requires
        0 <= pos,
        record_at(Direction::Compress, a, pos) is Ok,
        record_at(Direction::Compress, a, pos).unwrap().1 <= b.len(),
        a.subrange(pos, record_at(Direction::Compress, a, pos).unwrap().1) == b.subrange(
            pos,
            record_at(Direction::Compress, a, pos).unwrap().1,
        ),
    ensures
        record_at(Direction::Compress, b, pos) == record_at(Direction::Compress, a, pos),
{
    lemma_framing_extent(a, pos);
    let (header, ab) = framing_at(a, pos).unwrap();
    let end = record_at(Direction::Compress, a, pos).unwrap().1;
    lemma_subrange_within(a, b, pos, end, pos, ab);
    lemma_framing_moved(a, pos, b, pos);
    lemma_subrange_within(a, b, pos, end, ab, end);
}

/// Compressing, records are read from their own bytes alone: an input that
/// holds the same bytes at the same place gives the same records.
pub proof fn lemma_compress_records_local(a: Seq<u8>, b: Seq<u8>, pos: int, count: nat)
    requires
        0 <= pos,
        records_from(Direction::Compress, a, pos, count) is Ok,
        records_from(Direction::Compress, a, pos, count).unwrap().1 <= b.len(),
        a.subrange(pos, records_from(Direction::Compress, a, pos, count).unwrap().1) == b.subrange(
            pos,
            records_from(Direction::Compress, a, pos, count).unwrap().1,
        ),
    ensures
        records_from(Direction::Compress, b, pos, count) == records_from(
            Direction::Compress,
            a,
            pos,
            count,
        ),
    decreases count,
{
    if count > 0 {
        let end = records_from(Direction::Compress, a, pos, count).unwrap().1;
        let next = record_at(Direction::Compress, a, pos).unwrap().1;
        lemma_compress_record_extent(a, pos);
        lemma_compress_records_extent(a, next, (count - 1) as nat);
        lemma_compress_records_extent(a, pos, count);
        lemma_subrange_within(a, b, pos, end, pos, next);
        lemma_compress_record_local(a, b, pos);
        lemma_subrange_within(a, b, pos, end, next, end);
        lemma_compress_records_local(a, b, next, (count - 1) as nat);
    }
}

/// Compressing, a record that is cut short is refused, as an early end where
/// the cut falls in its framing and as a size mismatch where it falls in its
/// payload.
pub proof fn lemma_compress_record_cut(input: Seq<u8>, pos: int, len: int)
    requires
        0 <= pos,
        record_at(Direction::Compress, input, pos) is Ok,
        0 <= len < record_at(Direction::Compress, input, pos).unwrap().1,
    ensures
        len < framing_at(input, pos).unwrap().1 ==> failure(
            record_at(Direction::Compress, input.take(len), pos),
        ) == Some(eof()),
        len >= framing_at(input, pos).unwrap().1 ==> failure(
            record_at(Direction::Compress, input.take(len), pos),
        ) == Some(
            size_mismatch(
                framing_at(input, pos).unwrap().0.size,
                len - framing_at(input, pos).unwrap().1,
            ),
        ),
{
    lemma_framing_extent(input, pos);
    let cut = input.take(len);
    let (header, ah) = object_header_at(input, pos).unwrap();
    let ab = framing_at(input, pos).unwrap().1;
    if len < ah {
        lemma_span_end_cut(input, pos, len);
    } else if len < ab {
        assert(input.subrange(pos, ah) =~= cut.subrange(pos, ah));
        lemma_object_header_moved(input, pos, cut, pos);
        if header.kind == ObjectType::OfsDelta {
            lemma_span_end_cut(input, ah, len);
        }
    } else {
        assert(input.subrange(pos, ab) =~= cut.subrange(pos, ab));
        lemma_framing_moved(input, pos, cut, pos);
    }
}

/// Compressing, records read from an input that is cut short are the same
/// where the cut falls after them, and are refused as truncated where it
/// falls inside them.
pub proof fn lemma_compress_records_cut(input: Seq<u8>, pos: int, count: nat, len: int)
    requires
        0 <= pos <= len <= input.len(),
        records_from(Direction::Compress, input, pos, count) is Ok,
    ensures
        len >= records_from(Direction::Compress, input, pos, count).unwrap().1 ==> records_from(
            Direction::Compress,
            input.take(len),
            pos,
            count,
        ) == records_from(Direction::Compress, input, pos, count),
        len < records_from(Direction::Compress, input, pos, count).unwrap().1
            ==> refused_as_truncated(
            records_from(Direction::Compress, input.take(len), pos, count),
        ),
    decreases count,
{
    let cut = input.take(len);
    let end = records_from(Direction::Compress, input, pos, count).unwrap().1;
    lemma_compress_records_extent(input, pos, count);
    if len >= end {
        assert(input.subrange(pos, end) =~= cut.subrange(pos, end));
        lemma_compress_records_local(input, cut, pos, count);
    } else if count > 0 {
        let next = record_at(Direction::Compress, input, pos).unwrap().1;
        lemma_compress_record_extent(input, pos);
        if len < next {
            lemma_compress_record_cut(input, pos, len);
        } else {
            assert(input.subrange(pos, next) =~= cut.subrange(pos, next));
            lemma_compress_record_local(input, cut, pos);
            lemma_compress_records_cut(input, next, (count - 1) as nat, len);
        }
    }
}

/// Compressing, no stream that ends before an accepted stream does is
/// accepted in its place: every proper prefix of an accepted input is
/// refused, as an early end or, where the cut falls in a payload, as a size
/// mismatch.
pub proof fn lemma_truncated_stream_is_refused(input: Seq<u8>, len: int)
    requires
        transformed(Direction::Compress, input) is Ok,
        0 <= len < input.len(),
    ensures
        refused_as_truncated(transformed(Direction::Compress, input.take(len))),
{
    let cut = input.take(len);
    let count = preamble_count(input).unwrap();
    lemma_accepted_input_shape(Direction::Compress, input);
    if len < PREAMBLE_LEN {
        if len >= 4 {
            assert(cut.subrange(0, 4) =~= input.subrange(0, 4));
        }
        if len >= 8 {
            assert(cut.subrange(4, 8) =~= input.subrange(4, 8));
        }
    } else {
        assert(cut.subrange(0, PREAMBLE_LEN as int) =~= input.subrange(0, PREAMBLE_LEN as int));
        lemma_preamble_local(input, cut);
        lemma_compress_records_cut(input, PREAMBLE_LEN as int, count as nat, len);
    }
}

/// Compressing, bytes that follow an accepted stream are trailing data: the
/// stream with them appended is refused, and the error counts them.
pub proof fn lemma_appended_bytes_are_trailing_data(input: Seq<u8>, extra: Seq<u8>)
    requires
        transformed(Direction::Compress, input) is Ok,
        0 < extra.len() <= usize::MAX,
    ensures
        transformed(Direction::Compress, input + extra) == Err::<Seq<u8>, PackError>(
            PackError::Format(FormatError::TrailingData { remaining: extra.len() as usize }),
        ),
{
    let longer = input + extra;
    let count = preamble_count(input).unwrap();
    let end = records_from(Direction::Compress, input, PREAMBLE_LEN as int, count as nat).unwrap().1;
    lemma_accepted_input_shape(Direction::Compress, input);
    assert(longer.subrange(0, PREAMBLE_LEN as int) =~= input.subrange(0, PREAMBLE_LEN as int));
    lemma_preamble_local(input, longer);
    assert(input.subrange(PREAMBLE_LEN as int, end) =~= longer.subrange(PREAMBLE_LEN as int, end));
    lemma_compress_records_local(input, longer, PREAMBLE_LEN as int, count as nat);
}

/// Wrong magic is seen before anything else of the stream is: whatever
/// follows the first four bytes, and in either direction, the pass fails
/// with `BadMagic`.
pub proof fn lemma_wrong_magic_is_refused_first(direction: Direction, input: Seq<u8>)
    requires
        input.len() >= 4,
        input.subrange(0, 4) != magic(),
    ensures
        transformed(direction, input) == Err::<Seq<u8>, PackError>(
            PackError::Format(FormatError::BadMagic),
        ),
{
}

/// A version other than the supported one is refused once the magic has been
/// found right, whatever follows, and the error holds the version found.
pub proof fn lemma_other_version_is_refused(direction: Direction, input: Seq<u8>)
    requires
        input.len() >= 8,
        input.subrange(0, 4) == magic(),
        be_u32(input.subrange(4, 8)) != VERSION,
    ensures
        transformed(direction, input) == Err::<Seq<u8>, PackError>(
            PackError::Format(
                FormatError::UnsupportedVersion { found: be_u32(input.subrange(4, 8)) },
            ),
        ),
{
}

/// A field of one byte declares the low four bits of that byte; a field of
/// two bytes adds the low seven bits of the second, sixteenfold.
pub proof fn lemma_size_of_short_fields(first: u8, second: u8)
    ensures
        declared_size(seq![first]) == first & 0x0f,
        declared_size(seq![first, second]) == (first & 0x0f) + (second & 0x7f) * 16,
{
    let one = seq![first];
    let two = seq![first, second];
    assert(two.drop_last() =~= one);
    assert(two.last() == second);
    assert(one[0] == first);
    reveal_with_fuel(span_size, 3);
    lemma2_to64();
    assert(first & 0x0f <= 15) by (bit_vector);
    assert(second & 0x7f <= 127) by (bit_vector);
}

} // verus!

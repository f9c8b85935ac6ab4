use std::io::{Read, Write};

use crypto::digest::Digest;
use packflate::error::{FormatError, IoFault, PackError};
use packflate::digest::HashingWrite;
use packflate::object::{ObjectHeader, ObjectType};
use packflate::stream::{check_trailer, transcode_record, transform, Pass, Progress, Stage};
use packflate::transcode::{settle_deflated, settle_inflated, transcode_payload, Direction};

const HELLO_ZLIB: [u8; 19] = [
    120, 156, 203, 72, 205, 201, 201, 87, 40, 207, 47, 202, 73, 1, 0, 26, 11, 4, 93,
];

const EMPTY_PACK_DIGEST: [u8; 20] = [
    0x02, 0x9d, 0x08, 0x82, 0x3b, 0xd8, 0xa8, 0xea, 0xb5, 0x10, 0xad, 0x6a, 0xc7, 0x5c, 0x82,
    0x3c, 0xfd, 0x3e, 0xd3, 0x1e,
];

fn preamble(count: u32) -> Vec<u8> {
    let mut bytes = b"PACK".to_vec();
    bytes.extend_from_slice(&2u32.to_be_bytes());
    bytes.extend_from_slice(&count.to_be_bytes());
    bytes
}

fn sha1(bytes: &[u8]) -> Vec<u8> {
    let mut hasher = crypto::sha1::Sha1::new();
    hasher.input(bytes);
    let mut out = vec![0u8; 20];
    hasher.result(&mut out);
    out
}

fn deflate(bytes: &[u8]) -> Vec<u8> {
    let mut encoder = flate2::write::ZlibEncoder::new(Vec::new(), flate2::Compression::default());
    encoder.write_all(bytes).unwrap();
    encoder.finish().unwrap()
}

fn inflate(bytes: &[u8]) -> Vec<u8> {
    let mut out = Vec::new();
    flate2::read::ZlibDecoder::new(bytes).read_to_end(&mut out).unwrap();
    out
}

fn size_field(tag: u8, size: u64) -> Vec<u8> {
    let mut rest = size >> 4;
    let mut first = (tag << 4) | (size & 0x0f) as u8;
    if rest != 0 {
        first |= 0x80;
    }
    let mut bytes = vec![first];
    while rest != 0 {
        let mut byte = (rest & 0x7f) as u8;
        rest >>= 7;
        if rest != 0 {
            byte |= 0x80;
        }
        bytes.push(byte);
    }
    bytes
}

/// The records of a small stream: each with its framing and its logical payload.
fn sample_records() -> Vec<(Vec<u8>, Vec<u8>)> {
    let long: Vec<u8> = (0..5000u32).map(|i| (i * 7 % 251) as u8).collect();
    let mut by_hash = size_field(7, 3);
    by_hash.extend(100u8..120);
    let mut by_offset = size_field(6, 4);
    by_offset.extend_from_slice(&[0x81, 0x23]);
    vec![
        (size_field(3, 11), b"hello world".to_vec()),
        (size_field(1, 0), Vec::new()),
        (size_field(2, 5000), long),
        (by_hash, vec![1, 2, 3]),
        (by_offset, vec![9, 8, 7, 6]),
        (size_field(4, 16), vec![0x78; 16]),
    ]
}

fn logical_stream(records: &[(Vec<u8>, Vec<u8>)], trailer: &[u8]) -> Vec<u8> {
    let mut bytes = preamble(records.len() as u32);
    for (framing, payload) in records {
        bytes.extend_from_slice(framing);
        bytes.extend_from_slice(payload);
    }
    bytes.extend_from_slice(trailer);
    bytes
}

fn compressed_stream(records: &[(Vec<u8>, Vec<u8>)], trailer: &[u8]) -> Vec<u8> {
    let mut bytes = preamble(records.len() as u32);
    for (framing, payload) in records {
        bytes.extend_from_slice(framing);
        bytes.extend_from_slice(&deflate(payload));
    }
    bytes.extend_from_slice(trailer);
    bytes
}

fn with_digest(mut body: Vec<u8>) -> Vec<u8> {
    let digest = sha1(&body);
    body.extend_from_slice(&digest);
    body
}

#[test]
fn empty_pack_passes_with_fresh_digest() {
    let mut input = preamble(0);
    input.extend_from_slice(&[0u8; 20]);
    let mut expected = preamble(0);
    expected.extend_from_slice(&EMPTY_PACK_DIGEST);
    assert_eq!(transform(&input, Direction::Decompress), Ok(expected.clone()));
    assert_eq!(transform(&input, Direction::Compress), Ok(expected));
}

#[test]
fn original_trailer_is_dropped_not_copied() {
    let mut input = preamble(0);
    input.extend_from_slice(&[0xab; 20]);
    let out = transform(&input, Direction::Decompress).unwrap();
    assert_eq!(&out[12..], &EMPTY_PACK_DIGEST);
}

#[test]
fn wrong_magic_fails_before_any_object() {
    let mut input = b"XACK".to_vec();
    input.extend_from_slice(&2u32.to_be_bytes());
    input.extend_from_slice(&1u32.to_be_bytes());
    input.extend_from_slice(&[0x51, 0xff, 0xff]);
    for direction in [Direction::Decompress, Direction::Compress] {
        assert_eq!(transform(&input, direction), Err(PackError::Format(FormatError::BadMagic)));
        assert_eq!(transform(b"XACK", direction), Err(PackError::Format(FormatError::BadMagic)));
    }
}

#[test]
fn version_three_is_unsupported() {
    let mut input = b"PACK".to_vec();
    input.extend_from_slice(&3u32.to_be_bytes());
    input.extend_from_slice(&0u32.to_be_bytes());
    input.extend_from_slice(&[0u8; 20]);
    for direction in [Direction::Decompress, Direction::Compress] {
        assert_eq!(
            transform(&input, direction),
            Err(PackError::Format(FormatError::UnsupportedVersion { found: 3 }))
        );
    }
}

#[test]
fn one_byte_after_the_trailer_is_trailing_data() {
    let mut input = preamble(0);
    input.extend_from_slice(&[0u8; 21]);
    for direction in [Direction::Decompress, Direction::Compress] {
        assert_eq!(
            transform(&input, direction),
            Err(PackError::Format(FormatError::TrailingData { remaining: 1 }))
        );
    }
    let mut input = compressed_stream(&sample_records(), &[0u8; 20]);
    input.extend_from_slice(&[1, 2, 3]);
    assert_eq!(
        transform(&input, Direction::Decompress),
        Err(PackError::Format(FormatError::TrailingData { remaining: 3 }))
    );
}

#[test]
fn trailer_is_twenty_bytes_and_the_end() {
    let bytes = [0u8; 50];
    assert_eq!(check_trailer(&bytes, 30), Ok(()));
    assert_eq!(check_trailer(&bytes, 31), Err(PackError::Io(IoFault::UnexpectedEof)));
    assert_eq!(check_trailer(&bytes, 50), Err(PackError::Io(IoFault::UnexpectedEof)));
    assert_eq!(
        check_trailer(&bytes, 29),
        Err(PackError::Format(FormatError::TrailingData { remaining: 1 }))
    );
    assert_eq!(
        check_trailer(&bytes, 0),
        Err(PackError::Format(FormatError::TrailingData { remaining: 30 }))
    );
}

#[test]
fn missing_records_are_an_early_end() {
    for direction in [Direction::Decompress, Direction::Compress] {
        // one record declared, none present
        assert_eq!(transform(&preamble(1), direction), Err(PackError::Io(IoFault::UnexpectedEof)));
        // the twenty bytes that follow are read as a record, and run out
        let mut input = preamble(1);
        input.extend_from_slice(&[0x80; 20]);
        assert_eq!(transform(&input, direction), Err(PackError::Io(IoFault::UnexpectedEof)));
    }
}

#[test]
fn stream_cut_inside_framing_or_trailer_is_an_early_end() {
    let records = sample_records();
    let logical = logical_stream(&records, &[0u8; 20]);
    let compressed = compressed_stream(&records, &[0u8; 20]);
    for (stream, direction) in [(&logical, Direction::Compress), (&compressed, Direction::Decompress)] {
        assert!(transform(stream, direction).is_ok());
        // inside the trailer
        for cut in 1..=20 {
            assert_eq!(
                transform(&stream[..stream.len() - cut], direction),
                Err(PackError::Io(IoFault::UnexpectedEof))
            );
        }
        // inside the preamble
        for len in 0..12 {
            assert_eq!(transform(&stream[..len], direction), Err(PackError::Io(IoFault::UnexpectedEof)));
        }
    }
    // inside the identifier of the fourth record's base
    let mut cut = preamble(4);
    for (framing, payload) in &records[..3] {
        cut.extend_from_slice(framing);
        cut.extend_from_slice(payload);
    }
    cut.extend_from_slice(&records[3].0[..10]);
    assert_eq!(transform(&cut, Direction::Compress), Err(PackError::Io(IoFault::UnexpectedEof)));
}

#[test]
fn compressed_payload_cut_short_is_an_early_end() {
    let mut input = preamble(1);
    input.push(0x3b);
    input.extend_from_slice(&HELLO_ZLIB[..10]);
    assert_eq!(transform(&input, Direction::Decompress), Err(PackError::Io(IoFault::UnexpectedEof)));
    let mut input = preamble(1);
    input.push(0x3b);
    assert_eq!(transform(&input, Direction::Decompress), Err(PackError::Io(IoFault::UnexpectedEof)));
}

#[test]
fn no_proper_prefix_of_a_stream_is_accepted() {
    let records = sample_records();
    let logical = logical_stream(&records[..2], &[0u8; 20]);
    let compressed = compressed_stream(&records[..2], &[0u8; 20]);
    for len in 0..logical.len() {
        assert!(transform(&logical[..len], Direction::Compress).is_err(), "length {}", len);
    }
    for len in 0..compressed.len() {
        assert!(transform(&compressed[..len], Direction::Decompress).is_err(), "length {}", len);
    }
}

#[test]
fn corrupt_compressed_payload_is_invalid_input() {
    let mut input = preamble(1);
    input.push(0x3b);
    input.extend_from_slice(&[0xff; 30]);
    input.extend_from_slice(&[0u8; 20]);
    assert_eq!(transform(&input, Direction::Decompress), Err(PackError::Io(IoFault::InvalidInput)));
}

#[test]
fn decompress_one_blob() {
    let mut input = preamble(1);
    input.push(0x3b);
    input.extend_from_slice(&HELLO_ZLIB);
    input.extend_from_slice(&[0u8; 20]);
    let mut body = preamble(1);
    body.push(0x3b);
    body.extend_from_slice(b"hello world");
    assert_eq!(transform(&input, Direction::Decompress), Ok(with_digest(body)));
}

#[test]
fn compress_one_blob() {
    let mut input = preamble(1);
    input.push(0x3b);
    input.extend_from_slice(b"hello world");
    input.extend_from_slice(&[0u8; 20]);
    let out = transform(&input, Direction::Compress).unwrap();
    assert_eq!(&out[..13], &input[..13]);
    let payload = &out[13..out.len() - 20];
    assert_ne!(payload, b"hello world");
    assert_eq!(payload[0] & 0x0f, 8, "a zlib stream opens with the deflate method");
    assert_eq!(inflate(payload), b"hello world");
    assert_eq!(&out[out.len() - 20..], &sha1(&out[..out.len() - 20])[..]);
}

#[test]
fn decompress_many_records() {
    let records = sample_records();
    let input = compressed_stream(&records, &[0x11; 20]);
    let expected = with_digest(logical_stream(&records, &[]));
    assert_eq!(transform(&input, Direction::Decompress), Ok(expected));
}

#[test]
fn compress_many_records() {
    let records = sample_records();
    let input = logical_stream(&records, &[0x11; 20]);
    let out = transform(&input, Direction::Compress).unwrap();
    let mut sink = HashingWrite::new();
    sink.write(&out[..12]);
    let mut pos = 12;
    let mut back = preamble(records.len() as u32);
    for (framing, payload) in &records {
        assert_eq!(&out[pos..pos + framing.len()], &framing[..]);
        pos += framing.len();
        let (bytes, end) = transcode_payload(Direction::Decompress, &out, pos, payload.len() as u64).unwrap();
        assert_eq!(&bytes, payload);
        back.extend_from_slice(framing);
        back.extend_from_slice(&bytes);
        pos = end;
    }
    assert_eq!(pos + 20, out.len());
    assert_eq!(&out[pos..], &sha1(&out[..pos])[..]);
    assert_eq!(back, logical_stream(&records, &[]));
}

#[test]
fn compress_then_decompress_gives_the_stream_back() {
    let records = sample_records();
    let logical = logical_stream(&records, &[0x33; 20]);
    let compressed = transform(&logical, Direction::Compress).unwrap();
    let back = transform(&compressed, Direction::Decompress).unwrap();
    assert_eq!(back, with_digest(logical_stream(&records, &[])));
    assert_eq!(&back[..back.len() - 20], &logical[..logical.len() - 20]);
}

#[test]
fn decompress_then_compress_gives_the_payloads_back() {
    let records = sample_records();
    let compressed = compressed_stream(&records, &[0x44; 20]);
    let logical = transform(&compressed, Direction::Decompress).unwrap();
    let again = transform(&logical, Direction::Compress).unwrap();
    let back = transform(&again, Direction::Decompress).unwrap();
    assert_eq!(back, logical);
}

#[test]
fn same_input_gives_same_output() {
    let records = sample_records();
    let logical = logical_stream(&records, &[0u8; 20]);
    let compressed = compressed_stream(&records, &[0u8; 20]);
    assert_eq!(transform(&logical, Direction::Compress), transform(&logical, Direction::Compress));
    assert_eq!(
        transform(&compressed, Direction::Decompress),
        transform(&compressed, Direction::Decompress)
    );
    let bad = preamble(3);
    assert_eq!(transform(&bad, Direction::Compress), transform(&bad, Direction::Compress));
}

#[test]
fn decompressed_payload_must_have_the_declared_size() {
    for (first, declared) in [(0x3au8, 10u64), (0x3c, 12), (0x30, 0)] {
        let mut input = preamble(1);
        input.push(first);
        input.extend_from_slice(&HELLO_ZLIB);
        input.extend_from_slice(&[0u8; 20]);
        assert_eq!(
            transform(&input, Direction::Decompress),
            Err(PackError::Format(FormatError::SizeMismatch { declared, actual: 11 }))
        );
    }
}

#[test]
fn size_mismatch_stops_the_pass_at_its_record() {
    // the second record is wrong; the third, though unreadable, is never looked at
    let mut input = preamble(3);
    input.push(0x3b);
    input.extend_from_slice(&HELLO_ZLIB);
    input.push(0x3a);
    input.extend_from_slice(&HELLO_ZLIB);
    input.push(0x51);
    assert_eq!(
        transform(&input, Direction::Decompress),
        Err(PackError::Format(FormatError::SizeMismatch { declared: 10, actual: 11 }))
    );
}

#[test]
fn raw_payload_shorter_than_declared_is_a_size_mismatch() {
    let mut input = preamble(1);
    input.push(0x3b);
    input.extend_from_slice(b"hello");
    assert_eq!(
        transform(&input, Direction::Compress),
        Err(PackError::Format(FormatError::SizeMismatch { declared: 11, actual: 5 }))
    );
}

#[test]
fn oversized_declaration_is_a_size_mismatch() {
    let mut input = preamble(1);
    input.push(0xb0);
    input.extend_from_slice(&[0x80; 9]);
    input.push(0x01);
    input.extend_from_slice(&HELLO_ZLIB);
    input.extend_from_slice(&[0u8; 20]);
    assert_eq!(
        transform(&input, Direction::Decompress),
        Err(PackError::Format(FormatError::SizeMismatch { declared: u64::MAX, actual: 11 }))
    );
    assert_eq!(
        transform(&input, Direction::Compress),
        Err(PackError::Format(FormatError::SizeMismatch { declared: u64::MAX, actual: 39 }))
    );
}

#[test]
fn reserved_type_stops_the_pass() {
    let mut input = preamble(1);
    input.push(0x5b);
    input.extend_from_slice(&HELLO_ZLIB);
    input.extend_from_slice(&[0u8; 20]);
    for direction in [Direction::Decompress, Direction::Compress] {
        assert_eq!(
            transform(&input, direction),
            Err(PackError::Format(FormatError::UnknownObjectType { tag: 5 }))
        );
    }
}

#[test]
fn decoder_outcome_is_judged_by_its_length() {
    assert_eq!(settle_inflated(Ok((vec![1, 2, 3], 9)), 3), Ok((vec![1, 2, 3], 9)));
    assert_eq!(settle_inflated(Ok((vec![], 8)), 0), Ok((vec![], 8)));
    assert_eq!(
        settle_inflated(Ok((vec![1, 2, 3], 9)), 4),
        Err(PackError::Format(FormatError::SizeMismatch { declared: 4, actual: 3 }))
    );
    assert_eq!(
        settle_inflated(Ok((vec![1, 2, 3], 3)), 9),
        Err(PackError::Format(FormatError::SizeMismatch { declared: 9, actual: 3 }))
    );
    assert_eq!(
        settle_inflated(Err(IoFault::UnexpectedEof), 0),
        Err(PackError::Io(IoFault::UnexpectedEof))
    );
    assert_eq!(
        settle_inflated(Err(IoFault::InvalidInput), 5),
        Err(PackError::Io(IoFault::InvalidInput))
    );
}

#[test]
fn encoder_outcome_is_judged_by_what_it_took() {
    assert_eq!(settle_deflated(Ok((vec![7, 7], 100)), 100), Ok(vec![7, 7]));
    assert_eq!(
        settle_deflated(Ok((vec![7, 7], 99)), 100),
        Err(PackError::Format(FormatError::SizeMismatch { declared: 100, actual: 99 }))
    );
    assert_eq!(
        settle_deflated(Ok((vec![7, 7], 2)), 0),
        Err(PackError::Format(FormatError::SizeMismatch { declared: 0, actual: 2 }))
    );
    assert_eq!(
        settle_deflated(Err(IoFault::InvalidInput), 1),
        Err(PackError::Io(IoFault::InvalidInput))
    );
}

#[test]
fn decoder_stops_at_the_end_of_its_stream() {
    let mut bytes = vec![0xee, 0xee];
    bytes.extend_from_slice(&HELLO_ZLIB);
    bytes.extend_from_slice(&HELLO_ZLIB);
    bytes.push(0x01);
    assert_eq!(
        transcode_payload(Direction::Decompress, &bytes, 2, 11),
        Ok((b"hello world".to_vec(), 21))
    );
    assert_eq!(
        transcode_payload(Direction::Decompress, &bytes, 21, 11),
        Ok((b"hello world".to_vec(), 40))
    );
    assert_eq!(
        transcode_payload(Direction::Decompress, &bytes, 40, 11),
        Err(PackError::Io(IoFault::UnexpectedEof))
    );
    assert_eq!(
        transcode_payload(Direction::Decompress, &bytes, 41, 0),
        Err(PackError::Io(IoFault::UnexpectedEof))
    );
}

#[test]
fn encoder_takes_exactly_the_declared_bytes() {
    let bytes = b"..hello worldhello world!";
    let (first, end) = transcode_payload(Direction::Compress, bytes, 2, 11).unwrap();
    assert_eq!(end, 13);
    assert_eq!(inflate(&first), b"hello world");
    let (second, end) = transcode_payload(Direction::Compress, bytes, 13, 12).unwrap();
    assert_eq!(end, 25);
    assert_eq!(inflate(&second), b"hello world!");
    let (none, end) = transcode_payload(Direction::Compress, bytes, 25, 0).unwrap();
    assert_eq!(end, 25);
    assert_eq!(inflate(&none), b"");
    assert_eq!(
        transcode_payload(Direction::Compress, bytes, 13, 13),
        Err(PackError::Format(FormatError::SizeMismatch { declared: 13, actual: 12 }))
    );
}

#[test]
fn what_the_encoder_writes_the_decoder_reads_back_whatever_follows() {
    let data: Vec<u8> = (0..3000u32).map(|i| (i % 13) as u8).collect();
    let (mut stream, _) = transcode_payload(Direction::Compress, &data, 0, 3000).unwrap();
    let len = stream.len();
    assert!(len < 3000);
    stream.extend_from_slice(&[0x78, 0x9c, 0xff, 0x00]);
    assert_eq!(transcode_payload(Direction::Decompress, &stream, 0, 3000), Ok((data, len)));
}

#[test]
fn record_goes_to_the_sink_with_its_framing() {
    let mut input = vec![0xaa];
    input.push(0x6b);
    input.extend_from_slice(&[0x85, 0x02]);
    input.extend_from_slice(&HELLO_ZLIB);
    input.push(0x3b);
    let mut sink = HashingWrite::new();
    sink.write(b"before");
    assert_eq!(
        transcode_record(Direction::Decompress, &input, 1, &mut sink),
        Ok((ObjectHeader { kind: ObjectType::OfsDelta, size: 11 }, 23))
    );
    let out = sink.finish();
    let mut body = b"before".to_vec();
    body.extend_from_slice(&[0x6b, 0x85, 0x02]);
    body.extend_from_slice(b"hello world");
    assert_eq!(out, with_digest(body));
}

#[test]
fn record_failures_name_their_check() {
    let mut sink = HashingWrite::new();
    assert_eq!(
        transcode_record(Direction::Decompress, &[0x51], 0, &mut sink),
        Err(PackError::Format(FormatError::UnknownObjectType { tag: 5 }))
    );
    assert_eq!(
        transcode_record(Direction::Decompress, &[0x71, 0x00], 0, &mut sink),
        Err(PackError::Io(IoFault::UnexpectedEof))
    );
    assert_eq!(
        transcode_record(Direction::Compress, &[0x32, 0x00], 0, &mut sink),
        Err(PackError::Format(FormatError::SizeMismatch { declared: 2, actual: 1 }))
    );
}

#[test]
fn pass_goes_through_its_stages_in_order() {
    let records = sample_records();
    let input = compressed_stream(&records[..2], &[0u8; 20]);
    let mut pass = Pass::new(&input, Direction::Decompress);
    assert_eq!(pass.stage, Stage::ReadingHeader);
    assert_eq!(pass.pos, 0);
    assert_eq!(pass.step(), Ok(Progress::Preamble { count: 2 }));
    assert_eq!(pass.stage, Stage::ReadingObject { index: 0 });
    assert_eq!(pass.pos, 12);
    assert_eq!(
        pass.step(),
        Ok(Progress::Object { index: 0, header: ObjectHeader { kind: ObjectType::Blob, size: 11 } })
    );
    assert_eq!(pass.stage, Stage::ReadingObject { index: 1 });
    assert_eq!(pass.sink.len(), 12 + 1 + 11);
    assert_eq!(
        pass.step(),
        Ok(Progress::Object { index: 1, header: ObjectHeader { kind: ObjectType::Commit, size: 0 } })
    );
    assert_eq!(pass.stage, Stage::ReadingTrailer);
    assert_eq!(pass.pos, input.len() - 20);
    assert_eq!(pass.step(), Ok(Progress::Finished));
    assert_eq!(pass.stage, Stage::Done);
    assert_eq!(pass.step(), Ok(Progress::Finished));
    assert_eq!(pass.stage, Stage::Done);
    assert_eq!(pass.finish(), with_digest(logical_stream(&records[..2], &[])));
}

#[test]
fn pass_without_records_goes_from_preamble_to_trailer() {
    let mut input = preamble(0);
    input.extend_from_slice(&[0u8; 20]);
    let mut pass = Pass::new(&input, Direction::Compress);
    assert_eq!(pass.step(), Ok(Progress::Preamble { count: 0 }));
    assert_eq!(pass.stage, Stage::ReadingTrailer);
    assert_eq!(pass.step(), Ok(Progress::Finished));
    assert_eq!(pass.stage, Stage::Done);
    let mut expected = preamble(0);
    expected.extend_from_slice(&EMPTY_PACK_DIGEST);
    assert_eq!(pass.finish(), expected);
}

#[test]
fn pass_that_failed_stays_failed() {
    let mut input = preamble(2);
    input.push(0x3b);
    input.extend_from_slice(&HELLO_ZLIB);
    input.push(0x51);
    let mut pass = Pass::new(&input, Direction::Decompress);
    assert_eq!(pass.step(), Ok(Progress::Preamble { count: 2 }));
    assert!(pass.step().is_ok());
    let error = PackError::Format(FormatError::UnknownObjectType { tag: 5 });
    assert_eq!(pass.step(), Err(error));
    assert_eq!(pass.stage, Stage::Failed { error });
    assert_eq!(pass.step(), Err(error));
    assert_eq!(pass.stage, Stage::Failed { error });
}

#[test]
fn pass_fails_in_each_stage() {
    let mut pass = Pass::new(b"PACK\x00\x00", Direction::Compress);
    assert_eq!(pass.step(), Err(PackError::Io(IoFault::UnexpectedEof)));
    assert_eq!(pass.stage, Stage::Failed { error: PackError::Io(IoFault::UnexpectedEof) });

    let mut input = preamble(1);
    input.extend_from_slice(&[0x32, 0x00]);
    let mut pass = Pass::new(&input, Direction::Compress);
    assert!(pass.step().is_ok());
    let error = PackError::Format(FormatError::SizeMismatch { declared: 2, actual: 1 });
    assert_eq!(pass.step(), Err(error));
    assert_eq!(pass.stage, Stage::Failed { error });

    let mut input = preamble(0);
    input.extend_from_slice(&[0u8; 22]);
    let mut pass = Pass::new(&input, Direction::Compress);
    assert!(pass.step().is_ok());
    let error = PackError::Format(FormatError::TrailingData { remaining: 2 });
    assert_eq!(pass.step(), Err(error));
    assert_eq!(pass.stage, Stage::Failed { error });
}

#[test]
fn stepping_to_the_end_is_the_whole_transform() {
    let records = sample_records();
    let input = logical_stream(&records, &[0u8; 20]);
    let mut pass = Pass::new(&input, Direction::Compress);
    let mut objects = 0;
    loop {
        match pass.step() {
            Ok(Progress::Finished) => break,
            Ok(Progress::Object { index, header }) => {
                assert_eq!(index, objects);
                assert_eq!(header.size, records[index as usize].1.len() as u64);
                objects += 1;
            }
            Ok(Progress::Preamble { count }) => assert_eq!(count as usize, records.len()),
            Err(e) => panic!("refused: {:?}", e),
        }
    }
    assert_eq!(objects as usize, records.len());
    assert_eq!(Ok(pass.finish()), transform(&input, Direction::Compress));
}

#[test]
fn output_of_either_pass_is_sealed_and_keeps_the_preamble() {
    let records = sample_records();
    let logical = logical_stream(&records, &[9u8; 20]);
    let compressed = compressed_stream(&records, &[9u8; 20]);
    for (stream, direction) in [(&logical, Direction::Compress), (&compressed, Direction::Decompress)] {
        let out = transform(stream, direction).unwrap();
        assert_eq!(&out[..12], &stream[..12]);
        let body = out.len() - 20;
        assert_eq!(&out[body..], &sha1(&out[..body])[..]);
    }
}

#[test]
fn bytes_appended_to_a_stream_are_counted_as_trailing() {
    let records = sample_records();
    let logical = logical_stream(&records, &[0u8; 20]);
    for extra in [1usize, 2, 19, 20, 21, 300] {
        let mut longer = logical.clone();
        longer.extend(std::iter::repeat(0x5a).take(extra));
        assert_eq!(
            transform(&longer, Direction::Compress),
            Err(PackError::Format(FormatError::TrailingData { remaining: extra }))
        );
    }
}

#[test]
fn raw_stream_cut_short_is_an_early_end_or_a_size_mismatch() {
    let records = sample_records();
    let logical = logical_stream(&records[..4], &[0u8; 20]);
    for len in 0..logical.len() {
        match transform(&logical[..len], Direction::Compress) {
            Err(PackError::Io(IoFault::UnexpectedEof)) => {}
            Err(PackError::Format(FormatError::SizeMismatch { declared, actual })) => {
                assert!(actual < declared);
            }
            other => panic!("length {}: {:?}", len, other),
        }
    }
}

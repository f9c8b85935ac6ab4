//! The pass over a stream: preamble, records, trailer.
//!
//! The pass is strictly sequential. Where a record ends is known only once it
//! has been read, so the first failure ends the pass: nothing is retried and
//! nothing is skipped.

use vstd::prelude::*;
use vstd::slice::slice_subrange;
use crate::delta::read_delta_base;
use crate::digest::{lemma_sealed_body, sealed, HashingWrite, DIGEST_LEN};
use crate::error::{failure, FormatError, IoFault, PackError};
use crate::laws::{lemma_first_failure_decides, lemma_reads_back_one_more, lemma_records_one_more};
use crate::model::{
    begins_with, framing_at, logical_payload, reads_back_records, record_at, records_from,
    resealed, trailer_at, transformed,
};
use crate::object::{read_object_header, ObjectHeader};
use crate::preamble::{lemma_preamble_local, preamble_count, read_preamble, PREAMBLE_LEN};
use crate::transcode::{codec_restores, transcode_payload, Direction};

verus! {

/// Where a pass stands.
#[derive(Clone, Copy, Debug, PartialEq, Eq, Structural)]
pub enum Stage {
    /// Nothing was read yet.
    ReadingHeader,
    /// The preamble and `index` records were read; more records are owed.
    ReadingObject { index: u32 },
    /// Every record was read; the trailer is owed.
    ReadingTrailer,
    /// The input ended cleanly after its trailer.
    Done,
    /// The pass has failed, and stays so.
    Failed { error: PackError },
}

/// What one step of a pass has done.
#[derive(Clone, Copy, Debug, PartialEq, Eq, Structural)]
pub enum Progress {
    /// The preamble was accepted; it announces `count` records.
    Preamble { count: u32 },
    /// The record of this index was transcoded.
    Object { index: u32, header: ObjectHeader },
    /// The trailer was accepted: the pass is done.
    Finished,
}

/// One pass over one input, taken a step at a time. The pass owns the sink
/// that its output goes to.
pub struct Pass<'a> {
    pub input: &'a [u8],
    pub direction: Direction,
    pub stage: Stage,
    /// The number of records announced; it counts once the preamble is read.
    pub count: u32,
    /// The position in the input up to which it was read.
    pub pos: usize,
    pub sink: HashingWrite,
}

/// The stage that follows once `done` of `count` records are read.
pub open spec fn stage_after(done: int, count: u32) -> Stage {
    if done < count {
        Stage::ReadingObject { index: done as u32 }
    } else {
        Stage::ReadingTrailer
    }
}

/// What one step makes of a pass, by the stage it finds it in, and what it
/// reports. A pass that is done or has failed is left as it is.
pub open spec fn stepped(pre: Pass, post: Pass, r: Result<Progress, PackError>) -> bool {
    &&& post.input@ == pre.input@
    &&& post.direction == pre.direction
    &&& match pre.stage {
        Stage::ReadingHeader => match preamble_count(pre.input@) {
            Err(e) => r == Err::<Progress, PackError>(e) && post.stage == (Stage::Failed {
                error: e,
            }),
            Ok(count) => {
                &&& r == Ok::<Progress, PackError>(Progress::Preamble { count })
                &&& post.count == count
                &&& post.stage == stage_after(0, count)
                &&& post.pos == PREAMBLE_LEN
                &&& post.sink@ == pre.input@.subrange(0, PREAMBLE_LEN as int)
            },
        },
        Stage::ReadingObject { index } => post.count == pre.count && match record_at(
            pre.direction,
            pre.input@,
            pre.pos as int,
        ) {
            Err(e) => r == Err::<Progress, PackError>(e) && post.stage == (Stage::Failed {
                error: e,
            }),
            Ok((written, end)) => {
                &&& r == Ok::<Progress, PackError>(
                    Progress::Object {
                        index,
                        header: framing_at(pre.input@, pre.pos as int).unwrap().0,
                    },
                )
                &&& post.stage == stage_after(index + 1, pre.count)
                &&& post.pos == end
                &&& post.sink@ == pre.sink@ + written
            },
        },
        Stage::ReadingTrailer => post.count == pre.count && match trailer_at(
            pre.input@,
            pre.pos as int,
        ) {
            Err(e) => r == Err::<Progress, PackError>(e) && post.stage == (Stage::Failed {
                error: e,
            }),
            Ok(_) => {
                &&& r == Ok::<Progress, PackError>(Progress::Finished)
                &&& post.stage == Stage::Done
                &&& post.pos == pre.pos
                &&& post.sink@ == pre.sink@
            },
        },
        Stage::Done => {
            &&& r == Ok::<Progress, PackError>(Progress::Finished)
            &&& post.stage == pre.stage
            &&& post.count == pre.count
            &&& post.pos == pre.pos
            &&& post.sink@ == pre.sink@
        },
        Stage::Failed { error } => r == Err::<Progress, PackError>(error) && post.stage
            == pre.stage,
    }
}

/// The model of an output.
pub open spec fn output_outcome(r: Result<Vec<u8>, PackError>) -> Result<Seq<u8>, PackError> {
    match r {
        Ok(bytes) => Ok(bytes@),
        Err(e) => Err(e),
    }
}

/// Transcodes the record at `pos` into `sink` and gives its header and the
/// position just past it. On failure `sink` may hold a part of the record.
pub fn transcode_record(direction: Direction, input: &[u8], pos: usize, sink: &mut HashingWrite) -> (r:
    Result<(ObjectHeader, usize), PackError>)
    ensures
        failure(r) == failure(record_at(direction, input@, pos as int)),
        r matches Ok((header, end)) ==> pos < end <= input.len() && final(sink)@ == old(sink)@
            + record_at(direction, input@, pos as int).unwrap().0 && end == record_at(
            direction,
            input@,
            pos as int,
        ).unwrap().1 && header == framing_at(input@, pos as int).unwrap().0,
        r is Ok && direction == Direction::Compress ==> codec_restores(
            logical_payload(input@, pos as int),
        ),
{
    let (header, after_header) = match read_object_header(input, pos) {
        Err(e) => {
            return Err(e);
        },
        Ok(found) => found,
    };
    sink.write(slice_subrange(input, pos, after_header));
    let (base, after_base) = match read_delta_base(input, header.kind, after_header) {
        Err(e) => {
            return Err(e);
        },
        Ok(found) => found,
    };
    sink.write(base.bytes());
    let (payload, end) = match transcode_payload(direction, input, after_base, header.size) {
        Err(e) => {
            return Err(e);
        },
        Ok(found) => found,
    };
    sink.write(payload.as_slice());
    proof {
        let framing = input@.subrange(pos as int, after_base as int);
        assert(framing =~= input@.subrange(pos as int, after_header as int) + input@.subrange(
            after_header as int,
            after_base as int,
        ));
        assert(sink@ =~= old(sink)@ + (framing + payload@));
    }
    Ok((header, end))
}

/// Reads the trailer at `pos` and sees that the input ends with it. The
/// trailer's own bytes are dropped.
pub fn check_trailer(input: &[u8], pos: usize) -> (r: Result<(), PackError>)
    ensures
        r == trailer_at(input@, pos as int),
{
    if pos > input.len() {
        return Err(PackError::Io(IoFault::UnexpectedEof));
    }
    let left: usize = input.len() - pos;
    if left < DIGEST_LEN {
        Err(PackError::Io(IoFault::UnexpectedEof))
    } else if left > DIGEST_LEN {
        Err(PackError::Format(FormatError::TrailingData { remaining: left - DIGEST_LEN }))
    } else {
        Ok(())
    }
}

impl<'a> Pass<'a> {
    /// The pass stands among the records, `done` of them behind it: the sink
    /// holds the preamble and what those records became, and whatever the
    /// compressing pass has written so far reads back as what it was made
    /// from.
    pub open spec fn among_records(&self, done: nat) -> bool {
        &&& preamble_count(self.input@) == Ok::<u32, PackError>(self.count)
        &&& done <= self.count
        &&& PREAMBLE_LEN <= self.pos <= self.input@.len()
        &&& self.sink@.len() >= PREAMBLE_LEN
        &&& self.sink@.subrange(0, PREAMBLE_LEN as int) == self.input@.subrange(
            0,
            PREAMBLE_LEN as int,
        )
        &&& records_from(self.direction, self.input@, PREAMBLE_LEN as int, done) == Ok::<
            (Seq<u8>, int),
            PackError,
        >((self.sink@.skip(PREAMBLE_LEN as int), self.pos as int))
        &&& self.direction == Direction::Compress ==> reads_back_records(
            self.sink@,
            done,
            self.input@.subrange(PREAMBLE_LEN as int, self.pos as int),
        )
    }

    /// The state of a pass agrees with what its input becomes: in every
    /// stage the sink holds the output so far, a pass that is done holds the
    /// whole output but for the digest, and a pass that has failed holds the
    /// error of its input.
    pub open spec fn wf(&self) -> bool {
        match self.stage {
            Stage::ReadingHeader => self.pos == 0 && self.sink@.len() == 0,
            Stage::ReadingObject { index } => index < self.count && self.among_records(
                index as nat,
            ),
            Stage::ReadingTrailer => self.among_records(self.count as nat),
            Stage::Done => {
                &&& transformed(self.direction, self.input@) == Ok::<Seq<u8>, PackError>(
                    sealed(self.sink@),
                )
                &&& self.direction == Direction::Compress ==> transformed(
                    Direction::Decompress,
                    sealed(self.sink@),
                ) == Ok::<Seq<u8>, PackError>(resealed(self.input@))
            },
            Stage::Failed { error } => transformed(self.direction, self.input@) == Err::<
                Seq<u8>,
                PackError,
            >(error),
        }
    }

    /// The most steps that the pass can still take before it is done or has
    /// failed.
    pub open spec fn steps_left(&self) -> nat {
        match self.stage {
            Stage::ReadingHeader => (u32::MAX + 3) as nat,
            Stage::ReadingObject { index } => (self.count - index + 1) as nat,
            Stage::ReadingTrailer => 1,
            Stage::Done => 0,
            Stage::Failed { error } => 0,
        }
    }

    /// A pass over `input` that has read nothing yet.
    pub fn new(input: &'a [u8], direction: Direction) -> (pass: Pass<'a>)
        ensures
            pass.wf(),
            pass.input@ == input@,
            pass.direction == direction,
            pass.stage == Stage::ReadingHeader,
            pass.pos == 0,
            pass.sink@ == Seq::<u8>::empty(),
    {
        Pass {
            input,
            direction,
            stage: Stage::ReadingHeader,
            count: 0,
            pos: 0,
            sink: HashingWrite::new(),
        }
    }

    /// Takes the step that the stage calls for: reads the preamble, or one
    /// record, or the trailer, and moves to the next stage; on any failure
    /// moves to `Failed`, for good.
    pub fn step(&mut self) -> (r: Result<Progress, PackError>)
        requires
            old(self).wf(),
        ensures
            final(self).wf(),
            stepped(*old(self), *final(self), r),
            r matches Ok(progress) ==> progress != Progress::Finished ==> final(self).steps_left()
                < old(self).steps_left(),
    {
        match self.stage {
            Stage::ReadingHeader => match read_preamble(self.input) {
                Err(e) => {
                    self.stage = Stage::Failed { error: e };
                    Err(e)
                },
                Ok(count) => {
                    self.sink.write(slice_subrange(self.input, 0, PREAMBLE_LEN));
                    self.count = count;
                    self.pos = PREAMBLE_LEN;
                    self.stage = if count > 0 {
                        Stage::ReadingObject { index: 0 }
                    } else {
                        Stage::ReadingTrailer
                    };
                    proof {
                        assert(self.sink@ =~= self.input@.subrange(0, PREAMBLE_LEN as int));
                        assert(self.sink@.subrange(0, PREAMBLE_LEN as int) =~= self.sink@);
                        assert(self.sink@.skip(PREAMBLE_LEN as int) =~= Seq::<u8>::empty());
                        assert(self.input@.subrange(PREAMBLE_LEN as int, PREAMBLE_LEN as int)
                            =~= Seq::<u8>::empty());
                    }
                    Ok(Progress::Preamble { count })
                },
            },
            Stage::ReadingObject { index } => {
                let ghost before = self.sink@;
                let ghost start = self.pos as int;
                proof {
                    lemma_records_one_more(
                        self.direction,
                        self.input@,
                        PREAMBLE_LEN as int,
                        index as nat,
                    );
                }
                match transcode_record(self.direction, self.input, self.pos, &mut self.sink) {
                    Err(e) => {
                        proof {
                            lemma_first_failure_decides(
                                self.direction,
                                self.input@,
                                PREAMBLE_LEN as int,
                                index as nat,
                                self.count as nat,
                            );
                        }
                        self.stage = Stage::Failed { error: e };
                        Err(e)
                    },
                    Ok((header, end)) => {
                        proof {
                            let written = record_at(self.direction, self.input@, start).unwrap().0;
                            assert(self.sink@.skip(PREAMBLE_LEN as int) =~= before.skip(
                                PREAMBLE_LEN as int,
                            ) + written);
                            assert(self.sink@.subrange(0, PREAMBLE_LEN as int) =~= before.subrange(
                                0,
                                PREAMBLE_LEN as int,
                            ));
                            if self.direction == Direction::Compress {
                                lemma_reads_back_one_more(self.input@, start, before, index as nat);
                            }
                        }
                        self.pos = end;
                        self.stage = if index + 1 < self.count {
                            Stage::ReadingObject { index: index + 1 }
                        } else {
                            Stage::ReadingTrailer
                        };
                        Ok(Progress::Object { index, header })
                    },
                }
            },
            Stage::ReadingTrailer => match check_trailer(self.input, self.pos) {
                Err(e) => {
                    self.stage = Stage::Failed { error: e };
                    Err(e)
                },
                Ok(_) => {
                    proof {
                        let body = self.sink@;
                        let out = sealed(body);
                        let preamble = self.input@.subrange(0, PREAMBLE_LEN as int);
                        assert(body =~= preamble + body.skip(PREAMBLE_LEN as int));
                        if self.direction == Direction::Compress {
                            lemma_sealed_body(body);
                            assert(out.subrange(0, body.len() as int) =~= body);
                            assert(begins_with(out, body));
                            assert(out.subrange(0, PREAMBLE_LEN as int) =~= preamble);
                            lemma_preamble_local(self.input@, out);
                            assert(preamble + self.input@.subrange(
                                PREAMBLE_LEN as int,
                                self.pos as int,
                            ) =~= self.input@.take(self.input@.len() - DIGEST_LEN));
                        }
                    }
                    self.stage = Stage::Done;
                    Ok(Progress::Finished)
                },
            },
            Stage::Done => Ok(Progress::Finished),
            Stage::Failed { error } => Err(error),
        }
    }

    /// Closes the output of a pass that is done: every byte written,
    /// followed by their digest.
    pub fn finish(self) -> (out: Vec<u8>)
        requires
            self.wf(),
            self.stage == Stage::Done,
        ensures
            transformed(self.direction, self.input@) == Ok::<Seq<u8>, PackError>(out@),
            out@ == sealed(self.sink@),
            self.direction == Direction::Compress ==> transformed(Direction::Decompress, out@)
                == Ok::<Seq<u8>, PackError>(resealed(self.input@)),
    {
        self.sink.finish()
    }
}

/// Rewrites a whole stream in the given direction.
///
/// What the compressing pass gives, the decompressing pass accepts, and
/// gives back the input it was made from, byte for byte up to the trailer,
/// closed with the digest of those bytes.
pub fn transform(input: &[u8], direction: Direction) -> (r: Result<Vec<u8>, PackError>)
    ensures
        output_outcome(r) == transformed(direction, input@),
        direction == Direction::Compress ==> (r matches Ok(out) ==> transformed(
            Direction::Decompress,
            out@,
        ) == Ok::<Seq<u8>, PackError>(resealed(input@))),
{
    let mut pass = Pass::new(input, direction);
    loop
        invariant
            pass.wf(),
            pass.input@ == input@,
            pass.direction == direction,
            pass.stage != Stage::Done,
            !(pass.stage is Failed),
        decreases pass.steps_left(),
    {
        match pass.step() {
            Err(e) => {
                return Err(e);
            },
            Ok(Progress::Finished) => {
                return Ok(pass.finish());
            },
            Ok(_) => {},
        }
    }
}

} // verus!

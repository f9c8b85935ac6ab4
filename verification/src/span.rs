//! Self-terminating byte runs: every byte but the last has its top bit set.
//!
//! Both the type-and-size field of an object and the back-reference of an
//! offset delta are runs of this shape.

use vstd::prelude::*;

verus! {

/// Whether another byte of the run follows `byte`.
pub open spec fn continues(byte: u8) -> bool {
    byte & 0x80 != 0
}

/// The position just past the run that starts at `pos`, or `None` where the
/// input ends before a byte with a clear top bit is met.
pub open spec fn span_end(input: Seq<u8>, pos: int) -> Option<int>
    decreases input.len() - pos,
{
    if pos < 0 || pos >= input.len() {
        None
    } else if !continues(input[pos]) {
        Some(pos + 1)
    } else {
        span_end(input, pos + 1)
    }
}

/// A run that is found ends inside the input, after at least one byte, on its
/// only byte with a clear top bit.
pub proof fn lemma_span_end_shape(input: Seq<u8>, pos: int)
    requires
        span_end(input, pos) is Some,
    ensures
        0 <= pos < span_end(input, pos).unwrap() <= input.len(),
        !continues(input[span_end(input, pos).unwrap() - 1]),
        forall|j: int| pos <= j < span_end(input, pos).unwrap() - 1 ==> continues(#[trigger] input[j]),
    decreases input.len() - pos,
{
    if continues(input[pos]) {
        lemma_span_end_shape(input, pos + 1);
    }
}

/// Bytes with their top bit set can be skipped: the run ends where the run
/// from `mid` ends.
pub proof fn lemma_span_end_skip(input: Seq<u8>, pos: int, mid: int)
    requires
        0 <= pos <= mid <= input.len(),
        forall|j: int| pos <= j < mid ==> continues(#[trigger] input[j]),
    ensures
        span_end(input, pos) == span_end(input, mid),
    decreases mid - pos,
{
    if pos < mid {
        lemma_span_end_skip(input, pos + 1, mid);
    }
}

/// A run is found by its own bytes alone: the same bytes at another place of
/// another input end a run at the same distance.
pub proof fn lemma_span_end_moved(a: Seq<u8>, pa: int, b: Seq<u8>, pb: int)
    requires
        span_end(a, pa) is Some,
        0 <= pb,
        pb + (span_end(a, pa).unwrap() - pa) <= b.len(),
        a.subrange(pa, span_end(a, pa).unwrap()) == b.subrange(
            pb,
            pb + (span_end(a, pa).unwrap() - pa),
        ),
    ensures
        span_end(b, pb) == Some(pb + (span_end(a, pa).unwrap() - pa)),
{
    let ea = span_end(a, pa).unwrap();
    let eb = pb + (ea - pa);
    lemma_span_end_shape(a, pa);
    let sa = a.subrange(pa, ea);
    let sb = b.subrange(pb, eb);
    assert forall|j: int| pb <= j < eb - 1 implies continues(#[trigger] b[j]) by {
        assert(b[j] == sb[j - pb]);
        assert(a[j - pb + pa] == sa[j - pb]);
    }
    lemma_span_end_skip(b, pb, eb - 1);
    assert(b[eb - 1] == sb[eb - 1 - pb]);
    assert(a[ea - 1] == sa[ea - 1 - pa]);
}

/// A run that is cut before its last byte is no run: in an input that ends
/// inside it, no end is found.
pub proof fn lemma_span_end_cut(input: Seq<u8>, pos: int, len: int)
    requires
        span_end(input, pos) is Some,
        0 <= len < span_end(input, pos).unwrap(),
    ensures
        span_end(input.take(len), pos) is None,
{
    lemma_span_end_shape(input, pos);
    let cut = input.take(len);
    if pos < len {
        assert forall|j: int| pos <= j < len implies continues(#[trigger] cut[j]) by {
            assert(cut[j] == input[j]);
        }
        lemma_span_end_skip(cut, pos, len);
    }
}

/// Finds the end of the run that starts at `pos`. No run starts at or past
/// the end of the input.
pub fn scan_span(input: &[u8], pos: usize) -> (end: Option<usize>)
    ensures
        match end {
            Some(e) => span_end(input@, pos as int) == Some(e as int),
            None => span_end(input@, pos as int) is None,
        },
{
    if pos > input.len() {
        return None;
    }
    let mut at: usize = pos;
    while at < input.len()
        invariant
            pos <= at <= input.len(),
            forall|j: int| pos <= j < at ==> continues(#[trigger] input@[j]),
        decreases input.len() - at,
    {
        let byte: u8 = input[at];
        if byte & 0x80 == 0 {
            proof {
                lemma_span_end_skip(input@, pos as int, at as int);
            }
            return Some(at + 1);
        }
        at = at + 1;
    }
    proof {
        lemma_span_end_skip(input@, pos as int, at as int);
    }
    None
}

} // verus!

//! The sink that every output byte passes through, and the digest that closes
//! the stream.

use vstd::prelude::*;

verus! {

/// The length of a digest, and so of a stream's trailer.
pub const DIGEST_LEN: usize = 20;

/// The SHA-1 digest of `data`.
pub uninterp spec fn sha1_of(data: Seq<u8>) -> [u8; 20];

/// Makes a hasher with `crypto::sha1::Sha1::new`, feeds it `data` through
/// `crypto::digest::Digest::input`, and takes the digest with
/// `Digest::result` into twenty bytes, which is what `Sha1` puts out.
///
/// Trusted: the digest is a function of `data` alone.
#[verifier::external_body]
pub(crate) fn sha1(data: &[u8]) -> (digest: [u8; 20])
    ensures
        digest == sha1_of(data@),
{
    let mut hasher = crypto::sha1::Sha1::new();
    crypto::digest::Digest::input(&mut hasher, data);
    let mut digest = [0u8; DIGEST_LEN];
    crypto::digest::Digest::result(&mut hasher, &mut digest);
    digest
}

/// A stream's body closed with the digest of that body.
pub open spec fn sealed(body: Seq<u8>) -> Seq<u8> {
    body + sha1_of(body)@
}

/// What a sealed stream holds before its digest is the body that was sealed.
pub proof fn lemma_sealed_body(body: Seq<u8>)
    ensures
        sealed(body).len() == body.len() + DIGEST_LEN,
        sealed(body).take(sealed(body).len() - DIGEST_LEN) == body,
        sealed(body).skip(body.len() as int) == sha1_of(body)@,
{
    assert(sealed(body).take(body.len() as int) =~= body);
    assert(sealed(body).skip(body.len() as int) =~= sha1_of(body)@);
}

/// A destination that keeps account of all that was written to it, so that
/// the digest it ends with covers every byte before it.
pub struct HashingWrite {
    written: Vec<u8>,
}

impl View for HashingWrite {
    type V = Seq<u8>;

    /// The bytes written so far, in order.
    closed spec fn view(&self) -> Seq<u8> {
        self.written@
    }
}

impl HashingWrite {
    /// A sink to which nothing was written yet.
    pub fn new() -> (sink: HashingWrite)
        ensures
            sink@ == Seq::<u8>::empty(),
    {
        HashingWrite { written: Vec::new() }
    }

    /// Writes `buf` after all that was written before.
    pub fn write(&mut self, buf: &[u8])
        ensures
            final(self)@ == old(self)@ + buf@,
    {
        self.written.extend_from_slice(buf);
        assert(self.written@ =~= old(self).written@ + buf@);
    }

    /// The number of bytes written so far.
    pub fn len(&self) -> (n: usize)
        ensures
            n == self@.len(),
    {
        self.written.len()
    }

    /// The digest of all that was written so far.
    pub fn digest(&self) -> (digest: [u8; 20])
        ensures
            digest == sha1_of(self@),
    {
        sha1(self.written.as_slice())
    }

    /// Closes the stream: gives every byte written, followed by their digest.
    pub fn finish(self) -> (out: Vec<u8>)
        ensures
            out@ == sealed(self@),
            out@.len() == self@.len() + DIGEST_LEN,
    {
        let digest = sha1(self.written.as_slice());
        let mut out = self.written;
        out.extend_from_slice(digest.as_slice());
        assert(out@ =~= self.written@ + digest@);
        out
    }
}

} // verus!

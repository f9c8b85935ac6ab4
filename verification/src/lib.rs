//! Transcoding of pack streams: a framed sequence of typed, sized objects with
//! a digest trailer, rewritten with every payload moved between its
//! compressed and its logical form and the trailer computed afresh.

pub mod error;
pub mod codec;
pub mod digest;
pub mod span;
pub mod preamble;
pub mod object;
pub mod delta;
pub mod transcode;
pub mod model;
pub mod stream;
pub mod laws;

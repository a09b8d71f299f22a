//! The accounting behind a Buddhabrot renderer: the hit-count histogram and
//! its binary form, the bookkeeping of the Metropolis-Hastings sampler, the
//! round of a worker, and the progress log.
//!
//! Everything here works on whole numbers and text. The points of the
//! complex plane, and whatever is computed on them, stay with the caller,
//! who tells the library what came of it: the pixel a point falls on,
//! whether an orbit escaped, whether a candidate was accepted.

pub mod codec;
pub mod histogram;
pub mod naming;
pub mod progress;
pub mod random;
pub mod report;
pub mod sampler;
pub mod text;
pub mod worker;

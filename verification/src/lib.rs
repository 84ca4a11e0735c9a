//! Verified core of a real-time video augmentation pipeline.
//!
//! The library covers the parts of the pipeline that carry real logic:
//! frame buffers with explicit format and stride invariants (`frame`),
//! the pixel filters and connected-component extraction (`filters`),
//! the analysis stage that drives them (`analyzer`), the decode-loop
//! state machine with its seamless-looping semantics (`source`), the
//! producer/consumer frame handoff (`channel`), generic memoization of
//! a derived value (`cache`), the hot-reloadable shader program state
//! machine (`program`), and frame pacing (`pacer`).
//!
//! Decoding, GPU upload, window management and filesystem watches are
//! external collaborators: a driver performs them and feeds their
//! outcomes to the state machines specified here.

use vstd::prelude::*;

pub mod analyzer;
pub mod cache;
pub mod channel;
pub mod components;
pub mod filters;
pub mod frame;
pub mod pacer;
pub mod program;
pub mod source;

verus! {

} // verus!

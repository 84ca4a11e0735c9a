//! The decode-loop state machine of the frame source.
//!
//! The real decoder runs on its own thread at the edge of the
//! process: it opens the container, pulls packets, and reports one of
//! three events per step — a frame was decoded, the end of the stream
//! was reached, or decoding failed. This module holds the decisions
//! the loop makes on those events: which frame index each emission
//! carries, that end-of-stream reopens the input for a seamless loop,
//! and that a hard error ends the loop for good and is reported once.

use vstd::prelude::*;
use vstd::arithmetic::div_mod::{
    lemma_fundamental_div_mod, lemma_fundamental_div_mod_converse_mod,
    lemma_mod_add_multiples_vanish, lemma_mod_bound,
};

verus! {

/// Fixed inter-frame delay of the producer, in milliseconds. The
/// source throttles itself at roughly this cadence independent of the
/// consumer's draw rate; it does not read presentation timestamps, so
/// playback is only approximately real-time.
pub const FRAME_DELAY_MS: u64 = 16;

/// What can go wrong opening or decoding the input.
#[derive(Clone, Copy, PartialEq, Eq, Structural, Debug)]
pub enum SourceError {
    /// The input has no usable video stream.
    NotFound,
    /// The stream's codec is not supported.
    UnsupportedCodec,
    /// The file or stream could not be opened or read.
    IoError,
    /// The stream is malformed.
    DecodeError,
}

/// The index of the frame emitted at step `k` of looped playback over
/// `n` frames.
pub open spec fn frame_index_at(k: nat, n: nat) -> nat {
    k % n
}

/// Decode-loop state for one input whose single pass decodes to
/// `n_frames` frames. Reaching end-of-stream is not an error: the
/// input is reopened and decoding restarts from the beginning, an
/// endless seamless loop. A hard error stops the loop for good.
#[derive(Clone, Copy)]
pub struct FrameSource {
    /// Frames one pass of the input decodes to.
    pub n_frames: usize,
    /// Index of the next frame within the current pass.
    pub pos: usize,
    /// Total frames emitted since the source was opened.
    pub emitted: Ghost<nat>,
    /// A hard error was reported; the loop is over.
    pub failed: bool,
}

impl FrameSource {
    /// The position always equals the emission count modulo the pass
    /// length; at the end of a pass it sits just past the last frame.
    pub open spec fn wf(self) -> bool {
        &&& self.n_frames >= 1
        &&& self.pos <= self.n_frames
        &&& (self.pos as int == (self.emitted@ as int) % (self.n_frames as int) || (self.pos
            == self.n_frames && (self.emitted@ as int) % (self.n_frames as int) == 0))
    }

    /// Opens a source over an input that decodes to `n_frames` frames
    /// per pass; an input with no decodable video frames is rejected.
    pub fn open(n_frames: usize) -> (result: Result<FrameSource, SourceError>)
        ensures
            match result {
                Ok(source) => {
                    &&& n_frames >= 1
                    &&& source.wf()
                    &&& source.n_frames == n_frames
                    &&& source.pos == 0
                    &&& source.emitted@ == 0
                    &&& !source.failed
                },
                Err(e) => {
                    &&& e == SourceError::NotFound
                    &&& n_frames == 0
                },
            },
    {
        if n_frames == 0 {
            return Err(SourceError::NotFound);
        }
        Ok(FrameSource { n_frames, pos: 0, emitted: Ghost(0), failed: false })
    }

    /// A frame was decoded: the source emits it and advances. The
    /// returned index says which frame of the pass this is, and equals
    /// the emission count modulo the pass length — the emitted
    /// sequence of indices is periodic with period `n_frames`.
    pub fn next_frame(&mut self) -> (index: usize)
        requires
            old(self).wf(),
            !old(self).failed,
            old(self).pos < old(self).n_frames,
        ensures
            final(self).wf(),
            index == old(self).pos,
            index as nat == frame_index_at(old(self).emitted@, old(self).n_frames as nat),
            final(self).n_frames == old(self).n_frames,
            final(self).pos == old(self).pos + 1,
            final(self).emitted@ == old(self).emitted@ + 1,
            !final(self).failed,
    {
        let index = self.pos;
        proof {
            let e = self.emitted@ as int;
            let n = self.n_frames as int;
            let p = self.pos as int;
            lemma_fundamental_div_mod(e, n);
            lemma_mod_bound(e, n);
            let q = e / n;
            assert(e + 1 == q * n + (p + 1)) by (nonlinear_arith)
                requires
                    e == n * q + p,
            ;
            if p + 1 < n {
                lemma_fundamental_div_mod_converse_mod(e + 1, n, q, p + 1);
            } else {
                assert(e + 1 == (q + 1) * n + 0) by (nonlinear_arith)
                    requires
                        e + 1 == q * n + (p + 1),
                        p + 1 == n,
                ;
                lemma_fundamental_div_mod_converse_mod(e + 1, n, q + 1, 0);
            }
        }
        self.pos = self.pos + 1;
        self.emitted = Ghost(self.emitted@ + 1);
        index
    }

    /// End-of-stream was reached with the pass complete: not an
    /// error. The input is reopened and decoding restarts from the
    /// beginning, continuing the seamless loop.
    pub fn end_of_stream(&mut self)
        requires
            old(self).wf(),
            !old(self).failed,
            old(self).pos == old(self).n_frames,
        ensures
            final(self).wf(),
            final(self).n_frames == old(self).n_frames,
            final(self).pos == 0,
            final(self).emitted@ == old(self).emitted@,
            !final(self).failed,
    {
        self.pos = 0;
    }

    /// A hard decode or demux error: the loop is over. The error is
    /// handed back exactly once for reporting; the source does not
    /// retry and does not resume.
    pub fn fail(&mut self, error: SourceError) -> (reported: SourceError)
        requires
            old(self).wf(),
            !old(self).failed,
        ensures
            final(self).wf(),
            final(self).failed,
            final(self).n_frames == old(self).n_frames,
            final(self).pos == old(self).pos,
            final(self).emitted@ == old(self).emitted@,
            reported == error,
    {
        self.failed = true;
        error
    }
}

/// Looped playback is periodic: over an input with `n` decodable
/// frames and no errors, the frame index emitted at step `k + n` is
/// the one emitted at step `k`, indefinitely — each pass decodes the
/// same input, so the produced frame sequence has period `n`.
pub proof fn lemma_source_periodic(k: nat, n: nat)
    requires
        n >= 1,
    ensures
        frame_index_at(k + n, n) == frame_index_at(k, n),
{
    lemma_mod_add_multiples_vanish(k as int, n as int);
}

} // verus!

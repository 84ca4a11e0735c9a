//! Generic memoization of an expensive derived value — the frame
//! cache: a derived value is recomputed only when a new source
//! arrives, and served unchanged to every read in between, decoupling
//! the producer's rate from the consumer's.

use vstd::prelude::*;
use crate::filters::{blur, blur_map, luma_map, threshold, threshold_map, to_gray, MAX_DIM};
use crate::frame::{Frame, PixelFormat};

verus! {

/// A transformation from sources to derived values, with its contract:
/// `pre` says which sources it accepts, `post` what it guarantees of
/// the derived value.
pub trait Transform<S, D>: Sized {
    /// Sources the transformation accepts.
    spec fn pre(&self, source: S) -> bool;

    /// What holds of the derived value computed from `source`.
    spec fn post(&self, source: S, derived: D) -> bool;

    /// Computes the derived value.
    fn apply(&self, source: &S) -> (derived: D)
        requires
            self.pre(*source),
        ensures
            self.post(*source, derived),
    ;
}

/// A derived value paired with the transformation that produced it
/// from the most recent source. The derived value is always
/// consistent with the last source passed to `update` (eagerly, never
/// lazily), and `current` never blocks or recomputes.
pub struct CachedValue<S, D, T: Transform<S, D>> {
    /// The transformation that computes derived values.
    pub transform: T,
    /// The derived value computed from the last source.
    pub derived: D,
    /// The last source seen, kept for specification only.
    pub last_source: Ghost<S>,
}

impl<S, D, T: Transform<S, D>> CachedValue<S, D, T> {
    /// The stored derived value satisfies the transform's contract on
    /// the last source.
    pub open spec fn wf(self) -> bool {
        &&& self.transform.pre(self.last_source@)
        &&& self.transform.post(self.last_source@, self.derived)
    }

    /// Eagerly computes and stores `transform(seed)`.
    pub fn new(transform: T, seed: S) -> (cache: CachedValue<S, D, T>)
        requires
            transform.pre(seed),
        ensures
            cache.wf(),
            cache.transform == transform,
            cache.last_source@ == seed,
    {
        let derived = transform.apply(&seed);
        CachedValue { transform, derived, last_source: Ghost(seed) }
    }

    /// Recomputes and overwrites the stored derived value
    /// unconditionally: there is no equality check on the new source;
    /// the caller is responsible for calling this only when new data
    /// actually arrived.
    pub fn update(&mut self, source: S)
        requires
            old(self).transform.pre(source),
        ensures
            final(self).wf(),
            final(self).transform == old(self).transform,
            final(self).last_source@ == source,
            final(self).transform.post(source, final(self).derived),
    {
        let derived = self.transform.apply(&source);
        self.derived = derived;
        self.last_source = Ghost(source);
    }

    /// The last computed derived value; never blocks or recomputes.
    /// Immediately after `update(source)` this is exactly the value
    /// the transformation computed from `source`, whatever sequence
    /// of updates came before.
    pub fn current(&self) -> (derived: &D)
        requires
            self.wf(),
        ensures
            derived == &self.derived,
            self.transform.post(self.last_source@, *derived),
    {
        &self.derived
    }
}

/// The closed set of frame filters a cache or a display path can be
/// configured with, one variant per interchangeable pixel filter.
pub enum FrameFilter {
    /// Convert a three-channel frame to its luminance.
    Grayscale,
    /// Box-blur a single-channel frame with an odd kernel size.
    Blur(usize),
    /// Threshold a single-channel frame at a luminance bound.
    Threshold(u8),
}

impl Transform<Frame, Frame> for FrameFilter {
    open spec fn pre(&self, source: Frame) -> bool {
        match *self {
            FrameFilter::Grayscale => {
                &&& source.wf()
                &&& source.format.spec_bytes_per_pixel() == 3
            },
            FrameFilter::Blur(k) => {
                &&& source.wf()
                &&& source.format == PixelFormat::Gray8
                &&& source.width <= MAX_DIM
                &&& source.height <= MAX_DIM
                &&& 1 <= k <= 255
                &&& k % 2 == 1
            },
            FrameFilter::Threshold(_) => {
                &&& source.wf()
                &&& source.format == PixelFormat::Gray8
            },
        }
    }

    open spec fn post(&self, source: Frame, derived: Frame) -> bool {
        &&& derived.wf()
        &&& derived.width == source.width
        &&& derived.height == source.height
        &&& derived.format == PixelFormat::Gray8
        &&& match *self {
            FrameFilter::Grayscale => derived.gray_grid() == luma_map(source),
            FrameFilter::Blur(k) => derived.gray_grid() == blur_map(
                source.width as int,
                source.height as int,
                source.gray_grid(),
                k as nat,
            ),
            FrameFilter::Threshold(t) => derived.gray_grid() == threshold_map(
                source.gray_grid(),
                t,
            ),
        }
    }

    fn apply(&self, source: &Frame) -> (derived: Frame) {
        match self {
            FrameFilter::Grayscale => to_gray(source),
            FrameFilter::Blur(k) => blur(source, *k),
            FrameFilter::Threshold(t) => threshold(source, *t),
        }
    }
}

} // verus!

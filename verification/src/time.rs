//! Rollback-aware time: the simulated time of a frame follows from the frame number and the
//! rollback frame rate alone, so it is restored exactly by a rollback.

use crate::snapshot::DEFAULT_FPS;
use vstd::prelude::*;

verus! {

/// The rate, in frames per second, at which the rollback simulation advances.
pub struct RollbackFrameRate(pub usize);

impl RollbackFrameRate {
    /// The number of frames per second.
    pub fn frames_per_second(&self) -> (r: usize)
        ensures
            r == self.0,
    {
        self.0
    }
}

impl Default for RollbackFrameRate {
    /// The default rate of 60 frames per second.
    fn default() -> (r: Self)
        ensures
            r.0 == DEFAULT_FPS,
    {
        RollbackFrameRate(DEFAULT_FPS)
    }
}

/// Marker for the rollback clock.
pub struct GgrsTime;

/// The simulated time, in nanoseconds, at the start of `frame` when running at `framerate`
/// frames per second.
pub open spec fn frame_runtime_nanos_spec(frame: i32, framerate: usize) -> int {
    frame * 1_000_000_000 / framerate as int
}

/// The simulated time, in nanoseconds, at the start of `frame`. Scaling to nanoseconds before
/// dividing keeps the rounding error below a nanosecond.
pub fn frame_runtime_nanos(frame: i32, framerate: usize) -> (r: u64)
    requires
        frame >= 0,
        framerate > 0,
    ensures
        r == frame_runtime_nanos_spec(frame, framerate),
{
    let this_frame = frame as u64;
    let framerate = framerate as u64;
    assert(this_frame * 1_000_000_000 <= 0x7fff_ffff * 1_000_000_000) by (nonlinear_arith)
        requires
            this_frame <= 0x7fff_ffff,
    ;
    this_frame * 1_000_000_000 / framerate
}

/// Time never runs backwards while frames advance: a later frame starts no earlier.
pub proof fn law_runtime_monotonic(a: i32, b: i32, framerate: usize)
    requires
        0 <= a <= b,
        framerate > 0,
    ensures
        frame_runtime_nanos_spec(a, framerate) <= frame_runtime_nanos_spec(b, framerate),
{
    assert(a * 1_000_000_000 <= b * 1_000_000_000) by (nonlinear_arith)
        requires
            a <= b,
    ;
    vstd::arithmetic::div_mod::lemma_div_is_ordered(
        a * 1_000_000_000,
        b * 1_000_000_000,
        framerate as int,
    );
}

/// At the rollback frame rate, frame `n * framerate` starts exactly `n` seconds in.
pub proof fn law_whole_seconds(n: int, framerate: usize)
    requires
        n >= 0,
        framerate > 0,
        n * framerate <= 0x7fff_ffff,
    ensures
        frame_runtime_nanos_spec((n * framerate) as i32, framerate) == n * 1_000_000_000,
{
    assert((n * framerate) * 1_000_000_000 == (n * 1_000_000_000) * framerate) by (nonlinear_arith);
    vstd::arithmetic::div_mod::lemma_div_multiples_vanish(n * 1_000_000_000, framerate as int);
    assert(framerate as int * (n * 1_000_000_000) == (n * 1_000_000_000) * framerate) by (nonlinear_arith);
}

} // verus!

use vstd::prelude::*;
use std::time::Duration;

verus! {

/// Terminal columns per world x-unit; with one row per y-unit a world
/// square renders as a square on the terminal.
pub const SCALE_X: u16 = 2;

/// Terminal rows per world y-unit.
pub const SCALE_Y: u16 = 1;

/// Length of one simulation step, in milliseconds.
pub const STEP_MILLIS: u64 = 50;

/// What `Duration::from_millis` returns for a number of milliseconds.
pub uninterp spec fn millis_duration(ms: u64) -> Duration;

/// Calls `std::time::Duration::from_millis`, which builds the duration of
/// `ms` milliseconds; the result is named by `millis_duration`.
#[verifier::external_body]
fn duration_from_millis(ms: u64) -> (d: Duration)
    ensures
        d == millis_duration(ms),
{
    Duration::from_millis(ms)
}

/// Size of the simulated world, in world units, and the length of a step.
#[derive(Debug)]
pub struct WorldConfig {
    w: u16,
    h: u16,
    pub timestep: Duration,
}

impl WorldConfig {
    /// Width of the world, as a spec value.
    pub closed spec fn spec_width(&self) -> u16 {
        self.w
    }

    /// Height of the world, as a spec value.
    pub closed spec fn spec_height(&self) -> u16 {
        self.h
    }

    /// Length of one step, as a spec value.
    pub closed spec fn spec_timestep(&self) -> Duration {
        self.timestep
    }

    /// A world of `w` by `h` units that steps every 50 milliseconds.
    pub fn new(w: u16, h: u16) -> (c: Self)
        ensures
            c.spec_width() == w,
            c.spec_height() == h,
            c.spec_timestep() == millis_duration(STEP_MILLIS),
    {
        WorldConfig { w, h, timestep: duration_from_millis(STEP_MILLIS) }
    }

    /// Width of the world, in world units.
    pub fn width(&self) -> (r: u16)
        ensures
            r == self.spec_width(),
    {
        self.w
    }

    /// Height of the world, in world units.
    pub fn height(&self) -> (r: u16)
        ensures
            r == self.spec_height(),
    {
        self.h
    }

    /// Size of the simulation area in terminal cells, columns then rows.
    pub fn screen_dims(&self) -> (r: (u16, u16))
        requires
            self.spec_width() * SCALE_X <= u16::MAX,
        ensures
            r.0 == self.spec_width() * SCALE_X,
            r.1 == self.spec_height() * SCALE_Y,
    {
        (self.w * SCALE_X, self.h * SCALE_Y)
    }

    /// Size of the terminal that shows the simulation area and the border
    /// on each side of it.
    pub fn terminal_size(&self) -> (r: (u16, u16))
        requires
            self.spec_width() * SCALE_X + 2 <= u16::MAX,
            self.spec_height() * SCALE_Y + 2 <= u16::MAX,
        ensures
            r.0 == self.spec_width() * SCALE_X + 2,
            r.1 == self.spec_height() * SCALE_Y + 2,
    {
        let (sw, sh) = self.screen_dims();
        (sw + 2, sh + 2)
    }
}

} // verus!

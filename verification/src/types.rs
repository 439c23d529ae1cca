use vstd::prelude::*;

verus! {

/// The three speed tiers a vehicle can be assigned at spawn, in pixels per
/// tick.
pub struct Speed {
    pub fast: i32,
    pub default: i32,
    pub slow: i32,
}

/// Geometry constants, read-only after startup.  All vehicle positions and
/// turn thresholds are derived from these.  The square footprint of a vehicle
/// has side `lane_width`, which is also the width of one lane.
pub struct Dimensions {
    pub window_width: i32,
    pub window_height: i32,
    pub half_width: i32,
    pub half_height: i32,
    pub lane_width: i32,
    pub speed: Speed,
}

/// A screen-relative travel direction.  It describes both a vehicle's
/// direction at spawn and its direction after its turn, always from the
/// viewer's perspective.
#[derive(Debug, PartialEq, Eq, Structural, Copy, Clone)]
pub enum Airt {
    Up,
    Down,
    Left,
    Right,
}

impl Dimensions {
    /// A well-formed geometry: the half sizes are really the window halves,
    /// the six lanes of the intersection fit inside the window, and every
    /// constant is positive and small enough that no position or threshold
    /// computation can leave `i32`.
    pub open spec fn wf(&self) -> bool {
        &&& 1 <= self.lane_width <= 100_000
        &&& 0 <= self.window_width <= 1_000_000
        &&& 0 <= self.window_height <= 1_000_000
        &&& self.half_width == self.window_width / 2
        &&& self.half_height == self.window_height / 2
        &&& 6 * self.lane_width <= self.window_width
        &&& 6 * self.lane_width <= self.window_height
        &&& 1 <= self.speed.fast <= 100_000
        &&& 1 <= self.speed.default <= 100_000
        &&& 1 <= self.speed.slow <= 100_000
    }

    /// Runtime check of `wf`, for callers outside the verified library.
    pub fn is_wf(&self) -> (b: bool)
        ensures
            b == self.wf(),
    {
        1 <= self.lane_width && self.lane_width <= 100_000
            && 0 <= self.window_width && self.window_width <= 1_000_000
            && 0 <= self.window_height && self.window_height <= 1_000_000
            && 0 <= self.half_width && self.half_width <= 500_000
            && 0 <= self.half_height && self.half_height <= 500_000
            && (2 * self.half_width == self.window_width
                || 2 * self.half_width + 1 == self.window_width)
            && (2 * self.half_height == self.window_height
                || 2 * self.half_height + 1 == self.window_height)
            && 6 * self.lane_width <= self.window_width
            && 6 * self.lane_width <= self.window_height
            && 1 <= self.speed.fast && self.speed.fast <= 100_000
            && 1 <= self.speed.default && self.speed.default <= 100_000
            && 1 <= self.speed.slow && self.speed.slow <= 100_000
    }
}

} // verus!

//! Stratified event-queue regions.
//!
//! Within a single simulation time slot, events are processed in a fixed order
//! of *regions*. The ordering is what makes blocking vs. non-blocking
//! assignments, `#0`, and sampling deterministic:
//!
//! ```text
//! Preponed  -> Active <-> Inactive -> NBA  -> Observed -> Reactive -> Postponed
//!                  ^___________________|  (loop until all three drain)
//! ```
use vstd::prelude::*;

verus! {

/// A stratified event-queue region. Ordered by scheduling priority.
#[derive(Debug, Clone, Copy, PartialEq, Eq, PartialOrd, Ord, Hash, Structural)]
pub enum Region {
    /// Sample values before anything mutates them.
    Preponed,
    /// Blocking assignments, evaluation of non-blocking right-hand sides.
    Active,
    /// Explicit zero-delay events.
    Inactive,
    /// Apply non-blocking updates.
    Nba,
    /// Assertion and coverage sampling.
    Observed,
    /// Testbench reactive code.
    Reactive,
    /// Read-only end of slot.
    Postponed,
}

/// All regions in scheduling order.
pub open spec fn all_regions() -> Seq<Region> {
    seq![
        Region::Preponed,
        Region::Active,
        Region::Inactive,
        Region::Nba,
        Region::Observed,
        Region::Reactive,
        Region::Postponed,
    ]
}

impl Region {
    /// All regions in scheduling order.
    pub const ALL: [Region; 7] = [
        Region::Preponed,
        Region::Active,
        Region::Inactive,
        Region::Nba,
        Region::Observed,
        Region::Reactive,
        Region::Postponed,
    ];

    /// The position of a region in [`all_regions`].
    pub open spec fn rank(self) -> int {
        match self {
            Region::Preponed => 0,
            Region::Active => 1,
            Region::Inactive => 2,
            Region::Nba => 3,
            Region::Observed => 4,
            Region::Reactive => 5,
            Region::Postponed => 6,
        }
    }

    /// The region's scheduling priority (lower runs earlier in a time slot).
    pub fn priority(self) -> (p: u8)
        ensures
            p == self.rank(),
    {
        match self {
            Region::Preponed => 0,
            Region::Active => 1,
            Region::Inactive => 2,
            Region::Nba => 3,
            Region::Observed => 4,
            Region::Reactive => 5,
            Region::Postponed => 6,
        }
    }

    /// The next region in the same time slot, or `None` after `Postponed`.
    pub fn next(self) -> (r: Option<Region>)
        ensures
            r == (if self.rank() + 1 < all_regions().len() {
                Some(all_regions()[self.rank() + 1])
            } else {
                None
            }),
    {
        match self {
            Region::Preponed => Some(Region::Active),
            Region::Active => Some(Region::Inactive),
            Region::Inactive => Some(Region::Nba),
            Region::Nba => Some(Region::Observed),
            Region::Observed => Some(Region::Reactive),
            Region::Reactive => Some(Region::Postponed),
            Region::Postponed => None,
        }
    }
}

/// Priorities are dense: the region at position `i` of the scheduling order has
/// priority `i`, and every region stands at the position of its priority.
pub proof fn priorities_follow_order(i: int, r: Region)
    requires
        0 <= i < all_regions().len(),
    ensures
        all_regions()[i].rank() == i,
        0 <= r.rank() < all_regions().len(),
        all_regions()[r.rank()] == r,
{
}

} // verus!

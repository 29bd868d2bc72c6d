//! Half-open time intervals in nanoseconds since the epoch.

use vstd::prelude::*;

verus! {

/// Half-open time interval `[start_ns, end_ns)`.
#[derive(Debug, Clone, Copy, PartialEq, Eq, PartialOrd, Ord, Hash, Structural)]
pub struct TimeInterval {
    pub start_ns: i64,
    pub end_ns: i64,
}

impl TimeInterval {
    /// The instant `t` lies in this interval.
    pub open spec fn holds(self, t: int) -> bool {
        self.start_ns <= t < self.end_ns
    }

    /// The interval holds at least one instant.
    pub open spec fn proper(self) -> bool {
        self.start_ns < self.end_ns
    }

    /// The distance from start to end, which may exceed an `i64`.
    pub open spec fn span(self) -> int {
        self.end_ns - self.start_ns
    }

    /// Each interval starts before the other ends.
    pub open spec fn meets(self, other: TimeInterval) -> bool {
        self.start_ns < other.end_ns && other.start_ns < self.end_ns
    }

    /// This interval starts no earlier and ends no later than `other`.
    pub open spec fn within(self, other: TimeInterval) -> bool {
        self.start_ns >= other.start_ns && self.end_ns <= other.end_ns
    }

    pub fn new(start_ns: i64, end_ns: i64) -> (interval: Self)
        ensures
            interval.start_ns == start_ns,
            interval.end_ns == end_ns,
    {
        Self { start_ns, end_ns }
    }

    /// Check if this interval is completely contained within another interval.
    pub fn is_contained_in(&self, other: &TimeInterval) -> (contained: bool)
        ensures
            contained == self.within(*other),
    {
        self.start_ns >= other.start_ns && self.end_ns <= other.end_ns
    }

    /// Check if this interval overlaps with another.
    pub fn overlaps(&self, other: &TimeInterval) -> (overlapping: bool)
        ensures
            overlapping == self.meets(*other),
    {
        self.start_ns < other.end_ns && other.start_ns < self.end_ns
    }

    /// Get the length of this interval, which has to fit in an `i64`.
    pub fn length(&self) -> (length: i64)
        requires
            i64::MIN <= self.span() <= i64::MAX,
        ensures
            length == self.span(),
    {
        self.end_ns - self.start_ns
    }
}

/// Two intervals that hold instants overlap exactly when they share one, whichever is asked.
pub proof fn law_overlap_is_a_shared_instant(a: TimeInterval, b: TimeInterval)
    requires
        a.proper(),
        b.proper(),
    ensures
        a.meets(b) == b.meets(a),
        a.meets(b) <==> exists|t: int| a.holds(t) && b.holds(t),
{
    if a.meets(b) {
        let t: int = if a.start_ns <= b.start_ns {
            b.start_ns as int
        } else {
            a.start_ns as int
        };
        assert(a.holds(t) && b.holds(t));
    }
}

/// An interval that holds instants is contained in another exactly when the other holds all of
/// them.
pub proof fn law_containment_is_by_instants(a: TimeInterval, b: TimeInterval)
    requires
        a.proper(),
    ensures
        a.within(b) <==> forall|t: int| a.holds(t) ==> b.holds(t),
{
    if forall|t: int| a.holds(t) ==> b.holds(t) {
        assert(a.holds(a.start_ns as int));
        assert(a.holds(a.end_ns - 1));
    }
}

/// Whatever their ends are, one interval overlaps another where each starts before the other ends,
/// is contained in it where it neither starts earlier nor ends later, and is as long as its ends
/// are apart.
pub proof fn law_intervals_are_compared_by_their_ends(a: TimeInterval, b: TimeInterval, t: int)
    ensures
        a.meets(b) <==> a.start_ns < b.end_ns && b.start_ns < a.end_ns,
        a.within(b) <==> b.start_ns <= a.start_ns && a.end_ns <= b.end_ns,
        a.span() + a.start_ns == a.end_ns,
        a.proper() <==> a.start_ns < a.end_ns,
        a.holds(t) <==> a.start_ns <= t && t < a.end_ns,
{
}

} // verus!

use vstd::prelude::*;

verus! {

/// A span of time with millisecond resolution. Callers own the wall
/// clock; the engine only ever sees an elapsed offset.
#[derive(Clone, Copy, Debug, PartialEq, Eq, Structural)]
pub struct Milliseconds(pub u64);

/// An exact ratio `num / den`. The engine keeps progress values as
/// fractions instead of rounding them early, so a progress of ten
/// milliseconds into a twenty-millisecond playthrough is exactly
/// `10 / 20`.
#[derive(Clone, Copy, Debug, PartialEq, Eq, Structural)]
pub struct Fraction {
    pub num: u64,
    pub den: u64,
}

impl Fraction {
    /// A fraction that can serve as a progress value: a well-defined
    /// ratio no greater than one.
    pub open spec fn is_progress(self) -> bool {
        1 <= self.den && self.num <= self.den
    }
}

} // verus!

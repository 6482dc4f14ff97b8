use crate::units::Fraction;
use crate::units::Milliseconds;
use vstd::prelude::*;

verus! {

/// An easing curve over one fixed duration: an interchangeable strategy
/// that turns an elapsed time into a progress fraction. New curves can
/// be added without touching the drivers that consume them.
pub trait Easing {
    /// Well-formedness of the curve's configuration.
    spec fn wf(&self) -> bool;

    /// The configured duration, as a count of milliseconds.
    spec fn spec_duration(&self) -> int;

    /// The progress fraction the curve yields at an elapsed time.
    spec fn spec_value_at(&self, time: int) -> Fraction;

    /// The duration of one playthrough of the curve; never zero.
    fn duration(&self) -> (d: Milliseconds)
        requires
            self.wf(),
        ensures
            d.0 == self.spec_duration(),
            1 <= d.0,
    ;

    /// The progress value at elapsed time `time`.
    fn value_at(&self, time: Milliseconds) -> (r: Fraction)
        requires
            self.wf(),
        ensures
            r == self.spec_value_at(time.0 as int),
    ;
}

/// The linear curve: progress is elapsed time over duration, exactly.
#[derive(Clone, Copy, Debug, PartialEq, Eq, Structural)]
pub struct LinearEasing {
    pub duration: Milliseconds,
}

impl LinearEasing {
    /// Build a linear curve, rejecting a zero duration at construction
    /// time: progress over an empty span would be undefined.
    pub fn new(duration: Milliseconds) -> (r: Option<LinearEasing>)
        ensures
            duration.0 == 0 <==> r is None,
            r matches Some(e) ==> e == (LinearEasing { duration }) && e.wf(),
    {
        if duration.0 == 0 {
            None
        } else {
            Some(LinearEasing { duration })
        }
    }
}

impl Easing for LinearEasing {
    open spec fn wf(&self) -> bool {
        1 <= self.duration.0
    }

    open spec fn spec_duration(&self) -> int {
        self.duration.0 as int
    }

    open spec fn spec_value_at(&self, time: int) -> Fraction {
        Fraction { num: time as u64, den: self.duration.0 }
    }

    fn duration(&self) -> (d: Milliseconds) {
        self.duration
    }

    fn value_at(&self, time: Milliseconds) -> (r: Fraction) {
        Fraction { num: time.0, den: self.duration.0 }
    }
}

/// How a driver treats elapsed time past the end of one playthrough.
#[derive(Clone, Copy, Debug, PartialEq, Eq, Structural)]
pub enum Mode {
    /// Loop the animation forever.
    Loop,
}

/// Drives an easing curve according to a `Mode`: each query wraps the
/// elapsed time into the curve's duration and reads the curve there.
pub struct EasingDriver<E> {
    pub easing: E,
    pub mode: Mode,
}

impl<E: Easing> EasingDriver<E> {
    pub open spec fn wf(self) -> bool {
        self.easing.wf()
    }

    pub fn new(easing: E, mode: Mode) -> (r: Self)
        ensures
            r.easing == easing,
            r.mode == mode,
    {
        EasingDriver { easing, mode }
    }

    /// The curve's progress value at `time`, wrapped modulo the curve's
    /// duration.
    pub fn drive(&self, time: Milliseconds) -> (r: Fraction)
        requires
            self.wf(),
        ensures
            r == self.easing.spec_value_at(time.0 as int % self.easing.spec_duration()),
    {
        let duration = self.easing.duration();
        let wrapped: u64 = match self.mode {
            Mode::Loop => time.0 % duration.0,
        };
        self.easing.value_at(Milliseconds(wrapped))
    }
}

} // verus!

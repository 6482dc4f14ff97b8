//! A small, allocation-free animation engine: time-driven interpolation
//! between two values, run once or repeated from a monotonic clock.
//!
//! Values are plain signed integers in whatever resolution the caller
//! picks (for instance millionths of an angle); time is counted in
//! integer milliseconds. All arithmetic is exact, so the engine's
//! behaviour at the endpoints, its monotonicity and its looping
//! periodicity are proved rather than approximated.

pub mod driver;
pub mod easing;
pub mod units;

pub use driver::Driver;
pub use driver::Error;
pub use driver::Looper;
pub use units::Fraction;
pub use units::Milliseconds;

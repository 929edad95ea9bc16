//! An exact rational-number value type: a fraction held as a signed
//! numerator over a positive denominator, always reduced to lowest terms.
//! Construction normalizes, every arithmetic operation re-normalizes, and
//! comparisons go by exact cross-multiplication, never through floating
//! point.

pub mod gcd;
pub mod fraction;
pub mod render;

pub use fraction::MyFraction;

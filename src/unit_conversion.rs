use vstd::prelude::*;

pub mod length;
pub mod temperature;

verus! {

/// A unit of measure within one dimension.
///
/// `Dimension` is a marker type shared by every unit of the same physical
/// dimension; code that converts between units bounds both of them by the same
/// `Dimension`, so that a temperature can never be read back as a length.
/// The numeric conversions to and from the dimension's base unit are
/// floating-point functions and are attached to the units by the code that
/// performs the arithmetic.
pub trait Unit {
    /// The dimension this unit measures.
    type Dimension;

    /// The symbol printed after a value in this unit.
    const SYMBOL: &'static str;
}

} // verus!

use vstd::prelude::*;

use crate::unit_conversion::Unit;

verus! {

/// Marker for the length dimension, whose base unit is the meter. It has no
/// public constructor: it only tags units.
pub struct LengthDim {
    _tag: (),
}

/// The meter, base unit of length.
pub struct Meter;

impl Unit for Meter {
    type Dimension = LengthDim;

    const SYMBOL: &'static str = "m";
}

/// The kilometer: 1000 meters.
pub struct Kilometer;

impl Unit for Kilometer {
    type Dimension = LengthDim;

    const SYMBOL: &'static str = "km";
}

/// The international foot: 0.3048 meters.
pub struct Foot;

impl Unit for Foot {
    type Dimension = LengthDim;

    const SYMBOL: &'static str = "ft";
}

} // verus!

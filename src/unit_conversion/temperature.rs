use vstd::prelude::*;

use crate::unit_conversion::Unit;

verus! {

/// Marker for the temperature dimension, whose base unit is the kelvin. It has
/// no public constructor: it only tags units.
pub struct TemperatureDimension {
    _tag: (),
}

/// The kelvin, base unit of temperature.
pub struct Kelvin;

impl Unit for Kelvin {
    type Dimension = TemperatureDimension;

    const SYMBOL: &'static str = "K";
}

/// The degree Celsius: kelvin shifted by 273.15.
pub struct Celsius;

impl Unit for Celsius {
    type Dimension = TemperatureDimension;

    const SYMBOL: &'static str = "°C";
}

/// The degree Fahrenheit: 5/9 of a kelvin, with water freezing at 32.
pub struct Fahrenheit;

impl Unit for Fahrenheit {
    type Dimension = TemperatureDimension;

    const SYMBOL: &'static str = "°F";
}

} // verus!

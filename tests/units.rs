use utilities::unit_conversion::length::{Foot, Kilometer, Meter};
use utilities::unit_conversion::temperature::{Celsius, Fahrenheit, Kelvin};
use utilities::unit_conversion::Unit;

#[test]
fn length_symbols_exist() {
    assert_eq!(Meter::SYMBOL, "m");
    assert_eq!(Kilometer::SYMBOL, "km");
    assert_eq!(Foot::SYMBOL, "ft");
}

#[test]
fn temperature_symbols() {
    assert_eq!(Kelvin::SYMBOL, "K");
    assert_eq!(Celsius::SYMBOL, "°C");
    assert_eq!(Fahrenheit::SYMBOL, "°F");
}

pub mod unit_conversion;
pub mod util;

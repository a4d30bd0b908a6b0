use utilities::util::smart::{expand_exponent, trim_to_precision, Mode};

fn render(value: f64, precision: usize, mode: Mode) -> String {
    let factor = 10f64.powi(precision as i32);
    let v = match mode {
        Mode::Round => (value * factor).round() / factor,
        Mode::Trunc => (value * factor).trunc() / factor,
    };
    let mut buf = ryu::Buffer::new();
    trim_to_precision(buf.format_finite(v), precision)
}

#[test]
fn rounds_to_two_digits() {
    assert_eq!(render(1.2345, 2, Mode::Round), "1.23");
}

#[test]
fn whole_number_loses_point() {
    assert_eq!(render(2.0, 3, Mode::Round), "2");
}

#[test]
fn truncates_negative_keeping_sign() {
    assert_eq!(render(-0.5001, 2, Mode::Trunc), "-0.5");
}

#[test]
fn rounding_up_past_power_of_ten() {
    assert_eq!(render(9.996, 2, Mode::Round), "10");
}

#[test]
fn precision_zero_gives_integer_text() {
    assert_eq!(render(12.75, 0, Mode::Round), "13");
    assert_eq!(render(12.75, 0, Mode::Trunc), "12");
}

#[test]
fn trim_strips_zeros_and_point() {
    assert_eq!(trim_to_precision("2.000", 3), "2");
    assert_eq!(trim_to_precision("2.0", 3), "2");
    assert_eq!(trim_to_precision("1.50", 5), "1.5");
}

#[test]
fn trim_cuts_after_precision_digits() {
    assert_eq!(trim_to_precision("1.2345", 2), "1.23");
    assert_eq!(trim_to_precision("-0.5001", 2), "-0.5");
    assert_eq!(trim_to_precision("12.75", 0), "12");
}

#[test]
fn trim_keeps_integer_zeros() {
    assert_eq!(trim_to_precision("100.0", 1), "100");
    assert_eq!(trim_to_precision("100.0", 0), "100");
    assert_eq!(trim_to_precision("-0.0", 2), "-0");
}

#[test]
fn trim_leaves_integer_and_special_text() {
    assert_eq!(trim_to_precision("1e16", 2), "10000000000000000");
    assert_eq!(trim_to_precision("NaN", 2), "NaN");
    assert_eq!(trim_to_precision("", 2), "");
}

#[test]
fn trim_with_largest_precision() {
    assert_eq!(trim_to_precision("3.1400", usize::MAX), "3.14");
}

#[test]
fn trim_with_non_ascii_text() {
    assert_eq!(trim_to_precision("°1.500", 2), "°1.5");
}

#[test]
fn trim_expands_exponent_text() {
    assert_eq!(trim_to_precision("1.5e20", 3), "150000000000000000000");
    assert_eq!(trim_to_precision("1.5e-7", 2), "0");
    assert_eq!(trim_to_precision("1.5e-7", 8), "0.00000015");
    assert_eq!(trim_to_precision("-1.5e20", 0), "-150000000000000000000");
    assert_eq!(trim_to_precision("9.5e-6", 0), "0");
}

#[test]
fn exponent_form_values_keep_their_value() {
    let large = render(1.5e20, 3, Mode::Round);
    assert_eq!(large, "150000000000000000000");
    assert_eq!(large.parse::<f64>().unwrap(), 1.5e20);
    let small = render(1e-7, 8, Mode::Round);
    assert_eq!(small, "0.0000001");
    assert_eq!(small.parse::<f64>().unwrap(), 1e-7);
}

#[test]
fn expand_moves_the_point() {
    assert_eq!(expand_exponent("1e16"), "10000000000000000");
    assert_eq!(expand_exponent("1.5e20"), "150000000000000000000");
    assert_eq!(expand_exponent("1.2345e2"), "123.45");
    assert_eq!(expand_exponent("1.2345e4"), "12345");
    assert_eq!(expand_exponent("1e-1"), "0.1");
    assert_eq!(expand_exponent("1e-7"), "0.0000001");
    assert_eq!(expand_exponent("-1.25e-3"), "-0.00125");
    assert_eq!(expand_exponent("2.5e-324"), format!("0.{}25", "0".repeat(323)));
}

#[test]
fn expand_leaves_other_text() {
    assert_eq!(expand_exponent("1.25"), "1.25");
    assert_eq!(expand_exponent("NaN"), "NaN");
    assert_eq!(expand_exponent("1e1234"), "1e1234");
    assert_eq!(expand_exponent("e5"), "e5");
    assert_eq!(expand_exponent("1.5e"), "1.5e");
    assert_eq!(expand_exponent("-.5e2"), "-.5e2");
}

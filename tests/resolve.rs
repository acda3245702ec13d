use spice_number::{is_float_literal_prefix, resolve, Literal, NumberErrorKind, ParseNumberError};

/// The value of a resolved literal: its body read as `f64`, times ten to the
/// power of its scale.
fn value_of(l: &Literal) -> f64 {
    let base: f64 = l.body.parse().unwrap();
    let mult: f64 = format!("1e{}", l.scale).parse().unwrap();
    base * mult
}

fn value(s: &str) -> Result<f64, ParseNumberError> {
    resolve(s).map(|l| value_of(&l))
}

fn error(kind: NumberErrorKind) -> Result<f64, ParseNumberError> {
    Err(ParseNumberError { kind })
}

#[test]
fn default() {
    let d = Literal::default();
    assert_eq!(value_of(&d), 0.0);
    assert_eq!(d.raw, String::from("0"));
}

#[test]
fn int_literal() {
    assert_eq!(value("7343"), Ok(7343.0));
}

#[test]
fn plus_int() {
    assert_eq!(value("+123"), Ok(123.0));
}

#[test]
fn minus_int() {
    assert_eq!(value("-453"), Ok(-453.0));
}

#[test]
fn float() {
    assert_eq!(value("1.23"), Ok(1.23));
}

#[test]
fn plus_float() {
    assert_eq!(value("+87343.54"), Ok(87343.54));
}

#[test]
fn minus_float() {
    assert_eq!(value("-8484.00927"), Ok(-8484.00927));
}

#[test]
fn plus_int_exp_lower() {
    assert_eq!(value("+473e3"), Ok(473e3));
}

#[test]
fn minus_int_exp_upper_plus() {
    assert_eq!(value("-234E+7"), Ok(-234e7));
}

#[test]
fn int_exp_lower_plus_leading_zeros() {
    assert_eq!(value("34e+0007"), Ok(34e7));
}

#[test]
fn int_exp_upper_minus() {
    assert_eq!(value("4E-2"), Ok(4e-2));
}

#[test]
fn minus_int_exp_upper_minus_leading_zeros() {
    assert_eq!(value("-4E-08"), Ok(-4e-8));
}

#[test]
fn plus_float_exp_lower() {
    assert_eq!(value("+4.73e3"), Ok(4.73e3));
}

#[test]
fn minus_float_exp_upper_plus() {
    assert_eq!(value("-23.4E+7"), Ok(-23.4e7));
}

#[test]
fn float_exp_upper_plus() {
    assert_eq!(value("10.34E+4"), Ok(10.34e4));
}

#[test]
fn plus_int_with_unit_lower() {
    assert_eq!(value("+123t"), Ok(123e12));
}

#[test]
fn minus_int_with_unit_upper() {
    assert_eq!(value("-453X"), Ok(-453e6));
}

#[test]
fn int_with_unit_meg() {
    assert_eq!(value("7343Meg"), Ok(7343e6));
}

#[test]
fn float_with_unit_meg() {
    assert_eq!(value("1.23Meg"), Ok(1.23e6));
}

#[test]
fn plus_float_with_unit_upper() {
    assert_eq!(value("+87343.54K"), Ok(87343.54e3));
}

#[test]
fn minus_float_with_unit_lower() {
    assert_eq!(value("-8484.00923m"), Ok(-8484.00923e-3));
}

#[test]
fn float_with_unit_extra() {
    assert_eq!(value("1.23pFarad"), Ok(1.23e-12));
}

#[test]
fn exp_and_unit() {
    assert_eq!(value("123e3F"), Ok(123e3));
}

#[test]
fn invalid_empty() {
    assert_eq!(value(""), error(NumberErrorKind::Empty));
}

#[test]
fn invalid_multiple_points() {
    assert_eq!(value("1.2.3"), error(NumberErrorKind::InvalidSyntax));
}

#[test]
fn invalid_chars1() {
    assert_eq!(value("3-4"), error(NumberErrorKind::InvalidSyntax));
}

#[test]
fn invalid_chars2() {
    assert_eq!(value("3+4"), error(NumberErrorKind::InvalidSyntax));
}

#[test]
fn invalid_chars3() {
    assert_eq!(value("potato"), error(NumberErrorKind::InvalidSyntax));
}

#[test]
fn invalid_sign() {
    assert_eq!(value("+-474.0"), error(NumberErrorKind::InvalidSyntax));
}

#[test]
fn invalid_mult() {
    assert_eq!(value("474.0W"), error(NumberErrorKind::InvalidMultiplier));
}

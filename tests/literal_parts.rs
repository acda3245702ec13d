use spice_number::{is_float_literal_prefix, resolve, Literal, NumberErrorKind, ParseNumberError};

fn parts(s: &str) -> (String, i32, String) {
    let l = resolve(s).unwrap();
    (l.body, l.scale, l.raw)
}

fn kind(s: &str) -> NumberErrorKind {
    resolve(s).unwrap_err().kind
}

fn value_of(l: &Literal) -> f64 {
    let base: f64 = l.body.parse().unwrap();
    let mult: f64 = format!("1e{}", l.scale).parse().unwrap();
    base * mult
}

fn chars(s: &str) -> Vec<char> {
    s.chars().collect()
}

#[test]
fn plain_literal_is_its_own_body() {
    for s in ["0", "-17", "+2.5", "3.", "+.5", "6.02e23", "1.e5", "-4E-08"] {
        assert_eq!(parts(s), (s.to_string(), 0, s.to_string()));
    }
}

#[test]
fn plain_literal_value_matches_float_parse() {
    for s in ["7343", "-0.001", "+123.456", "9e-3"] {
        let l = resolve(s).unwrap();
        assert_eq!(value_of(&l), s.parse::<f64>().unwrap());
    }
}

#[test]
fn each_letter_suffix_in_either_case() {
    let table = [('t', 12), ('g', 9), ('x', 6), ('k', 3), ('u', -6), ('n', -9), ('p', -12), ('f', -15)];
    for (letter, scale) in table {
        for c in [letter, letter.to_ascii_uppercase()] {
            let s = format!("-2.5{}", c);
            assert_eq!(parts(&s), (String::from("-2.5"), scale, s.clone()));
        }
    }
}

#[test]
fn letter_suffix_scales_value() {
    let l = resolve("4.7u").unwrap();
    assert_eq!(value_of(&l), 4.7 * 1e-6);
    let l = resolve("2k").unwrap();
    assert_eq!(value_of(&l), 2000.0);
}

#[test]
fn m_is_milli_unless_eg_follows() {
    assert_eq!(parts("1m").1, -3);
    assert_eq!(parts("1me").1, -3);
    assert_eq!(parts("1mohm").1, -3);
    assert_eq!(parts("1Meg").1, 6);
    assert_eq!(parts("1MEG").1, 6);
    assert_eq!(parts("1mEgHz").1, 6);
    assert_eq!(parts("1M").1, -3);
}

#[test]
fn letters_after_suffix_are_not_read() {
    assert_eq!(parts("1.23pFarad"), (String::from("1.23"), -12, String::from("1.23pFarad")));
    assert_eq!(parts("5kq!"), (String::from("5"), 3, String::from("5kq!")));
}

#[test]
fn suffix_after_exponent_is_ignored() {
    assert_eq!(parts("123e3F"), (String::from("123e3"), 0, String::from("123e3F")));
    assert_eq!(parts("1e-2k"), (String::from("1e-2"), 0, String::from("1e-2k")));
    assert_eq!(parts("2E+3 volts"), (String::from("2E+3"), 0, String::from("2E+3 volts")));
}

#[test]
fn raw_keeps_sign() {
    assert_eq!(resolve("+123").unwrap().raw, String::from("+123"));
    assert_eq!(resolve("+123").unwrap().text(), "+123");
}

#[test]
fn equal_values_from_different_spellings() {
    let a = resolve("1k").unwrap();
    let b = resolve("1000").unwrap();
    let c = resolve("1e3").unwrap();
    assert_eq!(value_of(&a), value_of(&b));
    assert_eq!(value_of(&b), value_of(&c));
    assert_ne!(a.raw, b.raw);
}

#[test]
fn default_resolves_like_zero() {
    assert_eq!(Literal::default(), resolve("0").unwrap());
}

#[test]
fn empty_input() {
    assert_eq!(kind(""), NumberErrorKind::Empty);
}

#[test]
fn malformed_bodies() {
    for s in [".5", "+", "-", "1e", "1e+", "1eV", "1..2", "+.", "1.2.3k", "+e5", "1 ", "1_000", "ü"] {
        assert_eq!(kind(s), NumberErrorKind::InvalidSyntax, "{}", s);
    }
}

#[test]
fn unknown_suffix_letter() {
    for s in ["474.0W", "1a", "1.2.3W", "3Z"] {
        assert_eq!(kind(s), NumberErrorKind::InvalidMultiplier, "{}", s);
    }
}

#[test]
fn error_descriptions() {
    let d = |kind| ParseNumberError { kind }.__description().to_string();
    assert_eq!(d(NumberErrorKind::Empty), "cannot parse number from empty string");
    assert_eq!(d(NumberErrorKind::InvalidSyntax), "invalid number");
    assert_eq!(d(NumberErrorKind::InvalidMultiplier), "invalid multiplier");
}

#[test]
fn float_literal_prefixes() {
    let cs = chars("-1.5e+3k");
    assert!(is_float_literal_prefix(&cs, 7));
    assert!(is_float_literal_prefix(&cs, 4));
    assert!(is_float_literal_prefix(&cs, 3));
    assert!(!is_float_literal_prefix(&cs, 6));
    assert!(!is_float_literal_prefix(&cs, 5));
    assert!(!is_float_literal_prefix(&cs, 1));
    assert!(!is_float_literal_prefix(&cs, 0));
    assert!(!is_float_literal_prefix(&cs, 8));
    assert!(is_float_literal_prefix(&chars(".5"), 2));
    assert!(!is_float_literal_prefix(&chars("1.2.3"), 5));
}

use udf_core::num::{half_points, parse_i32, parse_i64, parse_num, push_num, twips, Num};

fn num(nanos: i64) -> String {
    let mut s = String::new();
    push_num(&mut s, nanos as i128);
    s
}

#[test]
fn decimals_parse_exactly() {
    assert_eq!(parse_num("12.5"), Some(Num { nanos: 12_500_000_000 }));
    assert_eq!(parse_num("42.51968"), Some(Num { nanos: 42_519_680_000 }));
    assert_eq!(parse_num("+.5"), Some(Num { nanos: 500_000_000 }));
    assert_eq!(parse_num("-3."), Some(Num { nanos: -3_000_000_000 }));
    assert_eq!(parse_num("0.0000000019"), Some(Num { nanos: 1 }));
    assert_eq!(parse_num("."), None);
    assert_eq!(parse_num(""), None);
    assert_eq!(parse_num(" 3"), None);
    assert_eq!(parse_num("1,5"), None);
    assert_eq!(parse_num("99999999999"), None);
}

#[test]
fn integers_parse_like_std() {
    assert_eq!(parse_i32("-2147483648"), Some(i32::MIN));
    assert_eq!(parse_i32("2147483648"), None);
    assert_eq!(parse_i32("+7"), Some(7));
    assert_eq!(parse_i32("7 "), None);
    assert_eq!(parse_i64("-16777216"), Some(-16777216));
    assert_eq!(parse_i64(""), None);
}

#[test]
fn css_numbers_round_to_hundredths() {
    assert_eq!(num(12_000_000_000), "12");
    assert_eq!(num(42_519_680_000), "42.52");
    assert_eq!(num(1_500_000_000), "1.5");
    assert_eq!(num(5_000_000), "0.01");
    assert_eq!(num(-4_000_000), "-0");
    assert_eq!(num(-18_000_000_000), "-18");
    assert_eq!(num(0), "0");
}

#[test]
fn twips_and_half_points() {
    assert_eq!(twips(12_000_000_000), 240);
    assert_eq!(twips(-25_000_000), -1);
    assert_eq!(twips(24_000_000), 0);
    assert_eq!(half_points(Num { nanos: 10_250_000_000 }), 21);
    assert_eq!(half_points(Num { nanos: 0 }), 24);
    assert_eq!(half_points(Num { nanos: -5_000_000_000 }), 24);
}

#[test]
fn exponents_parse_like_float_text() {
    assert_eq!(parse_num("1e1"), Some(Num { nanos: 10_000_000_000 }));
    assert_eq!(parse_num("2.5E-1"), Some(Num { nanos: 250_000_000 }));
    assert_eq!(parse_num("-1.5e+2"), Some(Num { nanos: -150_000_000_000 }));
    assert_eq!(parse_num("1.e1"), Some(Num { nanos: 10_000_000_000 }));
    assert_eq!(parse_num(".5e1"), Some(Num { nanos: 5_000_000_000 }));
    assert_eq!(parse_num("125e-10"), Some(Num { nanos: 12 }));
    assert_eq!(parse_num("1e-20"), Some(Num { nanos: 0 }));
    assert_eq!(parse_num("0e999999999999999999999999"), Some(Num { nanos: 0 }));
    assert_eq!(parse_num("7e-999999999999999999999999"), Some(Num { nanos: 0 }));
    assert_eq!(parse_num("1e30"), None);
    assert_eq!(parse_num("1e999999999999999999999999"), None);
    assert_eq!(parse_num("e5"), None);
    assert_eq!(parse_num("1e"), None);
    assert_eq!(parse_num("1e+"), None);
    assert_eq!(parse_num("1e5.0"), None);
    assert_eq!(parse_num(".e1"), None);
    assert_eq!(parse_num("inf"), None);
    assert_eq!(parse_num("NaN"), None);
}

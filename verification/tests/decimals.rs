use weather_ku::decimal::Decimal;

#[test]
fn decimal_literals_are_accepted() {
    for text in ["0", "7", "10", "-3", "-0", "0.5", "-0.25", "3.14159", "100.0", "12345678901234567890.5"] {
        let d = Decimal::new(text).unwrap_or_else(|| panic!("{:?}", text));
        assert_eq!(d.to_string(), text);
    }
}

#[test]
fn other_texts_are_no_decimal_literals() {
    for text in [
        "", "-", ".", "+1", "01", "-01", "1.", ".5", "1..2", "1.2.3", "1e3", "1E3", "inf", "-inf",
        "NaN", "nan", " 1", "1 ", "1,5", "--1", "1-", "0x10", "１",
    ] {
        assert!(Decimal::new(text).is_none(), "{:?}", text);
    }
}

#[test]
fn finite_floats_print_as_decimal_literals() {
    for x in [0.0f32, -0.0, 1.0, -1.5, 0.1, 1e10, 1e-10, f32::MAX, f32::MIN, f32::MIN_POSITIVE, 16777216.0] {
        let text = format!("{}", x);
        let d = Decimal::new(&text).unwrap_or_else(|| panic!("{:?}", text));
        assert_eq!(d.to_string().parse::<f32>().unwrap().to_bits(), x.to_bits());
    }
    for x in [0.0f64, 255.0, 255.5, 1e300, -1e-300, f64::MAX] {
        assert!(Decimal::new(&format!("{}", x)).is_some());
    }
    for x in [f32::INFINITY, f32::NEG_INFINITY, f32::NAN] {
        assert!(Decimal::new(&format!("{}", x)).is_none());
    }
}

#[test]
fn weather_codes_drop_the_fraction_and_keep_the_range() {
    let code = |text: &str| Decimal::new(text).unwrap().weather_code();
    assert_eq!(code("0"), Some(0));
    assert_eq!(code("1"), Some(1));
    assert_eq!(code("2.9"), Some(2));
    assert_eq!(code("254.999"), Some(254));
    assert_eq!(code("255"), Some(255));
    assert_eq!(code("255.0"), Some(255));
    assert_eq!(code("255.000"), Some(255));
    assert_eq!(code("255.001"), None);
    assert_eq!(code("256"), None);
    assert_eq!(code("300"), None);
    assert_eq!(code("100000000000000000000"), None);
    assert_eq!(code("-0"), Some(0));
    assert_eq!(code("-0.0"), Some(0));
    assert_eq!(code("-0.5"), None);
    assert_eq!(code("-1"), None);
    assert_eq!(code("0.99"), Some(0));
}

#[test]
fn weather_codes_agree_with_the_float_rule() {
    for x in [0.0f64, 0.5, 1.0, 17.25, 254.99999, 255.0, 255.00001, 256.0, 1e9, -0.0, -0.000001, -3.0] {
        let expected = if x < 0.0 || x > 255.0 { None } else { Some(x as u8) };
        let d = Decimal::new(&format!("{}", x)).unwrap();
        assert_eq!(d.weather_code(), expected, "{}", x);
    }
}

#[test]
fn codes_become_measurements() {
    for n in [0u8, 1, 9, 10, 99, 100, 255] {
        let d = Decimal::from_code(n);
        assert_eq!(d.to_string(), n.to_string());
        assert_eq!(d.weather_code(), Some(n));
    }
}

#[test]
fn copies_are_the_same_measurement() {
    let a = Decimal::new("-12.5").unwrap();
    let b = a.clone();
    let c = Decimal::new("12.5").unwrap();
    assert!(a.same(&b));
    assert!(!a.same(&c));
    assert!(!a.same(&Decimal::new("-12.50").unwrap()));
    let mut out: Vec<char> = vec!['='];
    a.write(&mut out);
    assert_eq!(out.iter().collect::<String>(), "=-12.5");
}

#[test]
fn every_finite_single_prints_as_a_literal_that_reads_back() {
    let mut state: u32 = 0x1234_5678;
    for _ in 0..20000 {
        state = state.wrapping_mul(1664525).wrapping_add(1013904223);
        let x = f32::from_bits(state);
        let text = format!("{}", x);
        match Decimal::new(&text) {
            Some(d) => {
                assert!(x.is_finite(), "{}", text);
                assert_eq!(d.to_string(), text);
                assert_eq!(text.parse::<f32>().unwrap().to_bits(), x.to_bits());
            }
            None => assert!(!x.is_finite(), "{}", text),
        }
    }
}

#[test]
fn weather_codes_agree_with_the_float_rule_on_many_doubles() {
    let mut state: u64 = 0x9e37_79b9_7f4a_7c15;
    for round in 0..20000 {
        state = state.wrapping_mul(6364136223846793005).wrapping_add(1442695040888963407);
        let x = if round % 2 == 0 {
            f64::from_bits(state)
        } else {
            ((state >> 40) as f64) / 40000.0 - 50.0
        };
        if !x.is_finite() {
            continue;
        }
        let expected = if x < 0.0 || x > 255.0 { None } else { Some(x as u8) };
        let d = Decimal::new(&format!("{}", x)).unwrap();
        assert_eq!(d.weather_code(), expected, "{}", x);
    }
}

use payments_engine::decimal::Decimal;

#[test]
fn deserialize_basic_decimal() {
    let d = Decimal::parse("10.1234").unwrap();
    assert_eq!(d, Decimal::new(10, 1234));

    let d = Decimal::parse("1.2").unwrap();
    assert_eq!(d, Decimal::new(1, 2000));

    let d = Decimal::parse("001.002").unwrap();
    assert_eq!(d, Decimal::new(1, 20));

    let d = Decimal::parse(".002").unwrap();
    assert_eq!(d, Decimal::new(0, 20));
}

#[test]
fn deserialize_basic_math() {
    assert_eq!(Decimal::new(10, 5).add(Decimal::new(1, 3)), Decimal::new(11, 8));
    assert_eq!(Decimal::new(10, 5000).add(Decimal::new(1, 8000)), Decimal::new(12, 3000));

    assert_eq!(Decimal::new(10, 5000).sub(Decimal::new(1, 8000)), Ok(Decimal::new(8, 7000)));
    assert_eq!(Decimal::new(1, 8000).sub(Decimal::new(1, 8000)), Ok(Decimal::new(0, 0)));
    assert_eq!(Decimal::new(1, 5000).sub(Decimal::new(1, 8000)), Err(Decimal::new(0, 3000)));
    assert_eq!(Decimal::new(1, 5000).sub(Decimal::new(5, 0)), Err(Decimal::new(3, 5000)));
}

#[test]
fn display_is_canonical() {
    assert_eq!(Decimal::new(10, 5000).display(), "10.5000");
    assert_eq!(Decimal::new(0, 0).display(), "0.0000");
    assert_eq!(Decimal::new(0, 7).display(), "0.0007");
    assert_eq!(Decimal::new(1234567, 8901).display(), "1234567.8901");
}

#[test]
fn parse_display_round_trip() {
    let cases = [
        Decimal::new(0, 0),
        Decimal::new(0, 1),
        Decimal::new(1, 0),
        Decimal::new(42, 9999),
        Decimal::new(18446744073709551615, 9999),
    ];
    for d in cases {
        assert_eq!(Decimal::parse(&d.display()), Ok(d));
    }
}

#[test]
fn parse_truncates_extra_fractional_digits() {
    assert_eq!(Decimal::parse("1.23456789"), Ok(Decimal::new(1, 2345)));
    assert_eq!(Decimal::parse("0.99995"), Ok(Decimal::new(0, 9999)));
    // Characters past the consumed digits are never inspected.
    assert_eq!(Decimal::parse("1.2345xyz"), Ok(Decimal::new(1, 2345)));
}

#[test]
fn parse_edge_forms() {
    assert_eq!(Decimal::parse("10."), Ok(Decimal::new(10, 0)));
    assert_eq!(Decimal::parse("."), Ok(Decimal::new(0, 0)));
    assert_eq!(Decimal::parse("18446744073709551615"), Ok(Decimal::new(18446744073709551615, 0)));
}

#[test]
fn parse_rejects_malformed_input() {
    assert!(Decimal::parse("").is_err());
    assert!(Decimal::parse("abc").is_err());
    assert!(Decimal::parse("1a.2").is_err());
    assert!(Decimal::parse("1.2x34").is_err());
    // One digit past the 64-bit whole-part limit.
    assert!(Decimal::parse("18446744073709551616").is_err());
}

#[test]
fn add_commutes_and_associates() {
    let a = Decimal::new(3, 9999);
    let b = Decimal::new(7, 5001);
    let c = Decimal::new(0, 4999);
    assert_eq!(a.add(b), b.add(a));
    assert_eq!(a.add(b).add(c), a.add(b.add(c)));
}

#[test]
fn subtract_reports_exact_shortfall() {
    let a = Decimal::new(2, 5000);
    let b = Decimal::new(4, 0);
    assert_eq!(a.sub(b), Err(Decimal::new(1, 5000)));
    assert_eq!(b.sub(a), Ok(Decimal::new(1, 5000)));
}

#[test]
fn new_normalizes_fractional_overflow() {
    assert_eq!(Decimal::new(1, 12345), Decimal::new(2, 2345));
}

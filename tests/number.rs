use satellite_data::number::Number;

#[test]
fn accepted_numbers() {
    for s in ["0", "1e5", ".5", "5.", "-inf", "NaN", "+1.0E-3", "infinity", "INF", "-0.0", "12.34e+5"] {
        let n = Number::parse(s).unwrap();
        assert_eq!(n.as_str(), s);
        assert!(s.parse::<f64>().is_ok(), "{s}");
    }
}

#[test]
fn refused_numbers() {
    for s in ["", ".", "e5", "1e", "1..2", " 1", "1 ", "+", "--1", "1e+", "in", "nana", "1.2.3", "0x10"] {
        assert!(Number::parse(s).is_err(), "{s}");
        assert!(s.parse::<f64>().is_err(), "{s}");
    }
}

#[test]
fn signs() {
    let cases = [
        ("-1", true, false),
        ("2.5", false, true),
        ("0", false, false),
        ("-0.0", false, false),
        ("0e9", false, false),
        ("-inf", true, false),
        ("inf", false, true),
        ("nan", false, false),
        ("-nan", false, false),
        ("+0.001", false, true),
    ];
    for (s, neg, pos) in cases {
        let n = Number::parse(s).unwrap();
        assert_eq!(n.is_negative(), neg, "{s}");
        assert_eq!(n.is_positive(), pos, "{s}");
    }
}

#[test]
fn constants() {
    assert_eq!(Number::zero().as_str(), "0");
    assert_eq!(Number::minus_one().as_str(), "-1");
}

use satellite_data::measurement::DataWithError;
use satellite_data::number::Number;

fn parts(m: &DataWithError<Number>) -> (String, String) {
    (m.data.as_str().to_string(), m.error.as_str().to_string())
}

#[test]
fn value_with_uncertainty() {
    let m = DataWithError::<Number>::from_str("1.5\u{b1}0.2").unwrap();
    assert_eq!(parts(&m), ("1.5".to_string(), "0.2".to_string()));
}

#[test]
fn value_with_uncertainty_and_exponents() {
    let m = DataWithError::<Number>::from_str("-2.5e3\u{b1}1E-2").unwrap();
    assert_eq!(parts(&m), ("-2.5e3".to_string(), "1E-2".to_string()));
}

#[test]
fn unknown_marker() {
    let m = DataWithError::<Number>::from_str("?").unwrap();
    assert_eq!(parts(&m), ("0".to_string(), "-1".to_string()));
    assert_eq!(m.to_string(), "?");
}

#[test]
fn marker_letter_is_stripped() {
    let m = DataWithError::<Number>::from_str("1.05R").unwrap();
    assert_eq!(parts(&m), ("1.05".to_string(), "0".to_string()));
    assert_eq!(m.to_string(), "1.05");
    for tok in ["1.05r", "1.05V", "1.05v"] {
        let m = DataWithError::<Number>::from_str(tok).unwrap();
        assert_eq!(parts(&m), ("1.05".to_string(), "0".to_string()));
    }
}

#[test]
fn marker_letter_before_separator() {
    let m = DataWithError::<Number>::from_str("5r\u{b1}0.1").unwrap();
    assert_eq!(parts(&m), ("5".to_string(), "0.1".to_string()));
    assert_eq!(m.to_string(), "5\u{b1}0.1");
}

#[test]
fn bare_value() {
    let m = DataWithError::<Number>::from_str("42").unwrap();
    assert_eq!(parts(&m), ("42".to_string(), "0".to_string()));
    assert_eq!(m.to_string(), "42");
}

#[test]
fn malformed_tokens_fail() {
    for tok in ["", "abc", "1.5\u{b1}x", "x\u{b1}1", "R", "??", "1.5\u{b1}", "1 "] {
        assert!(DataWithError::<Number>::from_str(tok).is_err(), "{tok}");
    }
}

#[test]
fn split_on_first_separator_only() {
    assert!(DataWithError::<Number>::from_str("1\u{b1}2\u{b1}3").is_err());
}

#[test]
fn zero_uncertainty_is_written_bare() {
    let m = DataWithError::<Number>::from_str("3\u{b1}0.00").unwrap();
    assert_eq!(m.to_string(), "3");
    let m = DataWithError::<Number>::from_str("3\u{b1}-0").unwrap();
    assert_eq!(m.to_string(), "3");
}

#[test]
fn negative_uncertainty_is_written_unknown() {
    let m = DataWithError::<Number>::from_str("7\u{b1}-2").unwrap();
    assert_eq!(m.to_string(), "?");
}

#[test]
fn to_value_gives_the_value() {
    let m = DataWithError::<Number>::from_str("8.5\u{b1}0.5").unwrap();
    assert_eq!(m.to_value().as_str(), "8.5");
    let plain = DataWithError { data: 3u32, error: 1u32 };
    assert_eq!(plain.to_value(), 3);
}

#[test]
fn measurement_parses_through_from_str_trait() {
    let m: DataWithError<Number> = "0.3\u{b1}0.1".parse().unwrap();
    assert_eq!(parts(&m), ("0.3".to_string(), "0.1".to_string()));
}

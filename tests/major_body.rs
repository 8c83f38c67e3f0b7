use satellite_data::satellites::{MajorBody, UnknownPlanetError};

#[test]
fn parsing_ignores_case() {
    for s in ["EARTH", "earth", "Earth", "eArTh"] {
        assert_eq!(MajorBody::from_str(s), Ok(MajorBody::Earth));
    }
    assert_eq!(MajorBody::from_str("NEPTUNE"), Ok(MajorBody::Neptune));
    assert_eq!(MajorBody::from_str("pluto"), Ok(MajorBody::Pluto));
}

#[test]
fn other_names_fail() {
    for s in ["", "Eart", "Earthh", " Earth", "Sun", "moon"] {
        assert_eq!(MajorBody::from_str(s), Err(UnknownPlanetError));
    }
}

#[test]
fn names_round_trip() {
    let all = [
        MajorBody::Earth,
        MajorBody::Mars,
        MajorBody::Jupiter,
        MajorBody::Saturn,
        MajorBody::Uranus,
        MajorBody::Neptune,
        MajorBody::Pluto,
    ];
    let names = ["Earth", "Mars", "Jupiter", "Saturn", "Uranus", "Neptune", "Pluto"];
    for (b, n) in all.iter().zip(names) {
        assert_eq!(b.to_string(), n);
        assert_eq!(MajorBody::from_str(&b.to_string()), Ok(*b));
    }
}

#[test]
fn body_parses_through_from_str_trait() {
    assert_eq!("URANUS".parse::<MajorBody>(), Ok(MajorBody::Uranus));
    assert!("Uranos".parse::<MajorBody>().is_err());
}

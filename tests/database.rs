use satellite_data::database::{Database, IngestError};
use satellite_data::satellites::{BoundValue, MajorBody};

const HEADER: &str = "Planet\tName\ta\te\tw\tM\ti\tnode\tn\tP\tPw\tPnode";

fn orbital_row(body: &str, name: &str, a: &str) -> String {
    format!("{body}\t{name}\t{a}\t0.0012\t10.5\t20.25\t5.16\t125.08\t13.17\t27.32\t5.997\t18.6")
}

fn physical_line(name: &str, gm: &str) -> String {
    format!("{name}\t{gm}\t1737.5\t3.344\t-12.74\t0.12")
}

fn orbital_source(rows: &[String]) -> String {
    let mut t = String::from(HEADER);
    for r in rows {
        t.push('\n');
        t.push_str(r);
    }
    t
}

fn three_rows() -> String {
    orbital_source(&[
        orbital_row("Earth", "Moon", "384400"),
        orbital_row("Mars", "Phobos", "9376"),
        orbital_row("jupiter", "Europa", "671100"),
    ])
}

fn three_physical() -> String {
    [
        physical_line("Moon", "4902.801\u{b1}0.001"),
        physical_line("Phobos", "0.0007087"),
        physical_line("Europa", "3202.739R"),
    ]
    .join("\n")
}

#[test]
fn fuses_three_rows_in_order() {
    let d = Database::from_raw_data(&three_rows(), &three_physical()).unwrap();
    assert_eq!(d.data.len(), 3);
    let ids: Vec<usize> = d.data.iter().map(|s| s.id).collect();
    assert_eq!(ids, vec![1, 2, 3]);
    let names: Vec<&str> = d.data.iter().map(|s| s.name.as_str()).collect();
    assert_eq!(names, vec!["Moon", "Phobos", "Europa"]);
    assert_eq!(d.data[2].major_body, MajorBody::Jupiter);
    let moon = &d.data[0];
    assert_eq!(moon.major_body, MajorBody::Earth);
    assert_eq!(moon.orbital_params.major_semiaxis.as_str(), "384400");
    assert_eq!(moon.orbital_params.eccentricity.as_str(), "0.0012");
    assert_eq!(moon.orbital_params.inclination.as_str(), "5.16");
    assert_eq!(moon.orbital_params.ascending_node.as_str(), "125.08");
    assert_eq!(moon.physical_params.gm.data.as_str(), "4902.801");
    assert_eq!(moon.physical_params.gm.error.as_str(), "0.001");
    assert_eq!(moon.physical_params.radius.data.as_str(), "1737.5");
    assert_eq!(moon.physical_params.density.data.as_str(), "3.344");
    assert_eq!(moon.physical_params.magnitude.data.as_str(), "-12.74");
    assert_eq!(moon.physical_params.albedo.data.as_str(), "0.12");
    assert_eq!(d.data[2].physical_params.gm.data.as_str(), "3202.739");
}

#[test]
fn unmatched_second_row_stops_early() {
    let physical = [physical_line("Moon", "4902.8"), physical_line("Europa", "3202.7")].join("\n");
    let d = Database::from_raw_data(&three_rows(), &physical).unwrap();
    assert_eq!(d.data.len(), 1);
    assert_eq!(d.data[0].name, "Moon");
    assert_eq!(d.data[0].id, 1);
}

#[test]
fn lookup_by_id() {
    let d = Database::from_raw_data(&three_rows(), &three_physical()).unwrap();
    assert!(d.get_satellite_by_id(0).is_none());
    assert!(d.get_satellite_by_id(4).is_none());
    let s = d.get_satellite_by_id(2).unwrap();
    assert_eq!(s.name, "Phobos");
    assert_eq!(s.id, 2);
    assert_eq!(s.orbital_params.major_semiaxis.as_str(), "9376");
    assert_eq!(s.physical_params.gm.data.as_str(), "0.0007087");
}

#[test]
fn header_only_gives_empty_catalogue() {
    let d = Database::from_raw_data(HEADER, &three_physical()).unwrap();
    assert_eq!(d.len(), 0);
    let d = Database::from_raw_data("", "").unwrap();
    assert_eq!(d.len(), 0);
}

#[test]
fn short_orbital_row_fails() {
    let orbital = orbital_source(&["Earth\tMoon\t384400\t0.05".to_string()]);
    assert_eq!(
        Database::from_raw_data(&orbital, &three_physical()).unwrap_err(),
        IngestError::MissingField { row: 1 }
    );
}

#[test]
fn short_physical_line_fails() {
    let orbital = orbital_source(&[orbital_row("Earth", "Moon", "384400")]);
    assert_eq!(
        Database::from_raw_data(&orbital, "Moon\t4902\t1737").unwrap_err(),
        IngestError::MissingField { row: 1 }
    );
}

#[test]
fn bad_number_fails() {
    let orbital = orbital_source(&[orbital_row("Earth", "Moon", "far")]);
    assert_eq!(
        Database::from_raw_data(&orbital, &three_physical()).unwrap_err(),
        IngestError::BadNumber { row: 1 }
    );
    let orbital = orbital_source(&[orbital_row("Earth", "Moon", "384400")]);
    assert_eq!(
        Database::from_raw_data(&orbital, &physical_line("Moon", "heavy")).unwrap_err(),
        IngestError::BadNumber { row: 1 }
    );
}

#[test]
fn unknown_planet_fails() {
    let orbital = orbital_source(&[
        orbital_row("Earth", "Moon", "384400"),
        orbital_row("Vulcan", "Phobos", "9376"),
    ]);
    assert_eq!(
        Database::from_raw_data(&orbital, &three_physical()).unwrap_err(),
        IngestError::UnknownPlanet { row: 2 }
    );
}

#[test]
fn footnotes_and_lone_spaces_are_dropped() {
    let orbital = orbital_source(&[orbital_row("Earth", "Moon", "384400")]);
    let physical = "Moon\t[a]\t4902.8\t \t1737.5\tx[2]\t3.344\t-12.74\t0.12";
    let d = Database::from_raw_data(&orbital, physical).unwrap();
    let p = &d.data[0].physical_params;
    assert_eq!(p.gm.data.as_str(), "4902.8");
    assert_eq!(p.radius.data.as_str(), "1737.5");
    assert_eq!(p.density.data.as_str(), "3.344");
    assert_eq!(p.magnitude.data.as_str(), "-12.74");
    assert_eq!(p.albedo.data.as_str(), "0.12");
}

#[test]
fn join_takes_first_line_holding_the_name() {
    let orbital = orbital_source(&[orbital_row("Jupiter", "Io", "421800")]);
    let physical = [physical_line("Ionos", "1.0"), physical_line("Io", "5959.9")].join("\n");
    let d = Database::from_raw_data(&orbital, &physical).unwrap();
    assert_eq!(d.data[0].physical_params.gm.data.as_str(), "1.0");
}

#[test]
fn carriage_returns_are_line_endings() {
    let orbital = three_rows().replace('\n', "\r\n") + "\r\n";
    let d = Database::from_raw_data(&orbital, &three_physical()).unwrap();
    assert_eq!(d.len(), 3);
    assert_eq!(d.data[2].orbital_params.ascending_node.as_str(), "125.08");
}

#[test]
fn filtering_keeps_flagged_records() {
    let d = Database::from_raw_data(&three_rows(), &three_physical()).unwrap();
    let f = d.filtered(&vec![true, false, true]);
    let ids: Vec<usize> = f.data.iter().map(|s| s.id).collect();
    assert_eq!(ids, vec![1, 3]);
    assert_eq!(d.len(), 3);
}

#[test]
fn equality_counts_records() {
    let d = Database::from_raw_data(&three_rows(), &three_physical()).unwrap();
    let a = d.filtered(&vec![true, false, false]);
    let b = d.filtered(&vec![false, false, true]);
    assert!(a == b);
    assert!(a != d);
}

#[test]
fn bindings_name_the_attributes() {
    let d = Database::from_raw_data(&three_rows(), &three_physical()).unwrap();
    let moon = &d.data[0];
    let b = moon.filter_bindings();
    let names: Vec<&str> = b.iter().map(|x| x.name.as_str()).collect();
    assert_eq!(
        names,
        vec!["a", "e", "i", "node", "gm", "radius", "density", "magnitude", "albedo", "mb", "name"]
    );
    match &b[0].value {
        BoundValue::Number(n) => assert_eq!(n.as_str(), "384400"),
        BoundValue::Text(_) => panic!("a is a number"),
    }
    match &b[4].value {
        BoundValue::Number(n) => assert_eq!(n.as_str(), "4902.801"),
        BoundValue::Text(_) => panic!("gm is a number"),
    }
    match &b[9].value {
        BoundValue::Text(t) => assert_eq!(t, "Earth"),
        BoundValue::Number(_) => panic!("mb is text"),
    }
    assert_eq!(moon.numeric_bindings().len(), 9);
}

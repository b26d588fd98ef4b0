use geocoder::parse::{cities_from_records, parse_coordinate, parse_csv, parse_i16, parse_row, parse_u32};

fn row(fields: &[&str]) -> Vec<String> {
    fields.iter().map(|f| f.to_string()).collect()
}

const GOOD: [&str; 19] = [
    "2929622", "Erkelenz", "Erkelenz", "Erkelenz", "51.08", "6.31667", "P", "PPLA4", "DE", "",
    "07", "05370", "05370012", "05370012", "44082", "", "97", "Europe/Berlin", "2011-04-25",
];

#[test]
fn parses_a_full_record() {
    let c = parse_row(&row(&GOOD)).unwrap();
    assert_eq!(c.id, 2929622);
    assert_eq!(c.name, "Erkelenz");
    assert_eq!(c.latitude, 51_080_000);
    assert_eq!(c.longitude, 6_316_670);
    assert_eq!(c.feature_code, "PPLA4");
    assert_eq!(c.country_code, "DE");
    assert_eq!(c.cc2, "");
    assert_eq!(c.population, Some(44082));
    assert_eq!(c.elevation, None);
    assert_eq!(c.dem, "97");
    assert_eq!(c.timezone, "Europe/Berlin");
    assert_eq!(c.modification_date, "2011-04-25");
}

#[test]
fn rejects_records_that_do_not_fit() {
    let mut short = GOOD.to_vec();
    short.pop();
    assert!(parse_row(&row(&short)).is_none());
    let mut bad_id = GOOD;
    bad_id[0] = "x1";
    assert!(parse_row(&row(&bad_id)).is_none());
    let mut no_lat = GOOD;
    no_lat[4] = "";
    assert!(parse_row(&row(&no_lat)).is_none());
    let mut off_globe = GOOD;
    off_globe[4] = "91.5";
    assert!(parse_row(&row(&off_globe)).is_none());
    let mut bad_population = GOOD;
    bad_population[14] = "-3";
    assert!(parse_row(&row(&bad_population)).is_none());
    let mut bad_elevation = GOOD;
    bad_elevation[15] = "40000";
    assert!(parse_row(&row(&bad_elevation)).is_none());
}

#[test]
fn extra_fields_are_ignored() {
    let mut long = GOOD.to_vec();
    long.push("extra");
    assert_eq!(parse_row(&row(&long)).unwrap().id, 2929622);
}

#[test]
fn malformed_row_is_dropped_and_loading_goes_on() {
    let data = "1\tA\tA\t\t10.5\t20.25\tP\tPPL\tDE\t\t\t\t\t\t\t\t\tEurope/Berlin\t2020-01-01\n\
2\tB\tB\t\tnorth\t20.25\tP\tPPL\tDE\t\t\t\t\t\t\t\t\tEurope/Berlin\t2020-01-01\n\
3\tC\tC\t\t-10.5\t-20.25\tP\tPPL\tFR\t\t\t\t\t\t12\t-4\t\tEurope/Paris\t2020-01-01\n";
    let cities = parse_csv(data.as_bytes());
    assert_eq!(cities.len(), 2);
    assert_eq!(cities[0].id, 1);
    assert_eq!(cities[1].id, 3);
    assert_eq!(cities[1].latitude, -10_500_000);
    assert_eq!(cities[1].longitude, -20_250_000);
    assert_eq!(cities[1].population, Some(12));
    assert_eq!(cities[1].elevation, Some(-4));
}

#[test]
fn empty_file_gives_no_cities() {
    assert!(parse_csv(b"").is_empty());
}

#[test]
fn records_csv_could_not_read_are_skipped() {
    let records = vec![None, Some(row(&GOOD)), None];
    let cities = cities_from_records(&records);
    assert_eq!(cities.len(), 1);
    assert_eq!(cities[0].id, 2929622);
}

#[test]
fn reads_integers_as_csv_does() {
    assert_eq!(parse_u32("42"), Some(42));
    assert_eq!(parse_u32("+42"), Some(42));
    assert_eq!(parse_u32("0x1F"), Some(31));
    assert_eq!(parse_u32("0x+ff"), Some(255));
    assert_eq!(parse_u32("007"), Some(7));
    assert_eq!(parse_u32("4294967295"), Some(u32::MAX));
    assert_eq!(parse_u32("4294967296"), None);
    assert_eq!(parse_u32("99999999999999999999"), None);
    assert_eq!(parse_u32("-0"), None);
    assert_eq!(parse_u32(""), None);
    assert_eq!(parse_u32("+"), None);
    assert_eq!(parse_u32("0x"), None);
    assert_eq!(parse_u32("1 "), None);
    assert_eq!(parse_i16("-32768"), Some(i16::MIN));
    assert_eq!(parse_i16("32767"), Some(i16::MAX));
    assert_eq!(parse_i16("32768"), None);
    assert_eq!(parse_i16("0x-7f"), Some(-127));
    assert_eq!(parse_i16("-"), None);
}

#[test]
fn reads_coordinates_in_millionths() {
    assert_eq!(parse_coordinate("51.0", 90_000_000), Some(51_000_000));
    assert_eq!(parse_coordinate("6", 180_000_000), Some(6_000_000));
    assert_eq!(parse_coordinate("-6.123456789", 180_000_000), Some(-6_123_456));
    assert_eq!(parse_coordinate("+.5", 90_000_000), Some(500_000));
    assert_eq!(parse_coordinate("5.", 90_000_000), Some(5_000_000));
    assert_eq!(parse_coordinate("90", 90_000_000), Some(90_000_000));
    assert_eq!(parse_coordinate("90.000001", 90_000_000), None);
    assert_eq!(parse_coordinate("-180", 180_000_000), Some(-180_000_000));
    assert_eq!(parse_coordinate(".", 90_000_000), None);
    assert_eq!(parse_coordinate("", 90_000_000), None);
    assert_eq!(parse_coordinate("1e5", 90_000_000), None);
    assert_eq!(parse_coordinate("NaN", 90_000_000), None);
    assert_eq!(parse_coordinate("1.2.3", 90_000_000), None);
    assert_eq!(parse_coordinate("12345678901234567890", 90_000_000), None);
}

use geocoder::city::City;
use geocoder::config::{
    default_allow_origin, default_bind_address, default_data_file, default_loglevel,
    default_watch_for_changes, Configuration, LogLevel,
};
use geocoder::feature::{geocode, to_feature, PropertyValue};
use geocoder::geocoder::ReverseGeocoder;
use geocoder::index::UnitPoint;
use geocoder::reload::{next_snapshot, should_reload, FileEvent};

fn unit_point(lat: f64, lng: f64) -> UnitPoint {
    let lat = lat.to_radians();
    let lng = lng.to_radians();
    let scale = 4294967296.0_f64;
    UnitPoint {
        x: (lat.cos() * lng.cos() * scale).round() as i64,
        y: (lat.cos() * lng.sin() * scale).round() as i64,
        z: (lat.sin() * scale).round() as i64,
    }
}

fn test_city() -> City {
    City {
        id: 0,
        name: "Erkelenz".to_string(),
        asciiname: "erkelenz".to_string(),
        alternatenames: "erkelenz".to_string(),
        latitude: 51_000_000,
        longitude: 6_000_000,
        feature_class: "P".to_string(),
        feature_code: "PPLA2".to_string(),
        country_code: "DE".to_string(),
        cc2: "DE".to_string(),
        admin1_code: "".to_string(),
        admin2_code: "".to_string(),
        admin3_code: "".to_string(),
        admin4_code: "".to_string(),
        population: None,
        elevation: None,
        dem: "".to_string(),
        timezone: "".to_string(),
        modification_date: "".to_string(),
    }
}

#[test]
fn returns_cities_without_details() {
    let erkelenz: City = test_city();
    let state = ReverseGeocoder::new(vec![erkelenz.clone()], vec![unit_point(51.0, 6.0)]);

    let result = geocode(&state, &unit_point(0.0, 0.0), None, None);

    let city = result.first().unwrap();
    let expected = to_feature(&erkelenz, 5511, false);
    assert_eq!(&expected, city);
}

#[test]
fn feature_without_details_holds_the_distance_only() {
    let f = to_feature(&test_city(), 12, false);
    assert_eq!(f.properties, vec![("distanceToQuery".to_string(), PropertyValue::Integer(12))]);
    assert_eq!(f.name, "Erkelenz");
    assert_eq!(f.id, 0);
    assert_eq!((f.latitude, f.longitude), (51_000_000, 6_000_000));
}

#[test]
fn feature_with_details_lists_every_field() {
    let mut c = test_city();
    c.population = Some(44082);
    let f = to_feature(&c, 3, true);
    let keys: Vec<&str> = f.properties.iter().map(|(k, _)| k.as_str()).collect();
    assert_eq!(
        keys,
        vec![
            "distanceToQuery", "featureCode", "countryCode", "cc2", "admin1Code", "admin2Code",
            "admin3Code", "admin4Code", "population", "elevation", "dem", "timezone",
            "modificationDate",
        ]
    );
    assert_eq!(f.properties[1].1, PropertyValue::Text("PPLA2".to_string()));
    assert_eq!(f.properties[8].1, PropertyValue::Integer(44082));
    assert_eq!(f.properties[9].1, PropertyValue::Null);
}

#[test]
fn geocode_takes_count_and_details() {
    let cities = vec![test_city(), City { id: 9, ..test_city() }];
    let points = vec![unit_point(51.0, 6.0), unit_point(51.0, 6.0)];
    let gc = ReverseGeocoder::new(cities, points);
    let two = geocode(&gc, &unit_point(51.0, 6.0), Some(true), Some(5));
    assert_eq!(two.len(), 2);
    assert_eq!(two[0].properties.len(), 13);
    assert_eq!(two[0].properties[0].1, PropertyValue::Integer(0));
    assert!(geocode(&gc, &unit_point(51.0, 6.0), Some(false), Some(0)).is_empty());
}

#[test]
fn defaults_of_the_configuration() {
    assert_eq!(default_loglevel(), LogLevel::Info);
    let address = default_bind_address();
    assert_eq!((address.ip, address.port), ([127, 0, 0, 1], 5353));
    assert_eq!(default_data_file(), "./cities.txt");
    assert!(default_watch_for_changes());
    assert_eq!(default_allow_origin(), "*");
    let config = Configuration::default();
    assert_eq!(config.data_file, "./cities.txt");
    assert_eq!(config.allow_origin, "*");
    assert_eq!(config.loglevel, LogLevel::Info);
    assert!(config.watch_for_changes);
}

#[test]
fn only_content_changes_reload() {
    assert!(should_reload(FileEvent::ContentModified));
    assert!(!should_reload(FileEvent::MetadataModified));
    assert!(!should_reload(FileEvent::OtherDataModified));
    assert!(!should_reload(FileEvent::Other));
}

#[test]
fn failed_rebuild_keeps_the_old_snapshot() {
    let old = ReverseGeocoder::new(vec![test_city()], vec![unit_point(51.0, 6.0)]);
    let kept = next_snapshot(old, None);
    assert_eq!(kept.len(), 1);
    assert_eq!(kept.index_size(), 1);
    let fresh = ReverseGeocoder::default();
    let replaced = next_snapshot(kept, Some(fresh));
    assert_eq!(replaced.len(), 0);
    assert_eq!(replaced.index_size(), 0);
}

use geocoder::city::City;
use geocoder::distance::unit_sphere_squared_euclidean_to_kilometres;
use geocoder::geocoder::ReverseGeocoder;
use geocoder::index::UnitPoint;
use geocoder::parse::parse_csv;

fn unit_point(lat: f64, lng: f64) -> UnitPoint {
    let lat = lat.to_radians();
    let lng = lng.to_radians();
    let scale = 4294967296.0_f64;
    UnitPoint {
        x: (lat.cos() * lng.cos() * scale).round() as i64,
        y: (lat.cos() * lng.sin() * scale).round() as i64,
        z: (lat.sin() * scale).round() as i64,
    }
}

fn point_of(city: &City) -> UnitPoint {
    unit_point(city.latitude as f64 / 1e6, city.longitude as f64 / 1e6)
}

fn build(cities: Vec<City>) -> ReverseGeocoder {
    let points = cities.iter().map(point_of).collect();
    ReverseGeocoder::new(cities, points)
}

fn city(id: u32, name: &str, latitude: i32, longitude: i32) -> City {
    City {
        id,
        name: name.to_string(),
        country_code: "DE".to_string(),
        latitude,
        longitude,
        ..City::default()
    }
}

const GAZETTEER: &str = "2929622\tErkelenz\tErkelenz\tErkelenz\t51.08\t6.31667\tP\tPPLA4\tDE\t\t07\t05370\t05370012\t05370012\t44082\t\t97\tEurope/Berlin\t2011-04-25\n\
2863713\tNikolassee\tNikolassee\t\t52.4344\t13.20095\tP\tPPLX\tDE\t\t16\t00\t11000\t11000000\t\t42\t\tEurope/Berlin\t2022-08-04\n";

#[test]
fn doesnt_find_anything_if_list_is_empty() {
    let gc = ReverseGeocoder::new(vec![], vec![]);
    let result = gc.search(&unit_point(50.93, 6.95), 1);
    assert!(result.is_empty());
}

#[test]
fn finds_test_city() {
    let gc = build(parse_csv(GAZETTEER.as_bytes()));
    let (d, city) = gc.search(&unit_point(50.88, 6.92), 1).first().unwrap().clone();
    assert_eq!(city.id, 2929622);
    assert_eq!(d, 47);
    assert_eq!(city.to_string(), "Erkelenz, DE")
}

#[test]
fn single_record_reports_its_distance() {
    let gc = build(vec![city(7, "Erkelenz", 51_000_000, 6_000_000)]);
    let result = gc.search(&unit_point(50.88, 6.92), 1);
    assert_eq!(result.len(), 1);
    assert_eq!(result[0].0, 65);
    assert_eq!(result[0].1.id, 7);
}

#[test]
fn search_returns_at_most_k_sorted() {
    let gc = build(vec![
        city(1, "far", 52_434_400, 13_200_950),
        city(2, "near", 51_000_000, 6_000_000),
        city(3, "middle", 50_000_000, 8_000_000),
    ]);
    let result = gc.search(&unit_point(50.9, 6.9), 2);
    assert_eq!(result.len(), 2);
    assert_eq!(result[0].1.id, 2);
    assert_eq!(result[1].1.id, 3);
    assert!(result[0].0 <= result[1].0);
}

#[test]
fn more_results_than_records_gives_all() {
    let gc = build(vec![
        city(1, "far", 52_434_400, 13_200_950),
        city(2, "near", 51_000_000, 6_000_000),
        city(3, "middle", 50_000_000, 8_000_000),
    ]);
    let result = gc.search(&unit_point(50.9, 6.9), 10);
    assert_eq!(result.len(), 3);
    let ids: Vec<u32> = result.iter().map(|(_, c)| c.id).collect();
    assert_eq!(ids, vec![2, 3, 1]);
    assert!(result[0].0 <= result[1].0 && result[1].0 <= result[2].0);
}

#[test]
fn zero_results_asked_gives_none() {
    let gc = build(vec![city(2, "near", 51_000_000, 6_000_000)]);
    assert!(gc.search(&unit_point(50.9, 6.9), 0).is_empty());
    assert!(gc.nearest(&unit_point(50.9, 6.9), 0).is_empty());
}

#[test]
fn empty_gazetteer_answers_nothing_for_any_count() {
    let gc = ReverseGeocoder::default();
    for k in [0usize, 1, 5, 1000] {
        assert!(gc.search(&unit_point(-33.9, 151.2), k).is_empty());
    }
    assert_eq!(gc.len(), 0);
    assert_eq!(gc.index_size(), 0);
}

#[test]
fn building_twice_gives_identical_answers() {
    let first = build(parse_csv(GAZETTEER.as_bytes()));
    let second = build(parse_csv(GAZETTEER.as_bytes()));
    for (lat, lng) in [(50.88, 6.92), (52.0, 13.0), (0.0, 0.0)] {
        let a = first.nearest(&unit_point(lat, lng), 2);
        let b = second.nearest(&unit_point(lat, lng), 2);
        assert_eq!(a, b);
    }
}

#[test]
fn equal_points_are_all_found() {
    let cities: Vec<City> = (0..100).map(|i| city(i, "same", 48_000_000, 11_000_000)).collect();
    let gc = build(cities);
    let found = gc.nearest(&unit_point(48.0, 11.0), 100);
    assert_eq!(found.len(), 100);
    let mut positions: Vec<usize> = found.iter().map(|(_, p)| *p).collect();
    positions.sort();
    assert_eq!(positions, (0..100).collect::<Vec<usize>>());
    assert_eq!(gc.index_size(), 100);
}

#[test]
fn get_looks_up_by_position() {
    let gc = build(parse_csv(GAZETTEER.as_bytes()));
    assert_eq!(gc.get(1).unwrap().id, 2863713);
    assert!(gc.get(2).is_none());
}

#[test]
fn kilometres_of_squared_chords() {
    let one: u64 = 1 << 56;
    assert_eq!(unit_sphere_squared_euclidean_to_kilometres(0), 0);
    assert_eq!(unit_sphere_squared_euclidean_to_kilometres(one), 6371);
    assert_eq!(unit_sphere_squared_euclidean_to_kilometres(4 * one), 12742);
    assert_eq!(unit_sphere_squared_euclidean_to_kilometres(one / 4), 3185);
    assert_eq!(unit_sphere_squared_euclidean_to_kilometres(u64::MAX), 101935);
}

#[test]
fn city_shows_name_and_country() {
    assert_eq!(city(1, "Köln", 50_933_330, 6_950_000).to_string(), "Köln, DE");
}

//! The answer to a query as geographic features: a point per city, its distance to
//! the query, its name and id, and on request the remaining details.
use vstd::prelude::*;
use crate::city::City;
use crate::distance::is_kilometres;
use crate::geocoder::ReverseGeocoder;
use crate::min;
use crate::index::UnitPoint;

verus! {

/// A property value of a feature.
#[derive(Clone, Debug, PartialEq)]
pub enum PropertyValue {
    Null,
    Integer(i64),
    Text(String),
}

/// What a property value stands for.
pub enum ValueModel {
    Null,
    Integer(int),
    Text(Seq<char>),
}

impl View for PropertyValue {
    type V = ValueModel;

    open spec fn view(&self) -> ValueModel {
        match self {
            PropertyValue::Null => ValueModel::Null,
            PropertyValue::Integer(n) => ValueModel::Integer(*n as int),
            PropertyValue::Text(s) => ValueModel::Text(s@),
        }
    }
}

/// One city of an answer: a point at its coordinates (millionths of a degree), named
/// properties, and its name and id beside them.
#[derive(Clone, Debug, PartialEq)]
pub struct Feature {
    pub longitude: i32,
    pub latitude: i32,
    pub properties: Vec<(String, PropertyValue)>,
    pub name: String,
    pub id: u32,
}

pub open spec fn properties_view(p: Seq<(String, PropertyValue)>) -> Seq<(Seq<char>, ValueModel)> {
    p.map_values(|e: (String, PropertyValue)| (e.0@, e.1@))
}

pub open spec fn optional_u32_value(v: Option<u32>) -> ValueModel {
    match v {
        Some(n) => ValueModel::Integer(n as int),
        None => ValueModel::Null,
    }
}

pub open spec fn optional_i16_value(v: Option<i16>) -> ValueModel {
    match v {
        Some(n) => ValueModel::Integer(n as int),
        None => ValueModel::Null,
    }
}

/// The properties of a city's feature: its distance to the query, then, with
/// `include_details`, its codes, population, elevation, model, time zone and date.
pub open spec fn expected_properties(c: City, distance: u32, include_details: bool) -> Seq<
    (Seq<char>, ValueModel),
> {
    let head = seq![("distanceToQuery"@, ValueModel::Integer(distance as int))];
    if include_details {
        head + seq![
            ("featureCode"@, ValueModel::Text(c.feature_code@)),
            ("countryCode"@, ValueModel::Text(c.country_code@)),
            ("cc2"@, ValueModel::Text(c.cc2@)),
            ("admin1Code"@, ValueModel::Text(c.admin1_code@)),
            ("admin2Code"@, ValueModel::Text(c.admin2_code@)),
            ("admin3Code"@, ValueModel::Text(c.admin3_code@)),
            ("admin4Code"@, ValueModel::Text(c.admin4_code@)),
            ("population"@, optional_u32_value(c.population)),
            ("elevation"@, optional_i16_value(c.elevation)),
            ("dem"@, ValueModel::Text(c.dem@)),
            ("timezone"@, ValueModel::Text(c.timezone@)),
            ("modificationDate"@, ValueModel::Text(c.modification_date@)),
        ]
    } else {
        head
    }
}

/// `f` is the feature of city `c` at `distance` kilometres.
pub open spec fn is_feature_of(f: Feature, c: City, distance: u32, include_details: bool) -> bool {
    &&& f.longitude == c.longitude
    &&& f.latitude == c.latitude
    &&& f.name@ == c.name@
    &&& f.id == c.id
    &&& properties_view(f.properties@) == expected_properties(c, distance, include_details)
}

/// The feature of `city` at `distance` kilometres from the query.
pub fn to_feature(city: &City, distance: u32, include_details: bool) -> (r: Feature)
    ensures
        is_feature_of(r, *city, distance, include_details),
{
    let mut properties: Vec<(String, PropertyValue)> = Vec::new();
    properties.push(
        (String::from_str("distanceToQuery"), PropertyValue::Integer(distance as i64)),
    );
    if include_details {
        properties.push(
            (String::from_str("featureCode"), PropertyValue::Text(city.feature_code.clone())),
        );
        properties.push(
            (String::from_str("countryCode"), PropertyValue::Text(city.country_code.clone())),
        );
        properties.push((String::from_str("cc2"), PropertyValue::Text(city.cc2.clone())));
        properties.push(
            (String::from_str("admin1Code"), PropertyValue::Text(city.admin1_code.clone())),
        );
        properties.push(
            (String::from_str("admin2Code"), PropertyValue::Text(city.admin2_code.clone())),
        );
        properties.push(
            (String::from_str("admin3Code"), PropertyValue::Text(city.admin3_code.clone())),
        );
        properties.push(
            (String::from_str("admin4Code"), PropertyValue::Text(city.admin4_code.clone())),
        );
        let population = match city.population {
            Some(n) => PropertyValue::Integer(n as i64),
            None => PropertyValue::Null,
        };
        properties.push((String::from_str("population"), population));
        let elevation = match city.elevation {
            Some(n) => PropertyValue::Integer(n as i64),
            None => PropertyValue::Null,
        };
        properties.push((String::from_str("elevation"), elevation));
        properties.push((String::from_str("dem"), PropertyValue::Text(city.dem.clone())));
        properties.push(
            (String::from_str("timezone"), PropertyValue::Text(city.timezone.clone())),
        );
        properties.push(
            (
                String::from_str("modificationDate"),
                PropertyValue::Text(city.modification_date.clone()),
            ),
        );
    }
    let r = Feature {
        longitude: city.longitude,
        latitude: city.latitude,
        properties,
        name: city.name.clone(),
        id: city.id,
    };
    assert(properties_view(r.properties@) =~= expected_properties(*city, distance, include_details));
    r
}

/// The number of cities a query asks for: `results`, one where it is not given.
pub open spec fn requested(results: Option<usize>) -> int {
    match results {
        Some(k) => k as int,
        None => 1,
    }
}

/// `r` answers a query of `gc` for the cities nearest to `query`: `found` is the
/// index's answer, `km` its distances in kilometres, and `r` their features, with
/// details where `details` is `Some(true)`.
pub open spec fn answers(
    gc: ReverseGeocoder,
    query: UnitPoint,
    results: Option<usize>,
    details: Option<bool>,
    r: Seq<Feature>,
    found: Seq<(u64, usize)>,
    km: Seq<u32>,
) -> bool {
    &&& gc.is_nearest(query, requested(results), found)
    &&& found.len() == r.len() && km.len() == r.len()
    &&& forall|i: int, j: int| 0 <= i <= j < km.len() ==> km[i] <= km[j]
    &&& forall|i: int|
        0 <= i < r.len() ==> {
            &&& is_kilometres(found[i].0 as int, #[trigger] km[i] as int)
            &&& is_feature_of(r[i], gc.records()[found[i].1 as int], km[i], details == Some(true))
        }
}

/// Answers a query: the features of the `results` cities nearest to `query` (one
/// where `results` is not given), nearest first, with details where `details` asks
/// for them (not where it is not given).
pub fn geocode(
    gc: &ReverseGeocoder,
    query: &UnitPoint,
    details: Option<bool>,
    results: Option<usize>,
) -> (r: Vec<Feature>)
    requires
        gc.wf(),
        query.wf(),
    ensures
        r@.len() == min(requested(results), gc.records().len() as int),
        exists|found: Seq<(u64, usize)>, km: Seq<u32>|
            #[trigger] answers(*gc, *query, results, details, r@, found, km),
{
    let k = match results {
        Some(k) => k,
        None => 1,
    };
    let with_details = match details {
        Some(d) => d,
        None => false,
    };
    let found = gc.search(query, k);
    let ghost w = choose|w: Seq<(u64, usize)>|
        {
            &&& #[trigger] gc.is_nearest(*query, k as int, w)
            &&& w.len() == found@.len()
            &&& forall|i: int|
                0 <= i < found@.len() ==> {
                    &&& is_kilometres(w[i].0 as int, found@[i].0 as int)
                    &&& *found@[i].1 == gc.records()[w[i].1 as int]
                }
        };
    let ghost km = found@.map_values(|e: (u32, &City)| e.0);
    let mut r: Vec<Feature> = Vec::new();
    let mut i: usize = 0;
    while i < found.len()
        invariant
            0 <= i <= found@.len(),
            r@.len() == i,
            forall|j: int|
                0 <= j < i ==> is_feature_of(r@[j], *found@[j].1, found@[j].0, with_details),
        decreases found@.len() - i,
    {
        let (distance, city) = found[i];
        r.push(to_feature(city, distance, with_details));
        i = i + 1;
    }
    proof {
        assert forall|i: int, j: int| 0 <= i <= j < km.len() implies km[i] <= km[j] by {
            assert(found@[i].0 <= found@[j].0);
        }
        assert(answers(*gc, *query, results, details, r@, w, km));
    }
    r
}

} // verus!

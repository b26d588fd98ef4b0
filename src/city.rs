//! The gazetteer record: one populated place of a geonames.org export.
use vstd::prelude::*;

verus! {

/// Coordinates are held in millionths of a degree.
pub const MICRODEGREES_PER_DEGREE: i32 = 1_000_000;

/// Largest latitude, in millionths of a degree.
pub const MAX_LATITUDE: i32 = 90_000_000;

/// Largest longitude, in millionths of a degree.
pub const MAX_LONGITUDE: i32 = 180_000_000;

/// City structure, as defined in the geonames.org export. Latitude and longitude are
/// decimal degrees (WGS84) in millionths of a degree.
#[derive(Clone, Debug, Default)]
pub struct City {
    /// integer id of record in geonames database
    pub id: u32,
    /// name of geographical point (utf8)
    pub name: String,
    /// name of geographical point in plain ascii characters
    pub asciiname: String,
    /// alternate names, comma separated
    pub alternatenames: String,
    /// latitude in millionths of a degree (WGS84)
    pub latitude: i32,
    /// longitude in millionths of a degree (WGS84)
    pub longitude: i32,
    /// geonames feature class, one character
    pub feature_class: String,
    /// geonames feature code
    pub feature_code: String,
    /// ISO-3166 2-letter country code
    pub country_code: String,
    /// alternate country codes, comma separated
    pub cc2: String,
    /// code of the first administrative division
    pub admin1_code: String,
    /// code of the second administrative division
    pub admin2_code: String,
    /// code of the third administrative division
    pub admin3_code: String,
    /// code of the fourth administrative division
    pub admin4_code: String,
    /// number of inhabitants, where known
    pub population: Option<u32>,
    /// elevation in metres, where known
    pub elevation: Option<i16>,
    /// digital elevation model
    pub dem: String,
    /// the IANA time zone id
    pub timezone: String,
    /// date of last modification, yyyy-MM-dd
    pub modification_date: String,
}

impl City {
    /// The coordinates lie on the globe.
    pub open spec fn wf(&self) -> bool {
        &&& -MAX_LATITUDE <= self.latitude <= MAX_LATITUDE
        &&& -MAX_LONGITUDE <= self.longitude <= MAX_LONGITUDE
    }

    /// The city as it is shown: its name, a comma and a space, its country code.
    pub fn to_string(&self) -> (r: String)
        ensures
            r@ == self.name@ + ", "@ + self.country_code@,
    {
        let mut s = self.name.clone();
        s.append(", ");
        s.append(self.country_code.as_str());
        s
    }
}

} // verus!

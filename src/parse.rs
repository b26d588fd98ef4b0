//! The gazetteer loader: tab-separated text, one record per line, no header row.
//! Records that do not fit the schema are dropped, not reported.
use vstd::prelude::*;
use csv::ReaderBuilder;
use crate::city::{City, MAX_LATITUDE, MAX_LONGITUDE};
use crate::min;

verus! {

/// The records csv reads from `data` (no header row, tab as delimiter), in order:
/// each the fields of one record, or nothing where csv reports an error on it.
pub uninterp spec fn tsv_records(data: Seq<u8>) -> Seq<Option<Seq<Seq<char>>>>;

pub open spec fn fields_view(fields: Vec<String>) -> Seq<Seq<char>> {
    fields@.map_values(|s: String| s@)
}

pub open spec fn record_view(record: Option<Vec<String>>) -> Option<Seq<Seq<char>>> {
    match record {
        Some(fields) => Some(fields_view(fields)),
        None => None,
    }
}

pub open spec fn records_view(records: Seq<Option<Vec<String>>>) -> Seq<Option<Seq<Seq<char>>>> {
    records.map_values(|r: Option<Vec<String>>| record_view(r))
}

/// Relies on csv's `ReaderBuilder` (no headers, tab delimiter) and `Reader::records`:
/// one entry per record, in file order, with its fields, or `None` for a record on
/// which csv reports an error.
#[verifier::external_body]
fn read_records(data: &[u8]) -> (r: Vec<Option<Vec<String>>>)
    ensures
        records_view(r@) == tsv_records(data@),
{
    ReaderBuilder::new().has_headers(false).delimiter(b'\t').from_reader(data).records().map(
        |record| record.ok().map(|fields| fields.iter().map(String::from).collect()),
    ).collect()
}

/// Saturation bound of the digit scanner: one more than `u32::MAX`.
pub const DIGITS_CAP: u64 = 0x1_0000_0000;

pub open spec fn is_digit(c: char, radix: int) -> bool {
    ||| '0' <= c <= '9'
    ||| radix == 16 && 'a' <= c <= 'f'
    ||| radix == 16 && 'A' <= c <= 'F'
}

pub open spec fn digit_value(c: char) -> int {
    if '0' <= c <= '9' {
        c as int - '0' as int
    } else if 'a' <= c <= 'f' {
        c as int - 'a' as int + 10
    } else {
        c as int - 'A' as int + 10
    }
}

pub open spec fn all_digits(s: Seq<char>, radix: int) -> bool {
    forall|i: int| 0 <= i < s.len() ==> is_digit(#[trigger] s[i], radix)
}

/// The number that the digits `s` write in base `radix`.
pub open spec fn digits_value(s: Seq<char>, radix: int) -> int
    decreases s.len(),
{
    if s.len() == 0 {
        0
    } else {
        digits_value(s.drop_last(), radix) * radix + digit_value(s.last())
    }
}

/// An integer field as csv reads one: hexadecimal after a leading "0x", decimal
/// otherwise; then an optional '+' (or '-', where `signed`), then one digit or more.
/// The result is the sign (true for negative) and the magnitude.
pub open spec fn integer_parts(s: Seq<char>, signed: bool) -> Option<(bool, int)> {
    let hex = s.len() >= 2 && s[0] == '0' && s[1] == 'x';
    let body = if hex {
        s.skip(2)
    } else {
        s
    };
    let radix = if hex {
        16
    } else {
        10
    };
    let negative = signed && body.len() > 0 && body[0] == '-';
    let digits = if body.len() > 0 && (body[0] == '+' || negative) {
        body.skip(1)
    } else {
        body
    };
    if digits.len() > 0 && all_digits(digits, radix) {
        Some((negative, digits_value(digits, radix)))
    } else {
        None
    }
}

pub open spec fn u32_field(s: Seq<char>) -> Option<u32> {
    match integer_parts(s, false) {
        Some((_, v)) => if v <= u32::MAX {
            Some(v as u32)
        } else {
            None
        },
        None => None,
    }
}

pub open spec fn i16_field(s: Seq<char>) -> Option<i16> {
    match integer_parts(s, true) {
        Some((negative, v)) => {
            let value = if negative {
                -v
            } else {
                v
            };
            if i16::MIN <= value <= i16::MAX {
                Some(value as i16)
            } else {
                None
            }
        },
        None => None,
    }
}

/// An optional field: empty means absent; otherwise `parsed` must hold a value.
pub open spec fn optional_field<T>(s: Seq<char>, parsed: Option<T>) -> Option<Option<T>> {
    if s.len() == 0 {
        Some(None)
    } else {
        match parsed {
            Some(v) => Some(Some(v)),
            None => None,
        }
    }
}

pub open spec fn pow10(n: nat) -> int
    decreases n,
{
    if n == 0 {
        1
    } else {
        10 * pow10((n - 1) as nat)
    }
}

pub open spec fn has_dot(s: Seq<char>) -> bool {
    exists|d: int| 0 <= d < s.len() && s[d] == '.'
}

pub open spec fn dot_index(s: Seq<char>) -> int {
    choose|d: int| 0 <= d < s.len() && s[d] == '.'
}

/// Digits after the decimal point in millionths: the first six, padded with zeros;
/// later digits are cut off.
pub open spec fn fraction_micros(f: Seq<char>) -> int {
    let m = min(f.len() as int, 6);
    digits_value(f.take(m), 10) * pow10((6 - m) as nat)
}

/// Unsigned decimal degrees in millionths: digits, optionally a '.' and more digits,
/// at least one digit in all.
pub open spec fn magnitude_micros(body: Seq<char>) -> Option<int> {
    if has_dot(body) {
        let d = dot_index(body);
        let whole = body.take(d);
        let fraction = body.skip(d + 1);
        if body.len() >= 2 && all_digits(whole, 10) && all_digits(fraction, 10) {
            Some(digits_value(whole, 10) * 1_000_000 + fraction_micros(fraction))
        } else {
            None
        }
    } else if body.len() >= 1 && all_digits(body, 10) {
        Some(digits_value(body, 10) * 1_000_000)
    } else {
        None
    }
}

/// A coordinate field in millionths of a degree: an optional sign, then decimal
/// degrees; its magnitude may not exceed `limit`.
pub open spec fn coordinate_field(s: Seq<char>, limit: int) -> Option<int> {
    let negative = s.len() > 0 && s[0] == '-';
    let body = if s.len() > 0 && (s[0] == '-' || s[0] == '+') {
        s.skip(1)
    } else {
        s
    };
    match magnitude_micros(body) {
        Some(m) => if m <= limit {
            Some(
                if negative {
                    -m
                } else {
                    m
                },
            )
        } else {
            None
        },
        None => None,
    }
}

proof fn lemma_digits_grow(s: Seq<char>, radix: int)
    requires
        all_digits(s, radix),
        radix == 10 || radix == 16,
    ensures
        digits_value(s, radix) >= 0,
    decreases s.len(),
{
    if s.len() > 0 {
        lemma_digits_grow(s.drop_last(), radix);
    }
}

/// Scans `s[from..to]` as digits of `radix`: `None` where one is not a digit, else
/// their value, capped at `DIGITS_CAP`.
fn scan_digits(s: &str, from: usize, to: usize, radix: u64) -> (r: Option<u64>)
    requires
        from <= to <= s@.len(),
        radix == 10 || radix == 16,
    ensures
        match r {
            Some(v) => all_digits(s@.subrange(from as int, to as int), radix as int) && v == min(
                digits_value(s@.subrange(from as int, to as int), radix as int),
                DIGITS_CAP as int,
            ),
            None => !all_digits(s@.subrange(from as int, to as int), radix as int),
        },
{
    let mut acc: u64 = 0;
    let mut i = from;
    while i < to
        invariant
            from <= i <= to <= s@.len(),
            radix == 10 || radix == 16,
            all_digits(s@.subrange(from as int, i as int), radix as int),
            acc == min(digits_value(s@.subrange(from as int, i as int), radix as int), DIGITS_CAP as int),
        decreases to - i,
    {
        let c = s.get_char(i);
        let ghost prefix = s@.subrange(from as int, i as int);
        let ghost next = s@.subrange(from as int, i as int + 1);
        assert(next.drop_last() =~= prefix);
        assert(next.last() == c);
        let d: u64 = if '0' <= c && c <= '9' {
            (c as u32 - '0' as u32) as u64
        } else if radix == 16 && 'a' <= c && c <= 'f' {
            (c as u32 - 'a' as u32 + 10) as u64
        } else if radix == 16 && 'A' <= c && c <= 'F' {
            (c as u32 - 'A' as u32 + 10) as u64
        } else {
            assert(!all_digits(s@.subrange(from as int, to as int), radix as int)) by {
                assert(s@.subrange(from as int, to as int)[i - from] == c);
            }
            return None;
        };
        proof {
            lemma_digits_grow(prefix, radix as int);
        }
        if acc < DIGITS_CAP {
            let v = acc * radix + d;
            acc = if v < DIGITS_CAP {
                v
            } else {
                DIGITS_CAP
            };
        } else {
            assert(digits_value(prefix, radix as int) * radix >= DIGITS_CAP) by (nonlinear_arith)
                requires
                    digits_value(prefix, radix as int) >= DIGITS_CAP,
                    radix >= 10,
            ;
        }
        i = i + 1;
        assert(all_digits(next, radix as int)) by {
            assert forall|j: int| 0 <= j < next.len() implies is_digit(#[trigger] next[j], radix as int) by {
                if j < prefix.len() {
                    assert(next[j] == prefix[j]);
                }
            }
        }
    }
    Some(acc)
}

/// `integer_parts` with the magnitude capped at `DIGITS_CAP`.
pub open spec fn capped_parts(s: Seq<char>, signed: bool) -> Option<(bool, int)> {
    match integer_parts(s, signed) {
        Some((negative, v)) => Some((negative, min(v, DIGITS_CAP as int))),
        None => None,
    }
}

fn parse_integer(s: &str, signed: bool) -> (r: Option<(bool, u64)>)
    ensures
        match r {
            Some((negative, v)) => capped_parts(s@, signed) == Some((negative, v as int)),
            None => capped_parts(s@, signed) is None,
        },
{
    let n = s.unicode_len();
    let hex = n >= 2 && s.get_char(0) == '0' && s.get_char(1) == 'x';
    let start: usize = if hex {
        2
    } else {
        0
    };
    let radix: u64 = if hex {
        16
    } else {
        10
    };
    let ghost body = if hex {
        s@.skip(2)
    } else {
        s@
    };
    assert(body =~= s@.subrange(start as int, n as int));
    let negative = signed && start < n && s.get_char(start) == '-';
    let first = if start < n && (s.get_char(start) == '+' || negative) {
        start + 1
    } else {
        start
    };
    let ghost digits = s@.subrange(first as int, n as int);
    assert(first == start + 1 ==> digits =~= body.skip(1));
    if first == n {
        return None;
    }
    match scan_digits(s, first, n, radix) {
        Some(v) => Some((negative, v)),
        None => None,
    }
}

/// Reads a `u32` field: decimal, or hexadecimal after "0x", with an optional '+'.
pub fn parse_u32(s: &str) -> (r: Option<u32>)
    ensures
        r == u32_field(s@),
{
    match parse_integer(s, false) {
        Some((_, v)) => if v <= 0xffff_ffff {
            Some(v as u32)
        } else {
            None
        },
        None => None,
    }
}

/// Reads an `i16` field: decimal, or hexadecimal after "0x", with an optional sign.
pub fn parse_i16(s: &str) -> (r: Option<i16>)
    ensures
        r == i16_field(s@),
{
    match parse_integer(s, true) {
        Some((negative, v)) => {
            if negative && v <= 32768 {
                Some((0 - v as i32) as i16)
            } else if !negative && v <= 32767 {
                Some(v as i16)
            } else {
                None
            }
        },
        None => None,
    }
}

proof fn lemma_all_digits_split(s: Seq<char>, a: int, b: int, c: int, radix: int)
    requires
        0 <= a <= b <= c <= s.len(),
    ensures
        all_digits(s.subrange(a, c), radix) <==> (all_digits(s.subrange(a, b), radix)
            && all_digits(s.subrange(b, c), radix)),
{
    if all_digits(s.subrange(a, c), radix) {
        assert forall|i: int| 0 <= i < b - a implies is_digit(#[trigger] s.subrange(a, b)[i], radix) by {
            assert(s.subrange(a, b)[i] == s.subrange(a, c)[i]);
        }
        assert forall|i: int| 0 <= i < c - b implies is_digit(#[trigger] s.subrange(b, c)[i], radix) by {
            assert(s.subrange(b, c)[i] == s.subrange(a, c)[i + b - a]);
        }
    }
    if all_digits(s.subrange(a, b), radix) && all_digits(s.subrange(b, c), radix) {
        assert forall|i: int| 0 <= i < c - a implies is_digit(#[trigger] s.subrange(a, c)[i], radix) by {
            if i < b - a {
                assert(s.subrange(a, c)[i] == s.subrange(a, b)[i]);
            } else {
                assert(s.subrange(a, c)[i] == s.subrange(b, c)[i - (b - a)]);
            }
        }
    }
}

proof fn lemma_digits_bound(s: Seq<char>)
    requires
        all_digits(s, 10),
    ensures
        0 <= digits_value(s, 10) < pow10(s.len()),
    decreases s.len(),
{
    if s.len() > 0 {
        let p = s.drop_last();
        assert(all_digits(p, 10)) by {
            assert forall|i: int| 0 <= i < p.len() implies is_digit(#[trigger] p[i], 10) by {
                assert(p[i] == s[i]);
            }
        }
        lemma_digits_bound(p);
        assert(is_digit(s[s.len() - 1], 10));
        assert(pow10(s.len()) == 10 * pow10(p.len()));
    }
}

/// What `magnitude_micros` gives, where it is at most a thousand degrees.
pub open spec fn magnitude_below(body: Seq<char>, v: int) -> bool {
    magnitude_micros(body) == Some(v)
}

/// Magnitudes above a thousand degrees, and text that is none, are refused alike.
pub open spec fn magnitude_refused(body: Seq<char>) -> bool {
    match magnitude_micros(body) {
        Some(m) => m > 1_000_000_000,
        None => true,
    }
}

/// The magnitude of `s[start..n]` whose first '.' stands at `d`.
#[verifier::rlimit(40)]
fn magnitude_with_dot(s: &str, start: usize, d: usize, n: usize) -> (r: Option<u64>)
    requires
        n == s@.len(),
        start <= d < n,
        s@[d as int] == '.',
        forall|j: int| start <= j < d ==> s@[j] != '.',
    ensures
        match r {
            Some(v) => v <= 1_000_999_999 && magnitude_below(s@.subrange(start as int, n as int), v as int),
            None => magnitude_refused(s@.subrange(start as int, n as int)),
        },
{
    let ghost body = s@.subrange(start as int, n as int);
    let ghost dd = d - start;
    let ghost spec_result = magnitude_micros(body);
    assert(body[dd] == '.');
    assert(has_dot(body));
    let ghost k = dot_index(body);
    assert(k >= dd) by {
        if k < dd {
            assert(body[k] == s@[start + k]);
        }
    }
    let ghost fraction = body.skip(dd + 1);
    assert(fraction =~= s@.subrange(d as int + 1, n as int));
    assert(body.take(dd) =~= s@.subrange(start as int, d as int));
    assert(k != dd ==> !all_digits(body.take(k), 10)) by {
        if k != dd {
            assert(body.take(k)[dd] == '.');
        }
    }
    if n - start < 2 {
        return None;
    }
    let w = match scan_digits(s, start, d, 10) {
        Some(w) => w,
        None => {
            return None;
        },
    };
    let frac_end = if n - (d + 1) > 6 {
        d + 7
    } else {
        n
    };
    proof {
        lemma_all_digits_split(s@, d as int + 1, frac_end as int, n as int, 10);
    }
    let f = match scan_digits(s, d + 1, frac_end, 10) {
        Some(f) => f,
        None => {
            return None;
        },
    };
    match scan_digits(s, frac_end, n, 10) {
        Some(_) => {},
        None => {
            return None;
        },
    }
    assert(k == dd) by {
        if k != dd {
            assert(fraction[k - dd - 1] == '.');
        }
    }
    let ghost m = frac_end - d - 1;
    let ghost taken = fraction.take(m);
    assert(taken =~= s@.subrange(d as int + 1, frac_end as int));
    proof {
        lemma_digits_bound(taken);
        reveal_with_fuel(pow10, 7);
        assert(pow10(0) == 1 && pow10(1) == 10 && pow10(2) == 100 && pow10(3) == 1000);
        assert(pow10(4) == 10000 && pow10(5) == 100000 && pow10(6) == 1000000);
        assert(fraction_micros(fraction) >= 0) by (nonlinear_arith)
            requires
                fraction_micros(fraction) == digits_value(taken, 10) * pow10((6 - m) as nat),
                digits_value(taken, 10) >= 0,
                pow10((6 - m) as nat) >= 1,
        ;
    }
    if w > 1000 {
        return None;
    }
    let digits = frac_end - d - 1;
    let multiplier: u64 = if digits == 0 {
        1_000_000
    } else if digits == 1 {
        100_000
    } else if digits == 2 {
        10_000
    } else if digits == 3 {
        1_000
    } else if digits == 4 {
        100
    } else if digits == 5 {
        10
    } else {
        1
    };
    assert(multiplier == pow10((6 - m) as nat));
    assert(f * multiplier < 1_000_000) by (nonlinear_arith)
        requires
            0 <= f < pow10(m as nat),
            0 <= m <= 6,
            multiplier == pow10((6 - m) as nat),
            m == 0 ==> pow10(m as nat) == 1 && multiplier == 1000000,
            m == 1 ==> pow10(m as nat) == 10 && multiplier == 100000,
            m == 2 ==> pow10(m as nat) == 100 && multiplier == 10000,
            m == 3 ==> pow10(m as nat) == 1000 && multiplier == 1000,
            m == 4 ==> pow10(m as nat) == 10000 && multiplier == 100,
            m == 5 ==> pow10(m as nat) == 100000 && multiplier == 10,
            m == 6 ==> pow10(m as nat) == 1000000 && multiplier == 1,
    ;
    Some(w * 1_000_000 + f * multiplier)
}

/// The magnitude of `s[start..n]` in millionths of a degree.
fn parse_magnitude(s: &str, start: usize) -> (r: Option<u64>)
    requires
        start <= s@.len(),
    ensures
        match r {
            Some(v) => v <= 1_000_999_999 && magnitude_below(s@.subrange(start as int, s@.len() as int), v as int),
            None => magnitude_refused(s@.subrange(start as int, s@.len() as int)),
        },
{
    let n = s.unicode_len();
    let ghost body = s@.subrange(start as int, n as int);
    let mut d = start;
    while d < n && s.get_char(d) != '.'
        invariant
            n == s@.len(),
            start <= d <= n,
            forall|j: int| start <= j < d ==> s@[j] != '.',
        decreases n - d,
    {
        d = d + 1;
    }
    if d < n {
        return magnitude_with_dot(s, start, d, n);
    }
    assert(!has_dot(body)) by {
        if has_dot(body) {
            let k = choose|k: int| 0 <= k < body.len() && body[k] == '.';
            assert(body[k] == s@[start + k]);
        }
    }
    if n == start {
        return None;
    }
    match scan_digits(s, start, n, 10) {
        Some(w) => {
            if w > 1000 {
                None
            } else {
                Some(w * 1_000_000)
            }
        },
        None => None,
    }
}

/// Reads a coordinate field in millionths of a degree whose magnitude may not
/// exceed `limit`.
pub fn parse_coordinate(s: &str, limit: u32) -> (r: Option<i32>)
    requires
        limit <= 180_000_000,
    ensures
        match r {
            Some(v) => coordinate_field(s@, limit as int) == Some(v as int) && -limit <= v <= limit,
            None => coordinate_field(s@, limit as int) is None,
        },
{
    let n = s.unicode_len();
    let negative = n > 0 && s.get_char(0) == '-';
    let start: usize = if n > 0 && (s.get_char(0) == '-' || s.get_char(0) == '+') {
        1
    } else {
        0
    };
    assert(s@.subrange(start as int, n as int) =~= (if s@.len() > 0 && (s@[0] == '-' || s@[0]
        == '+') {
        s@.skip(1)
    } else {
        s@
    }));
    match parse_magnitude(s, start) {
        Some(magnitude) => {
            if magnitude > limit as u64 {
                None
            } else {
                let v = magnitude as i32;
                if negative {
                    Some(-v)
                } else {
                    Some(v)
                }
            }
        },
        None => None,
    }
}

/// Number of columns of a gazetteer record.
pub const FIELD_COUNT: usize = 19;

pub open spec fn population_field(s: Seq<char>) -> Option<Option<u32>> {
    optional_field(s, u32_field(s))
}

pub open spec fn elevation_field(s: Seq<char>) -> Option<Option<i16>> {
    optional_field(s, i16_field(s))
}

/// A record fits the schema: nineteen fields or more (later ones are ignored), an id,
/// a latitude and a longitude on the globe, population and elevation empty or numbers.
pub open spec fn row_fits(f: Seq<Seq<char>>) -> bool {
    &&& f.len() >= FIELD_COUNT
    &&& u32_field(f[0]) is Some
    &&& coordinate_field(f[4], MAX_LATITUDE as int) is Some
    &&& coordinate_field(f[5], MAX_LONGITUDE as int) is Some
    &&& population_field(f[14]) is Some
    &&& elevation_field(f[15]) is Some
}

/// `c` is the city that the fitting record `f` describes, column by column.
pub open spec fn city_of_row(c: City, f: Seq<Seq<char>>) -> bool {
    &&& u32_field(f[0]) == Some(c.id)
    &&& c.name@ == f[1]
    &&& c.asciiname@ == f[2]
    &&& c.alternatenames@ == f[3]
    &&& coordinate_field(f[4], MAX_LATITUDE as int) == Some(c.latitude as int)
    &&& coordinate_field(f[5], MAX_LONGITUDE as int) == Some(c.longitude as int)
    &&& c.feature_class@ == f[6]
    &&& c.feature_code@ == f[7]
    &&& c.country_code@ == f[8]
    &&& c.cc2@ == f[9]
    &&& c.admin1_code@ == f[10]
    &&& c.admin2_code@ == f[11]
    &&& c.admin3_code@ == f[12]
    &&& c.admin4_code@ == f[13]
    &&& population_field(f[14]) == Some(c.population)
    &&& elevation_field(f[15]) == Some(c.elevation)
    &&& c.dem@ == f[16]
    &&& c.timezone@ == f[17]
    &&& c.modification_date@ == f[18]
}

/// The records that fit the schema, in order; the others are dropped.
pub open spec fn fitting_rows(records: Seq<Option<Seq<Seq<char>>>>) -> Seq<Seq<Seq<char>>>
    decreases records.len(),
{
    if records.len() == 0 {
        Seq::empty()
    } else {
        let earlier = fitting_rows(records.drop_last());
        match records.last() {
            Some(f) => if row_fits(f) {
                earlier.push(f)
            } else {
                earlier
            },
            None => earlier,
        }
    }
}

/// `cities` are the cities of the fitting records among `records`, one for one.
pub open spec fn cities_of(cities: Seq<City>, records: Seq<Option<Seq<Seq<char>>>>) -> bool {
    let rows = fitting_rows(records);
    &&& cities.len() == rows.len()
    &&& forall|i: int|
        0 <= i < cities.len() ==> city_of_row(#[trigger] cities[i], rows[i]) && cities[i].wf()
}

fn optional_u32(s: &str) -> (r: Option<Option<u32>>)
    ensures
        r == population_field(s@),
{
    if s.unicode_len() == 0 {
        Some(None)
    } else {
        match parse_u32(s) {
            Some(v) => Some(Some(v)),
            None => None,
        }
    }
}

fn optional_i16(s: &str) -> (r: Option<Option<i16>>)
    ensures
        r == elevation_field(s@),
{
    if s.unicode_len() == 0 {
        Some(None)
    } else {
        match parse_i16(s) {
            Some(v) => Some(Some(v)),
            None => None,
        }
    }
}

/// The city that one record describes, or `None` where the record does not fit the
/// schema.
pub fn parse_row(fields: &Vec<String>) -> (r: Option<City>)
    ensures
        match r {
            Some(c) => row_fits(fields_view(*fields)) && city_of_row(c, fields_view(*fields))
                && c.wf(),
            None => !row_fits(fields_view(*fields)),
        },
{
    let ghost f = fields_view(*fields);
    if fields.len() < FIELD_COUNT {
        return None;
    }
    assert forall|i: int| 0 <= i < fields@.len() implies #[trigger] f[i] == fields@[i]@ by {}
    let id = match parse_u32(fields[0].as_str()) {
        Some(v) => v,
        None => {
            return None;
        },
    };
    let latitude = match parse_coordinate(fields[4].as_str(), MAX_LATITUDE as u32) {
        Some(v) => v,
        None => {
            return None;
        },
    };
    let longitude = match parse_coordinate(fields[5].as_str(), MAX_LONGITUDE as u32) {
        Some(v) => v,
        None => {
            return None;
        },
    };
    let population = match optional_u32(fields[14].as_str()) {
        Some(v) => v,
        None => {
            return None;
        },
    };
    let elevation = match optional_i16(fields[15].as_str()) {
        Some(v) => v,
        None => {
            return None;
        },
    };
    let c = City {
        id,
        name: fields[1].clone(),
        asciiname: fields[2].clone(),
        alternatenames: fields[3].clone(),
        latitude,
        longitude,
        feature_class: fields[6].clone(),
        feature_code: fields[7].clone(),
        country_code: fields[8].clone(),
        cc2: fields[9].clone(),
        admin1_code: fields[10].clone(),
        admin2_code: fields[11].clone(),
        admin3_code: fields[12].clone(),
        admin4_code: fields[13].clone(),
        population,
        elevation,
        dem: fields[16].clone(),
        timezone: fields[17].clone(),
        modification_date: fields[18].clone(),
    };
    Some(c)
}

/// The cities of the records that fit the schema, in order; records that do not fit,
/// and those csv could not read, are dropped.
pub fn cities_from_records(records: &Vec<Option<Vec<String>>>) -> (r: Vec<City>)
    ensures
        cities_of(r@, records_view(records@)),
{
    let mut cities: Vec<City> = Vec::new();
    let mut i: usize = 0;
    while i < records.len()
        invariant
            0 <= i <= records@.len(),
            cities_of(cities@, records_view(records@).take(i as int)),
        decreases records@.len() - i,
    {
        let ghost seen = records_view(records@).take(i as int);
        let ghost next = records_view(records@).take(i as int + 1);
        assert(next.drop_last() =~= seen);
        assert(next.last() == record_view(records@[i as int]));
        match &records[i] {
            Some(fields) => {
                match parse_row(fields) {
                    Some(c) => {
                        cities.push(c);
                    },
                    None => {},
                }
            },
            None => {},
        }
        i = i + 1;
        assert(cities_of(cities@, next)) by {
            assert forall|j: int| 0 <= j < cities@.len() implies city_of_row(
                #[trigger] cities@[j],
                fitting_rows(next)[j],
            ) && cities@[j].wf() by {
                if j < fitting_rows(seen).len() {
                    assert(fitting_rows(next)[j] == fitting_rows(seen)[j]);
                }
            }
        }
    }
    assert(records_view(records@).take(records@.len() as int) =~= records_view(records@));
    cities
}

/// Reads a gazetteer: the cities of the records of `data` that fit the schema, in
/// order. Records that do not fit are dropped; reading never fails.
pub fn parse_csv(data: &[u8]) -> (r: Vec<City>)
    ensures
        cities_of(r@, tsv_records(data@)),
{
    let records = read_records(data);
    cities_from_records(&records)
}

} // verus!

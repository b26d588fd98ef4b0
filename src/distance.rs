//! Converting the index's squared chord lengths into whole kilometres.
use vstd::prelude::*;
use crate::index::key_scale;

verus! {

/// Mean Earth radius in kilometres.
pub const EARTH_RADIUS_IN_KM: u64 = 6371;

/// `km` whole kilometres are `floor(sqrt(sq / key_scale()) * EARTH_RADIUS_IN_KM)`:
/// the chord length on a sphere of the Earth's radius, rounded down.
pub open spec fn is_kilometres(sq: int, km: int) -> bool {
    let rr = EARTH_RADIUS_IN_KM * EARTH_RADIUS_IN_KM;
    &&& km >= 0
    &&& km * km * key_scale() <= sq * rr
    &&& sq * rr < (km + 1) * (km + 1) * key_scale()
}

/// `r` is the integer square root of `x`.
pub open spec fn is_floor_sqrt(x: int, r: int) -> bool {
    r >= 0 && r * r <= x && x < (r + 1) * (r + 1)
}

/// The integer square root of `x`, by bisection.
fn floor_sqrt(x: u128) -> (r: u128)
    requires
        x < 0x400_0000_0000_0000_0000_0000,
    ensures
        is_floor_sqrt(x as int, r as int),
{
    let mut lo: u128 = 0;
    let mut hi: u128 = 0x2000_0000_0000;
    assert(hi * hi == 0x400_0000_0000_0000_0000_0000);
    while hi - lo > 1
        invariant
            lo < hi <= 0x2000_0000_0000,
            lo * lo <= x,
            x < hi * hi,
        decreases hi - lo,
    {
        let mid = lo + (hi - lo) / 2;
        assert(mid * mid <= 0x2000_0000_0000 * 0x2000_0000_0000) by (nonlinear_arith)
            requires
                mid <= 0x2000_0000_0000,
        ;
        if mid * mid <= x {
            lo = mid;
        } else {
            hi = mid;
        }
    }
    assert(hi == lo + 1);
    lo
}

proof fn lemma_scaled_square(s: int, km: int, m: int)
    requires
        m > 0,
        km >= 0,
        km * m <= s < (km + 1) * m,
    ensures
        km * km * (m * m) <= s * s,
        (s + 1) * (s + 1) <= (km + 1) * (km + 1) * (m * m),
{
    assert(km * m * (km * m) <= s * s) by (nonlinear_arith)
        requires
            0 <= km * m <= s,
    ;
    assert(km * km * (m * m) == km * m * (km * m)) by (nonlinear_arith);
    assert((s + 1) * (s + 1) <= ((km + 1) * m) * ((km + 1) * m)) by (nonlinear_arith)
        requires
            0 <= s + 1 <= (km + 1) * m,
    ;
    assert((km + 1) * (km + 1) * (m * m) == ((km + 1) * m) * ((km + 1) * m)) by (nonlinear_arith);
}

/// Converts a squared distance between two index keys (units of `1 / key_scale()` on
/// the unit sphere) into whole kilometres on the Earth's surface, rounding down.
pub fn unit_sphere_squared_euclidean_to_kilometres(sq_euc_dist: u64) -> (r: u32)
    ensures
        is_kilometres(sq_euc_dist as int, r as int),
{
    let rr: u128 = (EARTH_RADIUS_IN_KM * EARTH_RADIUS_IN_KM) as u128;
    assert(sq_euc_dist as int * rr < 0x400_0000_0000_0000_0000_0000) by (nonlinear_arith)
        requires
            sq_euc_dist <= 0xffff_ffff_ffff_ffff,
            rr == 40589641,
    ;
    let x: u128 = sq_euc_dist as u128 * rr;
    let s = floor_sqrt(x);
    let km = s / 0x1000_0000;
    proof {
        let m: int = 0x1000_0000;
        assert(m * m == key_scale());
        lemma_scaled_square(s as int, km as int, m);
        assert(s < 0x2000_0000_0000) by (nonlinear_arith)
            requires
                s * s <= x,
                x < 0x400_0000_0000_0000_0000_0000,
                s >= 0,
        ;
    }
    km as u32
}

/// More squared distance never gives fewer kilometres.
pub proof fn lemma_kilometres_monotonic(sq1: int, km1: int, sq2: int, km2: int)
    requires
        0 <= sq1 <= sq2,
        is_kilometres(sq1, km1),
        is_kilometres(sq2, km2),
    ensures
        km1 <= km2,
{
    let rr = EARTH_RADIUS_IN_KM * EARTH_RADIUS_IN_KM;
    assert(sq1 * rr <= sq2 * rr) by (nonlinear_arith)
        requires
            sq1 <= sq2,
            rr >= 0,
    ;
    if km1 > km2 {
        assert((km2 + 1) * (km2 + 1) * key_scale() <= km1 * km1 * key_scale()) by (nonlinear_arith)
            requires
                0 <= km2 + 1 <= km1,
                key_scale() > 0,
        ;
    }
}

} // verus!

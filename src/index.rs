//! The spatial index: kiddo's fixed-point k-d tree over keys derived from
//! projected points, with the operations the geocoder needs.
use vstd::prelude::*;
use fixed::types::extra::U56;
use fixed::FixedI64;
use kiddo::fixed::distance::squared_euclidean;
use kiddo::fixed::kdtree::KdTree;

verus! {

/// A unit-sphere coordinate is held as an integer: the real value times `UNIT` (2^32).
pub const UNIT: i64 = 0x1_0000_0000;

/// Number of positions a key can carry in its low bits (2^24); also the most
/// records an index can hold.
pub const POSITION_SPAN: i64 = 0x100_0000;

/// The index's fixed-point scale: 2^56, that is `UNIT * POSITION_SPAN`.
pub open spec fn key_scale() -> int {
    0x100_0000_0000_0000
}

/// A point on (or numerically next to) the unit sphere, each component scaled by `UNIT`.
#[derive(Clone, Copy, Debug, PartialEq, Eq)]
pub struct UnitPoint {
    pub x: i64,
    pub y: i64,
    pub z: i64,
}

impl UnitPoint {
    /// Every component lies in [-1, 1].
    pub open spec fn wf(&self) -> bool {
        -UNIT <= self.x <= UNIT && -UNIT <= self.y <= UNIT && -UNIT <= self.z <= UNIT
    }
}

/// A key as the tree stores it: three coordinates with `key_scale()` as their unit.
pub type Key = (i64, i64, i64);

pub open spec fn coordinate_in_range(v: i64) -> bool {
    -0x200_0000_0000_0000 <= v <= 0x200_0000_0000_0000
}

/// Keys of this range keep every step of the tree's fixed-point arithmetic in bounds.
pub open spec fn key_in_range(k: Key) -> bool {
    coordinate_in_range(k.0) && coordinate_in_range(k.1) && coordinate_in_range(k.2)
}

/// Two keys differ on every axis.
pub open spec fn apart(a: Key, b: Key) -> bool {
    a.0 != b.0 && a.1 != b.1 && a.2 != b.2
}

pub open spec fn abs_diff(a: i64, b: i64) -> int {
    if a >= b {
        a - b
    } else {
        b - a
    }
}

/// One axis' share of a squared distance, as a fixed-point product: rounded down.
pub open spec fn axis_sq(a: i64, b: i64) -> int {
    (abs_diff(a, b) * abs_diff(a, b)) / key_scale()
}

/// The squared Euclidean distance between two keys, in units of `1 / key_scale()`.
pub open spec fn key_sq_distance(a: Key, b: Key) -> int {
    axis_sq(a.0, b.0) + axis_sq(a.1, b.1) + axis_sq(a.2, b.2)
}

/// The key of the point at `position`: each coordinate rescaled to `key_scale()`
/// with the position in its low bits, so keys of distinct positions are apart.
pub open spec fn tagged(p: UnitPoint, position: int) -> Key {
    (
        (p.x * POSITION_SPAN + position) as i64,
        (p.y * POSITION_SPAN + position) as i64,
        (p.z * POSITION_SPAN + position) as i64,
    )
}

/// The key of a query point: its coordinates rescaled, no position.
pub open spec fn query_key(p: UnitPoint) -> Key {
    ((p.x * POSITION_SPAN) as i64, (p.y * POSITION_SPAN) as i64, (p.z * POSITION_SPAN) as i64)
}

/// What a tree holds: the key stored under each item.
pub uninterp spec fn index_entries(t: PointIndex) -> Map<usize, Key>;

/// A k-d tree of kiddo over fixed-point keys (56 fractional bits), items `usize`,
/// buckets of 32. The tree sits in a hidden field: its fixed-point axis type is
/// parameterised by typenum's type-level integers, which Verus does not take.
#[verifier::external_body]
pub struct PointIndex {
    tree: KdTree<FixedI64<U56>, usize, 3, 32, u32>,
}

/// `r` is what a k-nearest query of `query` for `qty` items may return from `entries`:
/// pairs of distance and item, sorted by distance, each item once, at least `qty`
/// of them, and nothing left out nearer than the last.
pub open spec fn nearest_answer(
    entries: Map<usize, Key>,
    query: Key,
    qty: int,
    r: Seq<(u64, usize)>,
) -> bool {
    &&& forall|i: int|
        0 <= i < r.len() ==> {
            &&& #[trigger] entries.contains_key(r[i].1)
            &&& r[i].0 as int == key_sq_distance(query, entries[r[i].1])
        }
    &&& forall|i: int, j: int| 0 <= i < j < r.len() ==> r[i].1 != r[j].1
    &&& forall|i: int, j: int| 0 <= i <= j < r.len() ==> r[i].0 <= r[j].0
    &&& r.len() >= qty
    &&& forall|k: usize|
        #[trigger] entries.contains_key(k) && (forall|i: int| 0 <= i < r.len() ==> r[i].1 != k)
            ==> r.len() > 0 && key_sq_distance(query, entries[k]) >= r.last().0
}

impl PointIndex {
    /// Relies on kiddo's `KdTree::with_capacity`: a new tree holds nothing. Its capacity
    /// assertion admits far more than `POSITION_SPAN` points.
    #[verifier::external_body]
    pub(crate) fn with_capacity(capacity: usize) -> (r: PointIndex)
        requires
            capacity <= POSITION_SPAN,
        ensures
            index_entries(r) =~= Map::empty(),
    {
        PointIndex { tree: KdTree::with_capacity(capacity) }
    }

    /// Relies on kiddo's `KdTree::add`: the key is stored under `item`. `add` panics only
    /// when a full bucket's keys all share the coordinate it splits on, which keys apart
    /// from one another never do; with every bucket split in halves, fewer than
    /// `POSITION_SPAN` items keep the node indices in range.
    #[verifier::external_body]
    pub(crate) fn add(&mut self, key: Key, item: usize)
        requires
            item < POSITION_SPAN,
            key_in_range(key),
            forall|k: usize| #[trigger]
                index_entries(*old(self)).contains_key(k) ==> k < item && apart(
                    index_entries(*old(self))[k],
                    key,
                ),
        ensures
            index_entries(*final(self)) == index_entries(*old(self)).insert(item, key),
    {
        let point = [
            FixedI64::<U56>::from_bits(key.0),
            FixedI64::<U56>::from_bits(key.1),
            FixedI64::<U56>::from_bits(key.2),
        ];
        self.tree.add(&point, item);
    }

    /// Relies on kiddo's `KdTree::nearest_n` with `squared_euclidean`: the nearest items,
    /// nearest first, each with its distance (a sum of fixed-point squares, each rounded
    /// down). The result heap is made with capacity `qty`, at least that many slots, and
    /// fills up before any branch is pruned, so at least `qty` items come back where the
    /// tree holds that many; `qty` must not be 0, on which a non-empty tree panics.
    #[verifier::external_body]
    pub(crate) fn nearest_n(&self, query: Key, qty: usize) -> (r: Vec<(u64, usize)>)
        requires
            0 < qty <= POSITION_SPAN,
            index_entries(*self).dom().finite(),
            qty <= index_entries(*self).dom().len(),
            key_in_range(query),
            forall|k: usize| #[trigger]
                index_entries(*self).contains_key(k) ==> key_in_range(index_entries(*self)[k]),
        ensures
            nearest_answer(index_entries(*self), query, qty as int, r@),
    {
        let point = [
            FixedI64::<U56>::from_bits(query.0),
            FixedI64::<U56>::from_bits(query.1),
            FixedI64::<U56>::from_bits(query.2),
        ];
        self.tree.nearest_n(&point, qty, &squared_euclidean).into_iter().map(
            |n| (n.distance.to_bits() as u64, n.item),
        ).collect()
    }

    /// Relies on kiddo's `KdTree::size`: the number of items added.
    #[verifier::external_body]
    pub(crate) fn size(&self) -> (r: usize)
        ensures
            r as int == index_entries(*self).dom().len(),
    {
        self.tree.size()
    }
}

} // verus!

//! The reverse geocoder: records paired with a spatial index over their projected
//! points, answering "which places lie nearest to this point".
use vstd::prelude::*;
use crate::city::City;
use crate::min;
use crate::distance::{
    is_kilometres, lemma_kilometres_monotonic, unit_sphere_squared_euclidean_to_kilometres,
};
use crate::index::{
    apart, index_entries, key_in_range, key_sq_distance, nearest_answer, query_key, tagged, Key,
    PointIndex, UnitPoint, POSITION_SPAN,
};

verus! {

/// A snapshot of the gazetteer: the records and the index built over their points,
/// always built together.
pub struct ReverseGeocoder {
    cities: Vec<City>,
    tree: PointIndex,
    points: Ghost<Seq<UnitPoint>>,
}

/// The keys an index over `points` holds: position `i` under the key of `points[i]`.
pub open spec fn keys_of(points: Seq<UnitPoint>) -> Map<usize, Key> {
    Map::new(|i: usize| i < points.len(), |i: usize| tagged(points[i as int], i as int))
}

proof fn lemma_tagged_in_range(p: UnitPoint, i: int)
    requires
        p.wf(),
        0 <= i < POSITION_SPAN,
    ensures
        key_in_range(tagged(p, i)),
        tagged(p, i).0 == p.x * POSITION_SPAN + i,
        tagged(p, i).1 == p.y * POSITION_SPAN + i,
        tagged(p, i).2 == p.z * POSITION_SPAN + i,
{
    assert(-0x100_0000_0000_0000 <= p.x * POSITION_SPAN <= 0x100_0000_0000_0000) by (nonlinear_arith)
        requires
            -0x1_0000_0000 <= p.x <= 0x1_0000_0000,
    ;
    assert(-0x100_0000_0000_0000 <= p.y * POSITION_SPAN <= 0x100_0000_0000_0000) by (nonlinear_arith)
        requires
            -0x1_0000_0000 <= p.y <= 0x1_0000_0000,
    ;
    assert(-0x100_0000_0000_0000 <= p.z * POSITION_SPAN <= 0x100_0000_0000_0000) by (nonlinear_arith)
        requires
            -0x1_0000_0000 <= p.z <= 0x1_0000_0000,
    ;
}

proof fn lemma_tag_distinct(a: int, i: int, b: int, j: int)
    requires
        0 <= i < POSITION_SPAN,
        0 <= j < POSITION_SPAN,
        i != j,
    ensures
        a * POSITION_SPAN + i != b * POSITION_SPAN + j,
{
    if a * POSITION_SPAN + i == b * POSITION_SPAN + j {
        assert((a - b) * POSITION_SPAN == j - i) by (nonlinear_arith)
            requires
                a * POSITION_SPAN + i == b * POSITION_SPAN + j,
        ;
        if a > b {
            assert((a - b) * POSITION_SPAN >= POSITION_SPAN) by (nonlinear_arith)
                requires
                    a - b >= 1,
            ;
        } else if a < b {
            assert((b - a) * POSITION_SPAN >= POSITION_SPAN) by (nonlinear_arith)
                requires
                    b - a >= 1,
            ;
        }
    }
}

/// Keys of distinct positions differ on every axis.
proof fn lemma_tagged_apart(p: UnitPoint, i: int, q: UnitPoint, j: int)
    requires
        p.wf(),
        q.wf(),
        0 <= i < POSITION_SPAN,
        0 <= j < POSITION_SPAN,
        i != j,
    ensures
        apart(tagged(p, i), tagged(q, j)),
{
    lemma_tagged_in_range(p, i);
    lemma_tagged_in_range(q, j);
    lemma_tag_distinct(p.x as int, i, q.x as int, j);
    lemma_tag_distinct(p.y as int, i, q.y as int, j);
    lemma_tag_distinct(p.z as int, i, q.z as int, j);
}

proof fn lemma_query_key(p: UnitPoint)
    requires
        p.wf(),
    ensures
        key_in_range(query_key(p)),
        query_key(p).0 == p.x * POSITION_SPAN,
        query_key(p).1 == p.y * POSITION_SPAN,
        query_key(p).2 == p.z * POSITION_SPAN,
{
    lemma_tagged_in_range(p, 0);
}

fn tagged_key(p: &UnitPoint, position: usize) -> (r: Key)
    requires
        p.wf(),
        position < POSITION_SPAN,
    ensures
        r == tagged(*p, position as int),
{
    proof {
        lemma_tagged_in_range(*p, position as int);
    }
    let i = position as i64;
    (p.x * POSITION_SPAN + i, p.y * POSITION_SPAN + i, p.z * POSITION_SPAN + i)
}

fn key_of_query(p: &UnitPoint) -> (r: Key)
    requires
        p.wf(),
    ensures
        r == query_key(*p),
        key_in_range(r),
{
    proof {
        lemma_query_key(*p);
    }
    (p.x * POSITION_SPAN, p.y * POSITION_SPAN, p.z * POSITION_SPAN)
}

impl ReverseGeocoder {
    /// The records, in the order they were given.
    pub closed spec fn records(&self) -> Seq<City> {
        self.cities@
    }

    /// The projected point of each record, position for position.
    pub closed spec fn points(&self) -> Seq<UnitPoint> {
        self.points@
    }

    /// Records and index agree: the index holds exactly one key per record, that of
    /// its point, under its position.
    pub closed spec fn wf(&self) -> bool {
        &&& self.cities@.len() == self.points@.len()
        &&& self.cities@.len() < POSITION_SPAN
        &&& forall|i: int| 0 <= i < self.points@.len() ==> (#[trigger] self.points@[i]).wf()
        &&& index_entries(self.tree) == keys_of(self.points@)
        &&& index_entries(self.tree).dom().finite()
        &&& index_entries(self.tree).dom().len() == self.cities@.len()
    }

    /// The squared distance, in index units, from `query` to the record at `position`.
    pub open spec fn distance_to(&self, query: UnitPoint, position: int) -> int {
        key_sq_distance(query_key(query), tagged(self.points()[position], position))
    }

    /// `r` answers a k-nearest query: `min(k, n)` pairs of squared distance and
    /// position, nearest first, each position once, and no record left out nearer
    /// than the last one given.
    pub open spec fn is_nearest(&self, query: UnitPoint, k: int, r: Seq<(u64, usize)>) -> bool {
        let n = self.records().len() as int;
        &&& r.len() == min(k, n)
        &&& forall|i: int|
            0 <= i < r.len() ==> {
                &&& (#[trigger] r[i]).1 < n
                &&& r[i].0 as int == self.distance_to(query, r[i].1 as int)
            }
        &&& forall|i: int, j: int| 0 <= i < j < r.len() ==> r[i].1 != r[j].1
        &&& forall|i: int, j: int| 0 <= i <= j < r.len() ==> r[i].0 <= r[j].0
        &&& r.len() > 0 ==> forall|p: int|
            0 <= p < n && (forall|i: int| 0 <= i < r.len() ==> r[i].1 != p) ==> r.last().0
                <= #[trigger] self.distance_to(query, p)
    }

    /// Builds a snapshot: every record's point goes into the index under the record's
    /// position.
    pub fn new(cities: Vec<City>, points: Vec<UnitPoint>) -> (r: ReverseGeocoder)
        requires
            cities@.len() == points@.len(),
            cities@.len() < POSITION_SPAN,
            forall|i: int| 0 <= i < points@.len() ==> (#[trigger] points@[i]).wf(),
        ensures
            r.wf(),
            r.records() == cities@,
            r.points() == points@,
    {
        let n = points.len();
        let mut tree = PointIndex::with_capacity(n);
        let mut i: usize = 0;
        while i < n
            invariant
                n == points@.len(),
                n < POSITION_SPAN,
                0 <= i <= n,
                forall|j: int| 0 <= j < points@.len() ==> (#[trigger] points@[j]).wf(),
                index_entries(tree) == Map::new(
                    |j: usize| j < i,
                    |j: usize| tagged(points@[j as int], j as int),
                ),
                index_entries(tree).dom().finite(),
                index_entries(tree).dom().len() == i,
            decreases n - i,
        {
            let key = tagged_key(&points[i], i);
            proof {
                lemma_tagged_in_range(points@[i as int], i as int);
                assert forall|k: usize| #[trigger]
                    index_entries(tree).contains_key(k) implies k < i && apart(
                    index_entries(tree)[k],
                    key,
                ) by {
                    lemma_tagged_apart(points@[k as int], k as int, points@[i as int], i as int);
                }
                assert(!index_entries(tree).dom().contains(i));
            }
            tree.add(key, i);
            i = i + 1;
            proof {
                assert(index_entries(tree) =~= Map::new(
                    |j: usize| j < i,
                    |j: usize| tagged(points@[j as int], j as int),
                ));
            }
        }
        let r = ReverseGeocoder { cities, tree, points: Ghost(points@) };
        assert(index_entries(r.tree) =~= keys_of(points@));
        r
    }

    /// The number of records.
    pub fn len(&self) -> (r: usize)
        ensures
            r == self.records().len(),
    {
        self.cities.len()
    }

    /// The number of keys in the index, which is always the number of records.
    pub fn index_size(&self) -> (r: usize)
        requires
            self.wf(),
        ensures
            r == self.records().len(),
    {
        self.tree.size()
    }

    /// The record at `index`, if there is one.
    pub fn get(&self, index: usize) -> (r: Option<&City>)
        ensures
            match r {
                Some(c) => index < self.records().len() && *c == self.records()[index as int],
                None => index >= self.records().len(),
            },
    {
        if index < self.cities.len() {
            Some(&self.cities[index])
        } else {
            None
        }
    }

    /// The `k` records nearest to `query` (all of them where there are fewer), as
    /// pairs of squared distance in index units and position, nearest first.
    pub fn nearest(&self, query: &UnitPoint, k: usize) -> (r: Vec<(u64, usize)>)
        requires
            self.wf(),
            query.wf(),
        ensures
            self.is_nearest(*query, k as int, r@),
    {
        let n = self.cities.len();
        if k == 0 || n == 0 {
            return Vec::new();
        }
        let qty = if k < n {
            k
        } else {
            n
        };
        let qk = key_of_query(query);
        proof {
            assert forall|j: usize| #[trigger]
                index_entries(self.tree).contains_key(j) implies key_in_range(
                index_entries(self.tree)[j],
            ) by {
                lemma_tagged_in_range(self.points@[j as int], j as int);
            }
        }
        let found = self.tree.nearest_n(qk, qty);
        let ghost entries = index_entries(self.tree);
        assert(nearest_answer(entries, qk, qty as int, found@));
        let mut r: Vec<(u64, usize)> = Vec::new();
        let mut i: usize = 0;
        while i < qty
            invariant
                qty <= found@.len(),
                0 <= i <= qty,
                r@ == found@.take(i as int),
            decreases qty - i,
        {
            r.push(found[i]);
            i = i + 1;
            assert(r@ =~= found@.take(i as int));
        }
        proof {
            assert(r@ =~= found@.take(qty as int));
            assert forall|i: int| 0 <= i < r@.len() implies {
                &&& (#[trigger] r@[i]).1 < n
                &&& r@[i].0 as int == self.distance_to(*query, r@[i].1 as int)
            } by {
                assert(entries.contains_key(found@[i].1));
            }
            assert forall|p: int|
                0 <= p < n && (forall|i: int| 0 <= i < r@.len() ==> r@[i].1 != p) implies r@.last().0
                <= #[trigger] self.distance_to(*query, p) by {
                let pu = p as usize;
                assert(entries.contains_key(pu));
                if exists|j: int| 0 <= j < found@.len() && found@[j].1 == pu {
                    let j = choose|j: int| 0 <= j < found@.len() && found@[j].1 == pu;
                    if j < qty {
                        assert(r@[j] == found@[j]);
                    }
                    assert(found@[qty - 1].0 <= found@[j].0);
                } else {
                    assert(found@[qty - 1].0 <= found@.last().0);
                }
            }
        }
        r
    }

    /// The `results` records nearest to `query`, nearest first, each with its distance
    /// in whole kilometres (the chord length on the Earth, rounded down). Asking for
    /// more records than there are gives all of them; an empty snapshot gives none.
    pub fn search(&self, query: &UnitPoint, results: usize) -> (r: Vec<(u32, &City)>)
        requires
            self.wf(),
            query.wf(),
        ensures
            r@.len() == min(results as int, self.records().len() as int),
            self.records().len() == 0 ==> r@.len() == 0,
            forall|i: int, j: int| 0 <= i <= j < r@.len() ==> r@[i].0 <= r@[j].0,
            exists|found: Seq<(u64, usize)>|
                {
                    &&& #[trigger] self.is_nearest(*query, results as int, found)
                    &&& found.len() == r@.len()
                    &&& forall|i: int|
                        0 <= i < r@.len() ==> {
                            &&& is_kilometres(found[i].0 as int, r@[i].0 as int)
                            &&& *r@[i].1 == self.records()[found[i].1 as int]
                        }
                },
    {
        let found = self.nearest(query, results);
        let mut r: Vec<(u32, &City)> = Vec::new();
        let mut i: usize = 0;
        while i < found.len()
            invariant
                self.is_nearest(*query, results as int, found@),
                0 <= i <= found@.len(),
                r@.len() == i,
                forall|j: int|
                    0 <= j < i ==> {
                        &&& is_kilometres(found@[j].0 as int, r@[j].0 as int)
                        &&& *r@[j].1 == self.records()[found@[j].1 as int]
                    },
            decreases found@.len() - i,
        {
            let (d, position) = found[i];
            let km = unit_sphere_squared_euclidean_to_kilometres(d);
            r.push((km, &self.cities[position]));
            i = i + 1;
        }
        proof {
            assert forall|i: int, j: int| 0 <= i <= j < r@.len() implies r@[i].0 <= r@[j].0 by {
                lemma_kilometres_monotonic(
                    found@[i].0 as int,
                    r@[i].0 as int,
                    found@[j].0 as int,
                    r@[j].0 as int,
                );
            }
        }
        r
    }
}

impl Default for ReverseGeocoder {
    /// An empty snapshot: no records, and an index that holds nothing.
    fn default() -> (r: Self)
        ensures
            r.wf(),
            r.records().len() == 0,
    {
        ReverseGeocoder::new(Vec::new(), Vec::new())
    }
}

/// No entry of one answer is nearer than the entry at the same place of another
/// answer to the same query.
proof fn lemma_answer_not_nearer(
    g: ReverseGeocoder,
    query: UnitPoint,
    k: int,
    ra: Seq<(u64, usize)>,
    rb: Seq<(u64, usize)>,
    j: int,
)
    requires
        g.is_nearest(query, k, ra),
        g.is_nearest(query, k, rb),
        0 <= j < ra.len(),
    ensures
        ra[j].0 >= rb[j].0,
{
    if ra[j].0 < rb[j].0 {
        let sa = ra.take(j + 1).map_values(|e: (u64, usize)| e.1);
        let sb = rb.take(j).map_values(|e: (u64, usize)| e.1);
        assert(sa.no_duplicates()) by {
            assert forall|i1: int, i2: int| 0 <= i1 < sa.len() && 0 <= i2 < sa.len() && i1 != i2 implies sa[i1] != sa[i2] by {
                if i1 < i2 {
                    assert(ra[i1].1 != ra[i2].1);
                } else {
                    assert(ra[i2].1 != ra[i1].1);
                }
            }
        }
        sa.unique_seq_to_set();
        sb.lemma_cardinality_of_set();
        assert(sa.to_set().subset_of(sb.to_set())) by {
            assert forall|p: usize| sa.to_set().contains(p) implies sb.to_set().contains(p) by {
                assert(sa.contains(p));
                let i = choose|i: int| 0 <= i < sa.len() && sa[i] == p;
                assert(ra[i].1 == p);
                assert(ra[i].0 <= ra[j].0);
                if exists|t: int| 0 <= t < rb.len() && rb[t].1 == p {
                    let t = choose|t: int| 0 <= t < rb.len() && rb[t].1 == p;
                    assert(rb[t].0 as int == g.distance_to(query, p as int));
                    if t >= j {
                        assert(rb[j].0 <= rb[t].0);
                    }
                    assert(sb[t] == p);
                } else {
                    assert(rb[j].0 <= rb.last().0);
                    assert(rb.last().0 <= g.distance_to(query, p as int));
                }
            }
        }
        vstd::set_lib::lemma_len_subset(sa.to_set(), sb.to_set());
    }
}

/// Building twice from the same records and points (as from one file, read twice)
/// gives snapshots that answer any query with the same distances in the same order.
pub proof fn lemma_rebuild_same_distances(
    a: ReverseGeocoder,
    b: ReverseGeocoder,
    query: UnitPoint,
    k: int,
    ra: Seq<(u64, usize)>,
    rb: Seq<(u64, usize)>,
)
    requires
        a.records() == b.records(),
        a.points() == b.points(),
        a.is_nearest(query, k, ra),
        b.is_nearest(query, k, rb),
    ensures
        ra.len() == rb.len(),
        forall|i: int| 0 <= i < ra.len() ==> ra[i].0 == rb[i].0,
{
    assert forall|p: int| #[trigger] a.distance_to(query, p) == b.distance_to(query, p) by {}
    assert(a.is_nearest(query, k, rb));
    assert forall|i: int| 0 <= i < ra.len() implies ra[i].0 == rb[i].0 by {
        lemma_answer_not_nearer(a, query, k, ra, rb, i);
        lemma_answer_not_nearer(a, query, k, rb, ra, i);
    }
}

} // verus!

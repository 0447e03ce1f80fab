//! The spatial sample map collaborator: a point-keyed mapping from sample
//! point to elevation that can also report the local elevation gradient at a
//! point's site and the point's tessellation-adjacent neighbors.
//!
//! The pipeline only needs these capabilities, so they are modeled as a trait;
//! [`InMemorySampleMap`] is a simple in-memory implementation suitable for
//! tests and for callers that precompute gradients and adjacency elsewhere.

use vstd::prelude::*;

verus! {

/// A sample point is identified by a stable integer key. Two distinct points
/// of a tessellation never share a key.
///
/// `elevation`, `gradient` and the flatness scores derived from them are
/// fixed-point values: an integer `v` stands for the real number
/// `v / SCALE` (see [`crate::transform::SCALE`]).
pub struct SamplePoint {
    /// Stable identity, usable as a map key.
    pub id: u64,
    /// Elevation at this point, fixed-point.
    pub elevation: i64,
    /// Local elevation gradient magnitude at this point's site, fixed-point;
    /// `None` when the surrounding data is insufficient to evaluate it.
    pub gradient: Option<i64>,
    /// Keys of the tessellation-adjacent sample points.
    pub neighbors: Vec<u64>,
}

/// A spatial sample map of elevations: iteration over its (point, elevation)
/// pairs, gradient evaluation at a point's site, and tessellation adjacency.
///
/// The three spec functions are the abstract contents; each executable method
/// returns exactly what the corresponding spec function says, so any two
/// calls on the same map agree.
pub trait SampleMap: Sized {
    /// The map's (point key, elevation) pairs, in the map's iteration order.
    spec fn points_seq(&self) -> Seq<(u64, i64)>;

    /// The gradient magnitude at the given point's site, or `None` when it
    /// cannot be evaluated.
    spec fn gradient_of(&self, p: u64) -> Option<i64>;

    /// The keys of the points adjacent to `p` in the tessellation.
    spec fn neighbors_of(&self, p: u64) -> Seq<u64>;

    /// Iterate the map: every (point key, elevation) pair.
    fn points(&self) -> (r: Vec<(u64, i64)>)
        ensures
            r@ == self.points_seq(),
    ;

    /// Evaluate the elevation gradient magnitude at `p`'s site.
    fn gradient(&self, p: u64) -> (r: Option<i64>)
        ensures
            r == self.gradient_of(p),
    ;

    /// The tessellation neighbors of `p`.
    fn neighbors(&self, p: u64) -> (r: Vec<u64>)
        ensures
            r@ == self.neighbors_of(p),
    ;
}

/// No two entries share a point key.
pub open spec fn distinct_points(s: Seq<(u64, i64)>) -> bool {
    forall|i: int, j: int| 0 <= i < j < s.len() ==> (#[trigger] s[i]).0 != (#[trigger] s[j]).0
}

/// The elevation recorded for `p` in the (point, elevation) pairs `s`: the
/// value of the first entry keyed by `p`, or zero when there is none.
pub open spec fn elevation_at(s: Seq<(u64, i64)>, p: u64) -> i64
    decreases s.len(),
{
    if s.len() == 0 {
        0
    } else if s.first().0 == p {
        s.first().1
    } else {
        elevation_at(s.drop_first(), p)
    }
}

/// In a point-keyed sequence, any entry keyed by `p` carries the elevation
/// that `elevation_at` reads for `p`.
pub proof fn lemma_elevation_at_distinct(s: Seq<(u64, i64)>, i: int, p: u64)
    requires
        distinct_points(s),
        0 <= i < s.len(),
        s[i].0 == p,
    ensures
        elevation_at(s, p) == s[i].1,
    decreases s.len(),
{
    if i == 0 {
        assert(s.first() == s[0]);
    } else {
        assert(s.first() == s[0]);
        assert(s[0].0 != p);
        let rest = s.drop_first();
        assert(distinct_points(rest)) by {
            assert forall|a: int, b: int| 0 <= a < b < rest.len() implies (#[trigger] rest[a]).0
                != (#[trigger] rest[b]).0 by {
                assert(rest[a] == s[a + 1]);
                assert(rest[b] == s[b + 1]);
            }
        }
        assert(rest[i - 1] == s[i]);
        lemma_elevation_at_distinct(rest, i - 1, p);
    }
}

/// First entry of `s` whose point key is `p`, if any.
pub open spec fn lookup_point(s: Seq<SamplePoint>, p: u64) -> Option<SamplePoint>
    decreases s.len(),
{
    if s.len() == 0 {
        None
    } else if s.first().id == p {
        Some(s.first())
    } else {
        lookup_point(s.drop_first(), p)
    }
}

/// An in-memory spatial sample map: each point carries its elevation, its
/// precomputed gradient, and its adjacency list.
pub struct InMemorySampleMap {
    points: Vec<SamplePoint>,
}

impl InMemorySampleMap {
    /// The stored points.
    pub closed spec fn spec_points(&self) -> Seq<SamplePoint> {
        self.points@
    }

    /// Build a map from one entry per sample point. Each point key must occur
    /// at most once: a sample map is a point-keyed mapping.
    pub fn new(points: Vec<SamplePoint>) -> (r: Self)
        requires
            distinct_points(points@.map_values(|sp: SamplePoint| (sp.id, sp.elevation))),
        ensures
            r.spec_points() == points@,
    {
        InMemorySampleMap { points }
    }
}

impl SampleMap for InMemorySampleMap {
    open spec fn points_seq(&self) -> Seq<(u64, i64)> {
        self.spec_points().map_values(|sp: SamplePoint| (sp.id, sp.elevation))
    }

    open spec fn gradient_of(&self, p: u64) -> Option<i64> {
        match lookup_point(self.spec_points(), p) {
            Some(sp) => sp.gradient,
            None => None,
        }
    }

    open spec fn neighbors_of(&self, p: u64) -> Seq<u64> {
        match lookup_point(self.spec_points(), p) {
            Some(sp) => sp.neighbors@,
            None => Seq::empty(),
        }
    }

    fn points(&self) -> (r: Vec<(u64, i64)>) {
        let mut r: Vec<(u64, i64)> = Vec::new();
        let n = self.points.len();
        let mut i: usize = 0;
        proof {
            assert(r@ =~= self.spec_points().take(0).map_values(
                |sp: SamplePoint| (sp.id, sp.elevation),
            ));
        }
        while i < n
            invariant
                n == self.spec_points().len(),
                i <= n,
                r@ == self.spec_points().take(i as int).map_values(
                    |sp: SamplePoint| (sp.id, sp.elevation),
                ),
            decreases n - i,
        {
            let sp = &self.points[i];
            r.push((sp.id, sp.elevation));
            proof {
                assert(self.spec_points().take(i + 1).drop_last() =~= self.spec_points().take(
                    i as int,
                ));
                assert(r@ =~= self.spec_points().take(i + 1).map_values(
                    |sp: SamplePoint| (sp.id, sp.elevation),
                ));
            }
            i = i + 1;
        }
        proof {
            assert(self.spec_points().take(n as int) =~= self.spec_points());
        }
        r
    }

    fn gradient(&self, p: u64) -> (r: Option<i64>) {
        match self.find(p) {
            Some(i) => self.points[i].gradient,
            None => None,
        }
    }

    fn neighbors(&self, p: u64) -> (r: Vec<u64>) {
        match self.find(p) {
            Some(i) => self.points[i].neighbors.clone(),
            None => Vec::new(),
        }
    }
}

impl InMemorySampleMap {
    /// Index of the first stored point with key `p`, if any.
    fn find(&self, p: u64) -> (r: Option<usize>)
        ensures
            match r {
                Some(i) => 0 <= i < self.spec_points().len() && lookup_point(
                    self.spec_points(),
                    p,
                ) == Some(self.spec_points()[i as int]),
                None => lookup_point(self.spec_points(), p) is None,
            },
    {
        let n = self.points.len();
        let mut i: usize = 0;
        proof {
            assert(self.spec_points().skip(0) =~= self.spec_points());
        }
        while i < n
            invariant
                n == self.spec_points().len(),
                i <= n,
                lookup_point(self.spec_points(), p) == lookup_point(
                    self.spec_points().skip(i as int),
                    p,
                ),
            decreases n - i,
        {
            if self.points[i].id == p {
                proof {
                    let rest = self.spec_points().skip(i as int);
                    assert(rest.first() == self.spec_points()[i as int]);
                }
                return Some(i);
            }
            proof {
                let rest = self.spec_points().skip(i as int);
                assert(rest.first() == self.spec_points()[i as int]);
                assert(rest.drop_first() =~= self.spec_points().skip(i + 1));
            }
            i = i + 1;
        }
        proof {
            assert(self.spec_points().skip(n as int) =~= Seq::<SamplePoint>::empty());
        }
        None
    }
}

} // verus!

//! The two-stage flatness pipeline.
//!
//! Stage 1 (scoring): every (point, elevation) pair of the elevation map is
//! considered independently; points below sea level, points whose gradient
//! cannot be evaluated, and points whose gradient the injected policy rejects
//! are excluded, and every other point is kept with the policy's score.
//!
//! Stage 2 (neighbor-density filter): when the threshold is positive, a scored
//! point is retained only if at least that many of its tessellation neighbors
//! were themselves scored in stage 1. Neighbor membership is judged against
//! the frozen stage-1 result, never against the shrinking output, so the pass
//! is single and deterministic.

use vstd::prelude::*;

use crate::sample_map::{distinct_points, elevation_at, lemma_elevation_at_distinct, SampleMap};
use crate::transform::{lemma_sqrt_transform_bounds, GradientTransform, SqrtFlatnessTransform, SCALE};

verus! {

/// Stage-1 decision for one (point, elevation) pair: `None` to exclude the
/// point, or the point with its flatness score.
pub open spec fn point_score<M: SampleMap, T: GradientTransform>(
    em: M,
    sea_level: i64,
    t: T,
    pe: (u64, i64),
) -> Option<(u64, i64)> {
    if pe.1 < sea_level {
        None
    } else {
        match em.gradient_of(pe.0) {
            Some(g) => match t.spec_transform(g) {
                Some(s) => Some((pe.0, s)),
                None => None,
            },
            None => None,
        }
    }
}

/// The stage-1 decision as a function of the pair alone.
pub open spec fn point_score_fn<M: SampleMap, T: GradientTransform>(
    em: M,
    sea_level: i64,
    t: T,
) -> spec_fn((u64, i64)) -> Option<(u64, i64)> {
    |pe: (u64, i64)| point_score(em, sea_level, t, pe)
}

/// The stage-1 (unfiltered) scoring result.
pub open spec fn stage1_result<M: SampleMap, T: GradientTransform>(
    em: M,
    sea_level: i64,
    t: T,
) -> Seq<(u64, i64)> {
    em.points_seq().filter_map(point_score_fn(em, sea_level, t))
}

/// Some entry of `s` is keyed by the point `p`.
pub open spec fn has_point(s: Seq<(u64, i64)>, p: u64) -> bool {
    exists|i: int| 0 <= i < s.len() && (#[trigger] s[i]).0 == p
}

/// How many tessellation neighbors of `p` carry a score in `scored`.
pub open spec fn neighbor_count<M: SampleMap>(em: M, scored: Seq<(u64, i64)>, p: u64) -> nat {
    em.neighbors_of(p).filter(|q: u64| has_point(scored, q)).len()
}

/// The stage-2 retention predicate as a function of the entry alone.
pub open spec fn retained_fn<M: SampleMap>(
    em: M,
    scored: Seq<(u64, i64)>,
    min_n: usize,
) -> spec_fn((u64, i64)) -> bool {
    |pe: (u64, i64)| neighbor_count(em, scored, pe.0) >= min_n
}

/// The neighbor-density filter over a frozen stage-1 result: the identity
/// when the threshold is zero.
pub open spec fn stage2_result<M: SampleMap>(
    em: M,
    scored: Seq<(u64, i64)>,
    min_n: usize,
) -> Seq<(u64, i64)> {
    if min_n == 0 {
        scored
    } else {
        scored.filter(retained_fn(em, scored, min_n))
    }
}

/// The whole pipeline: stage-1 scoring, then the neighbor-density filter.
pub open spec fn flatness_result<M: SampleMap, T: GradientTransform>(
    em: M,
    min_n: usize,
    sea_level: i64,
    t: T,
) -> Seq<(u64, i64)> {
    stage2_result(em, stage1_result(em, sea_level, t), min_n)
}

/// Whether `v` holds an entry keyed by `p`.
fn contains_point(v: &Vec<(u64, i64)>, p: u64) -> (r: bool)
    ensures
        r == has_point(v@, p),
{
    let n = v.len();
    let mut i: usize = 0;
    while i < n
        invariant
            n == v@.len(),
            i <= n,
            forall|j: int| 0 <= j < i ==> (#[trigger] v@[j]).0 != p,
        decreases n - i,
    {
        if v[i].0 == p {
            return true;
        }
        i = i + 1;
    }
    false
}

/// Run the pipeline: score every point of the elevation map at or above
/// `sea_level` whose gradient the injected policy accepts, then retain only
/// the scored points with at least `minimum_neighbor_num` scored neighbors.
pub fn build_flatness_map<M: SampleMap, T: GradientTransform>(
    elevation_map: &M,
    minimum_neighbor_num: usize,
    sea_level: i64,
    gradient_to_flatness: &T,
) -> (r: Vec<(u64, i64)>)
    ensures
        r@ == flatness_result(*elevation_map, minimum_neighbor_num, sea_level, *gradient_to_flatness),
{
    let ghost score_fn = point_score_fn(*elevation_map, sea_level, *gradient_to_flatness);
    let pts = elevation_map.points();
    let mut scored: Vec<(u64, i64)> = Vec::new();
    let n = pts.len();
    let mut i: usize = 0;
    proof {
        assert(scored@ =~= pts@.take(0).filter_map(score_fn));
    }
    while i < n
        invariant
            n == pts@.len(),
            i <= n,
            score_fn == point_score_fn(*elevation_map, sea_level, *gradient_to_flatness),
            scored@ == pts@.take(i as int).filter_map(score_fn),
        decreases n - i,
    {
        let (p, elevation) = pts[i];
        if elevation >= sea_level {
            match elevation_map.gradient(p) {
                Some(g) => match gradient_to_flatness.transform(g) {
                    Some(s) => scored.push((p, s)),
                    None => {},
                },
                None => {},
            }
        }
        proof {
            pts@.lemma_filter_map_take_succ(score_fn, i as int);
            assert(scored@ =~= pts@.take(i + 1).filter_map(score_fn));
        }
        i = i + 1;
    }
    proof {
        assert(pts@.take(n as int) =~= pts@);
    }
    if minimum_neighbor_num == 0 {
        return scored;
    }
    let ghost keep_fn = retained_fn(*elevation_map, scored@, minimum_neighbor_num);
    let ghost scored_seq = scored@;
    let mut out: Vec<(u64, i64)> = Vec::new();
    let m = scored.len();
    let mut i: usize = 0;
    proof {
        reveal(Seq::filter);
        assert(scored_seq.take(0) =~= Seq::<(u64, i64)>::empty());
        assert(out@ =~= scored_seq.take(0).filter(keep_fn));
    }
    while i < m
        invariant
            m == scored@.len(),
            i <= m,
            scored@ == scored_seq,
            keep_fn == retained_fn(*elevation_map, scored_seq, minimum_neighbor_num),
            minimum_neighbor_num > 0,
            out@ == scored_seq.take(i as int).filter(keep_fn),
        decreases m - i,
    {
        let (p, s) = scored[i];
        let ghost member_fn = (|q: u64| has_point(scored_seq, q));
        let nbrs = elevation_map.neighbors(p);
        let mut count: usize = 0;
        let k = nbrs.len();
        let mut j: usize = 0;
        proof {
            reveal(Seq::filter);
            assert(nbrs@.take(0) =~= Seq::<u64>::empty());
            assert(count == nbrs@.take(0).filter(member_fn).len());
        }
        while j < k
            invariant
                k == nbrs@.len(),
                j <= k,
                scored@ == scored_seq,
                member_fn == (|q: u64| has_point(scored_seq, q)),
                count == nbrs@.take(j as int).filter(member_fn).len(),
                count <= j,
            decreases k - j,
        {
            let is_member = contains_point(&scored, nbrs[j]);
            proof {
                lemma_filter_take_succ(nbrs@, member_fn, j as int);
            }
            if is_member {
                count = count + 1;
            }
            j = j + 1;
        }
        proof {
            assert(nbrs@.take(k as int) =~= nbrs@);
            assert(count == neighbor_count(*elevation_map, scored_seq, p));
            lemma_filter_take_succ(scored_seq, keep_fn, i as int);
            assert(scored_seq[i as int] == (p, s));
        }
        if count >= minimum_neighbor_num {
            out.push((p, s));
        }
        proof {
            assert(out@ =~= scored_seq.take(i + 1).filter(keep_fn));
        }
        i = i + 1;
    }
    proof {
        assert(scored_seq.take(m as int) =~= scored_seq);
    }
    out
}

/// Filtering one more element keeps the filtered prefix and appends the
/// element exactly when the predicate accepts it.
proof fn lemma_filter_take_succ<A>(s: Seq<A>, pred: spec_fn(A) -> bool, i: int)
    requires
        0 <= i < s.len(),
    ensures
        s.take(i + 1).filter(pred) == s.take(i).filter(pred) + (if pred(s[i]) {
            seq![s[i]]
        } else {
            Seq::<A>::empty()
        }),
{
    Seq::lemma_take_succ(s, i);
    Seq::filter_distributes_over_add(s.take(i), seq![s[i]], pred);
    reveal_with_fuel(Seq::filter, 2);
    assert(seq![s[i]].drop_last() =~= Seq::<A>::empty());
    if pred(s[i]) {
        assert(seq![s[i]].filter(pred) =~= seq![s[i]]);
    } else {
        assert(seq![s[i]].filter(pred) =~= Seq::<A>::empty());
    }
    assert(s.take(i + 1).filter(pred) =~= s.take(i).filter(pred) + (if pred(s[i]) {
        seq![s[i]]
    } else {
        Seq::<A>::empty()
    }));
}

/// The result of the pipeline together with the parameters that produced it.
/// Immutable once constructed: it exposes read access only.
pub struct FlatnessMap {
    scores: Vec<(u64, i64)>,
    minimum_neighbor_num: usize,
    sea_level: i64,
}

impl FlatnessMap {
    /// The (point, score) pairs of the final flatness map.
    pub closed spec fn spec_scores(&self) -> Seq<(u64, i64)> {
        self.scores@
    }

    /// The neighbor-density threshold the map was built with.
    pub closed spec fn spec_minimum_neighbor_num(&self) -> usize {
        self.minimum_neighbor_num
    }

    /// The sea level the map was built with.
    pub closed spec fn spec_sea_level(&self) -> i64 {
        self.sea_level
    }

    /// Run the pipeline and keep the result with its parameters.
    pub fn new<M: SampleMap, T: GradientTransform>(
        elevation_map: &M,
        minimum_neighbor_num: usize,
        sea_level: i64,
        gradient_to_flatness: &T,
    ) -> (r: Self)
        ensures
            r.spec_scores() == flatness_result(
                *elevation_map,
                minimum_neighbor_num,
                sea_level,
                *gradient_to_flatness,
            ),
            r.spec_minimum_neighbor_num() == minimum_neighbor_num,
            r.spec_sea_level() == sea_level,
    {
        let scores = build_flatness_map(
            elevation_map,
            minimum_neighbor_num,
            sea_level,
            gradient_to_flatness,
        );
        FlatnessMap { scores, minimum_neighbor_num, sea_level }
    }

    /// Read access to the underlying (point, score) mapping.
    pub fn map(&self) -> (r: &Vec<(u64, i64)>)
        ensures
            r@ == self.spec_scores(),
    {
        &self.scores
    }

    /// The neighbor-density threshold the map was built with.
    pub fn minimum_neighbor_num(&self) -> (r: usize)
        ensures
            r == self.spec_minimum_neighbor_num(),
    {
        self.minimum_neighbor_num
    }

    /// The sea level the map was built with.
    pub fn sea_level(&self) -> (r: i64)
        ensures
            r == self.spec_sea_level(),
    {
        self.sea_level
    }
}

/// Every entry of the pipeline's result comes from a stage-1 decision: some
/// (point, elevation) pair of the elevation map was at or above sea level and
/// was accepted by the policy with that very score.
proof fn lemma_result_entry_scored<M: SampleMap, T: GradientTransform>(
    em: M,
    min_n: usize,
    sea_level: i64,
    t: T,
    elem: (u64, i64),
)
    requires
        flatness_result(em, min_n, sea_level, t).contains(elem),
    ensures
        exists|pe: (u64, i64)|
            #[trigger] em.points_seq().contains(pe) && point_score(em, sea_level, t, pe) == Some(
                elem,
            ),
{
    let inter = stage1_result(em, sea_level, t);
    if min_n > 0 {
        inter.lemma_filter_contains_rev(retained_fn(em, inter, min_n), elem);
    }
    assert(inter.contains(elem));
    let f = point_score_fn(em, sea_level, t);
    em.points_seq().lemma_filter_map_contains(f, elem);
    let pe = choose|pe: (u64, i64)| #[trigger] em.points_seq().contains(pe) && f(pe) == Some(elem);
    assert(point_score(em, sea_level, t, pe) == Some(elem));
}

/// Sea-level exclusion: every point of the pipeline's result is a point of
/// the elevation map whose elevation is at or above sea level.
pub proof fn lemma_sea_level_exclusion<M: SampleMap, T: GradientTransform>(
    em: M,
    min_n: usize,
    sea_level: i64,
    t: T,
    p: u64,
)
    requires
        distinct_points(em.points_seq()),
        has_point(flatness_result(em, min_n, sea_level, t), p),
    ensures
        has_point(em.points_seq(), p),
        elevation_at(em.points_seq(), p) >= sea_level,
{
    let result = flatness_result(em, min_n, sea_level, t);
    let i = choose|i: int| 0 <= i < result.len() && (#[trigger] result[i]).0 == p;
    let elem = result[i];
    assert(result.contains(elem));
    lemma_result_entry_scored(em, min_n, sea_level, t, elem);
    let pe = choose|pe: (u64, i64)|
        #[trigger] em.points_seq().contains(pe) && point_score(em, sea_level, t, pe) == Some(elem);
    assert(pe.0 == p && pe.1 >= sea_level);
    let j = choose|j: int| 0 <= j < em.points_seq().len() && em.points_seq()[j] == pe;
    assert(em.points_seq()[j].0 == p);
    lemma_elevation_at_distinct(em.points_seq(), j, p);
}

/// Score bound: with the example default policy, every score of the
/// pipeline's result lies in `[0, SCALE]`.
pub proof fn lemma_default_score_bound<M: SampleMap>(
    em: M,
    min_n: usize,
    sea_level: i64,
    t: SqrtFlatnessTransform,
    i: int,
)
    requires
        0 <= i < flatness_result(em, min_n, sea_level, t).len(),
    ensures
        0 <= flatness_result(em, min_n, sea_level, t)[i].1 <= SCALE,
{
    let result = flatness_result(em, min_n, sea_level, t);
    let elem = result[i];
    assert(result.contains(elem));
    lemma_result_entry_scored(em, min_n, sea_level, t, elem);
    let pe = choose|pe: (u64, i64)|
        #[trigger] em.points_seq().contains(pe) && point_score(em, sea_level, t, pe) == Some(elem);
    let g = em.gradient_of(pe.0).unwrap();
    assert(t.spec_transform(g) == Some(elem.1));
    lemma_sqrt_transform_bounds(t, g, elem.1);
}

/// Identity filter: with a zero neighbor threshold the pipeline yields
/// exactly the stage-1 (unfiltered) scoring result.
pub proof fn lemma_identity_filter<M: SampleMap, T: GradientTransform>(
    em: M,
    sea_level: i64,
    t: T,
)
    ensures
        flatness_result(em, 0, sea_level, t) == stage1_result(em, sea_level, t),
{
}

/// Monotone thresholding: raising the neighbor threshold never adds a point,
/// so the result's domain shrinks as the threshold grows.
pub proof fn lemma_monotone_threshold<M: SampleMap, T: GradientTransform>(
    em: M,
    n1: usize,
    n2: usize,
    sea_level: i64,
    t: T,
    p: u64,
)
    requires
        n1 <= n2,
        has_point(flatness_result(em, n2, sea_level, t), p),
    ensures
        has_point(flatness_result(em, n1, sea_level, t), p),
{
    let inter = stage1_result(em, sea_level, t);
    let r2 = flatness_result(em, n2, sea_level, t);
    let r1 = flatness_result(em, n1, sea_level, t);
    let i = choose|i: int| 0 <= i < r2.len() && (#[trigger] r2[i]).0 == p;
    let elem = r2[i];
    if n2 == 0 {
        assert(r1 == r2);
        assert(r1[i].0 == p);
    } else {
        inter.lemma_filter_pred(retained_fn(em, inter, n2), i);
        assert(neighbor_count(em, inter, elem.0) >= n2);
        assert(r2.contains(elem));
        inter.lemma_filter_contains_rev(retained_fn(em, inter, n2), elem);
        let j = choose|j: int| 0 <= j < inter.len() && inter[j] == elem;
        if n1 == 0 {
            assert(r1 == inter);
            assert(r1[j].0 == p);
        } else {
            inter.lemma_filter_contains(retained_fn(em, inter, n1), j);
            assert(r1.contains(elem));
            let k = choose|k: int| 0 <= k < r1.len() && r1[k] == elem;
            assert(r1[k].0 == p);
        }
    }
}

proof fn lemma_filter_map_congruence<A, B>(
    s: Seq<A>,
    f: spec_fn(A) -> Option<B>,
    g: spec_fn(A) -> Option<B>,
)
    requires
        forall|i: int| 0 <= i < s.len() ==> f(#[trigger] s[i]) == g(s[i]),
    ensures
        s.filter_map(f) == s.filter_map(g),
    decreases s.len(),
{
    if s.len() > 0 {
        let rest = s.drop_last();
        assert forall|i: int| 0 <= i < rest.len() implies f(#[trigger] rest[i]) == g(rest[i]) by {
            assert(rest[i] == s[i]);
        }
        lemma_filter_map_congruence(rest, f, g);
        assert(f(s.last()) == g(s.last()));
    }
}

proof fn lemma_filter_congruence<A>(s: Seq<A>, f: spec_fn(A) -> bool, g: spec_fn(A) -> bool)
    requires
        forall|i: int| 0 <= i < s.len() ==> f(#[trigger] s[i]) == g(s[i]),
    ensures
        s.filter(f) == s.filter(g),
    decreases s.len(),
{
    reveal(Seq::filter);
    if s.len() > 0 {
        let rest = s.drop_last();
        assert forall|i: int| 0 <= i < rest.len() implies f(#[trigger] rest[i]) == g(rest[i]) by {
            assert(rest[i] == s[i]);
        }
        lemma_filter_congruence(rest, f, g);
        assert(f(s.last()) == g(s.last()));
    }
}

/// Determinism: the pipeline's result depends on nothing but the observable
/// contents of its inputs. Two elevation maps (even of different kinds) that
/// agree on their points, gradients and adjacency, and two policies that
/// agree on every gradient, yield identical results; with the executable
/// pipeline's postcondition this says that repeated calls on identical
/// inputs return identical maps.
pub proof fn lemma_determinism<
    M1: SampleMap,
    M2: SampleMap,
    T1: GradientTransform,
    T2: GradientTransform,
>(em1: M1, em2: M2, min_n: usize, sea_level: i64, t1: T1, t2: T2)
    requires
        em1.points_seq() == em2.points_seq(),
        forall|p: u64| #[trigger] em1.gradient_of(p) == em2.gradient_of(p),
        forall|p: u64| #[trigger] em1.neighbors_of(p) == em2.neighbors_of(p),
        forall|g: i64| #[trigger] t1.spec_transform(g) == t2.spec_transform(g),
    ensures
        flatness_result(em1, min_n, sea_level, t1) == flatness_result(em2, min_n, sea_level, t2),
{
    let pts = em1.points_seq();
    let f1 = point_score_fn(em1, sea_level, t1);
    let f2 = point_score_fn(em2, sea_level, t2);
    assert forall|i: int| 0 <= i < pts.len() implies f1(#[trigger] pts[i]) == f2(pts[i]) by {
        let pe = pts[i];
        assert(em1.gradient_of(pe.0) == em2.gradient_of(pe.0));
        if em1.gradient_of(pe.0) is Some {
            let g = em1.gradient_of(pe.0).unwrap();
            assert(t1.spec_transform(g) == t2.spec_transform(g));
        }
    }
    lemma_filter_map_congruence(pts, f1, f2);
    let inter = stage1_result(em1, sea_level, t1);
    assert(stage1_result(em2, sea_level, t2) == inter);
    if min_n > 0 {
        let k1 = retained_fn(em1, inter, min_n);
        let k2 = retained_fn(em2, inter, min_n);
        assert forall|i: int| 0 <= i < inter.len() implies k1(#[trigger] inter[i]) == k2(
            inter[i],
        ) by {
            let p = inter[i].0;
            assert(em1.neighbors_of(p) == em2.neighbors_of(p));
            assert(neighbor_count(em1, inter, p) == neighbor_count(em2, inter, p));
        }
        lemma_filter_congruence(inter, k1, k2);
    }
}

proof fn lemma_filter_map_all_none<A, B>(s: Seq<A>, f: spec_fn(A) -> Option<B>)
    requires
        forall|i: int| 0 <= i < s.len() ==> f(#[trigger] s[i]) is None,
    ensures
        s.filter_map(f).len() == 0,
    decreases s.len(),
{
    if s.len() > 0 {
        let rest = s.drop_last();
        assert forall|i: int| 0 <= i < rest.len() implies f(#[trigger] rest[i]) is None by {
            assert(rest[i] == s[i]);
        }
        lemma_filter_map_all_none(rest, f);
        assert(f(s.last()) is None);
    }
}

/// Empty-input closure: an elevation map with no point at or above sea level
/// yields an empty flatness map.
pub proof fn lemma_empty_input_closure<M: SampleMap, T: GradientTransform>(
    em: M,
    min_n: usize,
    sea_level: i64,
    t: T,
)
    requires
        forall|i: int|
            0 <= i < em.points_seq().len() ==> (#[trigger] em.points_seq()[i]).1 < sea_level,
    ensures
        flatness_result(em, min_n, sea_level, t).len() == 0,
{
    let pts = em.points_seq();
    let f = point_score_fn(em, sea_level, t);
    assert forall|i: int| 0 <= i < pts.len() implies f(#[trigger] pts[i]) is None by {
        assert(pts[i].1 < sea_level);
    }
    lemma_filter_map_all_none(pts, f);
    let inter = stage1_result(em, sea_level, t);
    if min_n > 0 {
        inter.lemma_filter_len(retained_fn(em, inter, min_n));
    }
}

} // verus!

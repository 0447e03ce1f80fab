//! The injected gradient-to-flatness policy: a pluggable pure function from a
//! gradient magnitude to an optional flatness score.
//!
//! [`SqrtFlatnessTransform`] is the example default policy,
//! `score = sqrt(1 - |gradient| / steepness)`, rejecting gradients too steep
//! for the argument of the square root to be non-negative. All values are
//! fixed-point integers scaled by [`SCALE`].

use vstd::prelude::*;

verus! {

/// Fixed-point scale: an integer `v` stands for the real number `v / SCALE`.
pub const SCALE: i64 = 1_000_000;

/// The gradient-to-flatness policy injected into the pipeline. It is total:
/// it either rejects a gradient (`None`) or returns a score, and never fails.
///
/// The executable `transform` returns exactly what `spec_transform` says, so
/// a policy is a pure function of the gradient: two calls on equal gradients
/// agree.
pub trait GradientTransform: Sized {
    /// The score for a gradient magnitude, or `None` to exclude the point.
    spec fn spec_transform(&self, gradient: i64) -> Option<i64>;

    /// Apply the policy to a gradient magnitude.
    fn transform(&self, gradient: i64) -> (r: Option<i64>)
        ensures
            r == self.spec_transform(gradient),
    ;
}

/// `r` is the floor of the square root of `n`.
pub open spec fn is_sqrt_floor(n: nat, r: nat) -> bool {
    r * r <= n < (r + 1) * (r + 1)
}

/// The floor of the square root of `n`.
pub closed spec fn sqrt_floor(n: nat) -> nat {
    choose|r: nat| #[trigger] is_sqrt_floor(n, r)
}

/// The floor of the square root exists and is unique.
pub proof fn lemma_sqrt_floor(n: nat)
    ensures
        is_sqrt_floor(n, sqrt_floor(n)),
        forall|r: nat| is_sqrt_floor(n, r) ==> r == sqrt_floor(n),
{
    lemma_sqrt_floor_exists(n);
    assert(is_sqrt_floor(n, sqrt_floor(n)));
    assert forall|r: nat| is_sqrt_floor(n, r) implies r == sqrt_floor(n) by {
        lemma_sqrt_floor_unique(n, r, sqrt_floor(n));
    }
}

proof fn lemma_sqrt_floor_exists(n: nat)
    ensures
        exists|r: nat| is_sqrt_floor(n, r),
    decreases n,
{
    if n == 0 {
        assert(0 * 0 <= 0 < (0 + 1) * (0 + 1)) by (nonlinear_arith);
        assert(is_sqrt_floor(0, 0));
    } else {
        lemma_sqrt_floor_exists((n - 1) as nat);
        let p = choose|r: nat| #[trigger] is_sqrt_floor((n - 1) as nat, r);
        if n < (p + 1) * (p + 1) {
            assert(is_sqrt_floor(n, p));
        } else {
            assert(n == (p + 1) * (p + 1));
            assert((p + 1) * (p + 1) < (p + 2) * (p + 2)) by (nonlinear_arith);
            assert(is_sqrt_floor(n, (p + 1) as nat));
        }
    }
}

proof fn lemma_sqrt_floor_unique(n: nat, a: nat, b: nat)
    requires
        is_sqrt_floor(n, a),
        is_sqrt_floor(n, b),
    ensures
        a == b,
{
    assert(a < b + 1 && b < a + 1) by (nonlinear_arith)
        requires
            a * a <= n < (a + 1) * (a + 1),
            b * b <= n < (b + 1) * (b + 1),
    ;
}

/// Floor of the square root, by binary search.
fn isqrt(n: u64) -> (r: u64)
    requires
        n <= 1_000_000_000_000,
    ensures
        r == sqrt_floor(n as nat),
        is_sqrt_floor(n as nat, r as nat),
{
    let mut lo: u64 = 0;
    let mut hi: u64 = 1_000_001;
    proof {
        assert(1_000_001 * 1_000_001 > 1_000_000_000_000) by (nonlinear_arith);
    }
    while lo + 1 < hi
        invariant
            lo < hi <= 1_000_001,
            (lo * lo) as nat <= n as nat,
            (n as nat) < (hi * hi) as nat,
        decreases hi - lo,
    {
        let mid = lo + (hi - lo) / 2;
        proof {
            assert(mid * mid <= 1_000_001 * 1_000_001) by (nonlinear_arith)
                requires
                    0 <= mid <= 1_000_001,
            ;
        }
        if mid * mid <= n {
            lo = mid;
        } else {
            hi = mid;
        }
    }
    proof {
        assert(hi == lo + 1);
        assert(is_sqrt_floor(n as nat, lo as nat));
        lemma_sqrt_floor(n as nat);
    }
    lo
}

/// The example default policy: `score = sqrt(1 - |gradient| / steepness)`,
/// undefined (the point is excluded) when the argument of the square root is
/// negative, and for a non-positive steepness. Monotone non-increasing in the
/// gradient magnitude, with scores in `[0, SCALE]`.
pub struct SqrtFlatnessTransform {
    /// The steepness constant, fixed-point; gradients of magnitude at or
    /// beyond it are rejected.
    pub steepness: i64,
}

/// Magnitude of `g`.
pub open spec fn abs_of(g: int) -> int {
    if g < 0 {
        -g
    } else {
        g
    }
}

impl SqrtFlatnessTransform {
    /// A policy with the given steepness constant.
    pub fn new(steepness: i64) -> (r: Self)
        ensures
            r.steepness == steepness,
    {
        SqrtFlatnessTransform { steepness }
    }
}

impl GradientTransform for SqrtFlatnessTransform {
    open spec fn spec_transform(&self, gradient: i64) -> Option<i64> {
        if self.steepness <= 0 {
            None
        } else {
            let ratio = abs_of(gradient as int) * SCALE / (self.steepness as int);
            if ratio > SCALE {
                None
            } else {
                Some(sqrt_floor(((SCALE - ratio) * SCALE) as nat) as i64)
            }
        }
    }

    fn transform(&self, gradient: i64) -> (r: Option<i64>) {
        if self.steepness <= 0 {
            return None;
        }
        let a: i128 = if gradient < 0 {
            -(gradient as i128)
        } else {
            gradient as i128
        };
        proof {
            assert(0 <= a <= 9_223_372_036_854_775_808);
            assert(0 <= a * (SCALE as i128) <= 9_223_372_036_854_775_808 * 1_000_000)
                by (nonlinear_arith)
                requires
                    0 <= a <= 9_223_372_036_854_775_808,
            ;
        }
        let ratio: i128 = a * (SCALE as i128) / (self.steepness as i128);
        if ratio > SCALE as i128 {
            return None;
        }
        let arg: u64 = ((SCALE as i128 - ratio) * (SCALE as i128)) as u64;
        proof {
            let ratio_i = abs_of(gradient as int) * SCALE / (self.steepness as int);
            assert(ratio == ratio_i);
            assert(0 <= ratio_i) by (nonlinear_arith)
                requires
                    ratio_i == abs_of(gradient as int) * SCALE / (self.steepness as int),
                    abs_of(gradient as int) >= 0,
                    self.steepness as int > 0,
            ;
            assert(arg == (SCALE - ratio_i) * SCALE);
            assert(arg <= 1_000_000_000_000) by (nonlinear_arith)
                requires
                    arg == (SCALE - ratio_i) * SCALE,
                    0 <= ratio_i <= SCALE,
                    SCALE == 1_000_000,
            ;
        }
        let s = isqrt(arg);
        proof {
            lemma_sqrt_floor(arg as nat);
            assert(sqrt_floor(arg as nat) * sqrt_floor(arg as nat) <= 1_000_000_000_000);
            assert(sqrt_floor(arg as nat) <= 1_000_000) by (nonlinear_arith)
                requires
                    sqrt_floor(arg as nat) * sqrt_floor(arg as nat) <= 1_000_000_000_000,
            ;
        }
        Some(s as i64)
    }
}

/// Scores of the example default policy lie in `[0, SCALE]`.
pub proof fn lemma_sqrt_transform_bounds(t: SqrtFlatnessTransform, gradient: i64, s: i64)
    ensures
        t.spec_transform(gradient) == Some(s) ==> 0 <= s <= SCALE,
{
    if t.spec_transform(gradient) == Some(s) {
        let ratio = abs_of(gradient as int) * SCALE / (t.steepness as int);
        assert(0 <= ratio) by (nonlinear_arith)
            requires
                ratio == abs_of(gradient as int) * SCALE / (t.steepness as int),
                abs_of(gradient as int) >= 0,
                t.steepness as int > 0,
        ;
        let arg = ((SCALE - ratio) * SCALE) as nat;
        lemma_sqrt_floor(arg);
        assert(arg <= 1_000_000_000_000) by (nonlinear_arith)
            requires
                arg == (SCALE - ratio) * SCALE,
                0 <= ratio <= SCALE,
                SCALE == 1_000_000,
        ;
        assert(sqrt_floor(arg) <= 1_000_000) by (nonlinear_arith)
            requires
                sqrt_floor(arg) * sqrt_floor(arg) <= 1_000_000_000_000,
        ;
    }
}

proof fn lemma_sqrt_floor_monotone(n1: nat, n2: nat)
    requires
        n1 <= n2,
    ensures
        sqrt_floor(n1) <= sqrt_floor(n2),
{
    lemma_sqrt_floor(n1);
    lemma_sqrt_floor(n2);
    let a = sqrt_floor(n1);
    let b = sqrt_floor(n2);
    if a > b {
        assert(false) by (nonlinear_arith)
            requires
                a * a <= n1,
                n2 < (b + 1) * (b + 1),
                n1 <= n2,
                a >= b + 1,
        ;
    }
}

/// The example default policy is monotone non-increasing in the gradient
/// magnitude: a gentler gradient is never rejected when a steeper one is
/// accepted, and its score is at least as high.
pub proof fn lemma_sqrt_transform_monotone(t: SqrtFlatnessTransform, g1: i64, g2: i64, s2: i64)
    requires
        abs_of(g1 as int) <= abs_of(g2 as int),
        t.spec_transform(g2) == Some(s2),
    ensures
        t.spec_transform(g1) is Some,
        s2 <= t.spec_transform(g1).unwrap(),
{
    let k = t.steepness as int;
    let a1 = abs_of(g1 as int);
    let a2 = abs_of(g2 as int);
    let r1 = a1 * SCALE / k;
    let r2 = a2 * SCALE / k;
    assert(0 <= a1 * SCALE <= a2 * SCALE) by (nonlinear_arith)
        requires
            0 <= a1 <= a2,
    ;
    vstd::arithmetic::div_mod::lemma_div_is_ordered(a1 * SCALE, a2 * SCALE, k);
    vstd::arithmetic::div_mod::lemma_div_is_ordered(0, a1 * SCALE, k);
    assert(0 <= r1 <= r2 <= SCALE);
    let arg1 = ((SCALE - r1) * SCALE) as nat;
    let arg2 = ((SCALE - r2) * SCALE) as nat;
    assert((SCALE - r2) * SCALE <= (SCALE - r1) * SCALE) by (nonlinear_arith)
        requires
            0 <= r1 <= r2 <= SCALE,
            SCALE == 1_000_000,
    ;
    assert(0 <= (SCALE - r2) * SCALE) by (nonlinear_arith)
        requires
            0 <= r2 <= SCALE,
            SCALE == 1_000_000,
    ;
    lemma_sqrt_floor_monotone(arg2, arg1);
    assert((SCALE - r1) * SCALE <= 1_000_000_000_000) by (nonlinear_arith)
        requires
            0 <= r1 <= SCALE,
            SCALE == 1_000_000,
    ;
    lemma_sqrt_floor(arg1);
    assert(sqrt_floor(arg1) <= 1_000_000) by (nonlinear_arith)
        requires
            sqrt_floor(arg1) * sqrt_floor(arg1) <= 1_000_000_000_000,
    ;
}

/// A policy given by an explicit table: the score for a gradient is the value
/// of the first table entry whose gradient matches, and gradients absent from
/// the table are rejected.
pub struct TableTransform {
    entries: Vec<(i64, i64)>,
}

/// First value in `entries` keyed by `gradient`, if any.
pub open spec fn table_lookup(entries: Seq<(i64, i64)>, gradient: i64) -> Option<i64>
    decreases entries.len(),
{
    if entries.len() == 0 {
        None
    } else if entries.first().0 == gradient {
        Some(entries.first().1)
    } else {
        table_lookup(entries.drop_first(), gradient)
    }
}

impl TableTransform {
    /// The table's (gradient, score) entries.
    pub closed spec fn spec_entries(&self) -> Seq<(i64, i64)> {
        self.entries@
    }

    /// A policy from (gradient, score) entries.
    pub fn new(entries: Vec<(i64, i64)>) -> (r: Self)
        ensures
            r.spec_entries() == entries@,
    {
        TableTransform { entries }
    }
}

impl GradientTransform for TableTransform {
    open spec fn spec_transform(&self, gradient: i64) -> Option<i64> {
        table_lookup(self.spec_entries(), gradient)
    }

    fn transform(&self, gradient: i64) -> (r: Option<i64>) {
        let n = self.entries.len();
        let mut i: usize = 0;
        proof {
            assert(self.spec_entries().skip(0) =~= self.spec_entries());
        }
        while i < n
            invariant
                n == self.spec_entries().len(),
                i <= n,
                table_lookup(self.spec_entries(), gradient) == table_lookup(
                    self.spec_entries().skip(i as int),
                    gradient,
                ),
            decreases n - i,
        {
            proof {
                let rest = self.spec_entries().skip(i as int);
                assert(rest.first() == self.spec_entries()[i as int]);
                assert(rest.drop_first() =~= self.spec_entries().skip(i + 1));
            }
            if self.entries[i].0 == gradient {
                return Some(self.entries[i].1);
            }
            i = i + 1;
        }
        proof {
            assert(self.spec_entries().skip(n as int) =~= Seq::<(i64, i64)>::empty());
        }
        None
    }
}

} // verus!

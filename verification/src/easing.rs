use vstd::prelude::*;

verus! {

/// Progress values run from `0` to `EASE_ONE` (micro-units of normalized
/// progress), so `EASE_ONE` stands for a progress of one.
pub const EASE_ONE: u32 = 1000000;

/// A monotonic progress-remapping function applied during interpolation.
///
/// Each easing is pure and deterministic, maps `0` to `0` and `EASE_ONE`
/// to `EASE_ONE`, and is monotonic over the whole progress range
/// (`lemma_ease_endpoints`, `lemma_ease_monotonic`).
#[derive(Clone, Copy, Debug, PartialEq, Eq, Structural)]
pub enum Easing {
    Linear,
    EaseInOutQuad,
    EaseOutCubic,
}

/// What an easing returns on a progress value `p` in `[0, EASE_ONE]`.
pub open spec fn ease_spec(e: Easing, p: int) -> int {
    match e {
        Easing::Linear => p,
        Easing::EaseInOutQuad => if p < 500000 {
            (2 * p * p) / 1000000
        } else {
            1000000 - (2 * (1000000 - p) * (2 * (1000000 - p))) / 2000000
        },
        Easing::EaseOutCubic => 1000000 - ((1000000 - p) * (1000000 - p) * (1000000 - p))
            / 1000000000000,
    }
}

impl Easing {
    /// Remap a progress value through this easing.
    pub fn apply(self, p: u32) -> (r: u32)
        requires
            p <= EASE_ONE,
        ensures
            r == ease_spec(self, p as int),
            r <= EASE_ONE,
    {
        match self {
            Easing::Linear => p,
            Easing::EaseInOutQuad => {
                if p < 500000 {
                    proof {
                        assert(0 <= 2 * (p as int) * (p as int) <= 500000000000
                            && 2 * (p as int) * (p as int) / 1000000 <= 500000) by (nonlinear_arith)
                            requires p < 500000;
                    }
                    let q: u64 = 2 * (p as u64) * (p as u64) / 1000000;
                    q as u32
                } else {
                    let d: u64 = (EASE_ONE - p) as u64;
                    proof {
                        assert(0 <= 2 * (d as int) * (2 * (d as int)) <= 1000000000000
                            && 2 * (d as int) * (2 * (d as int)) / 2000000 <= 500000)
                            by (nonlinear_arith)
                            requires d <= 500000;
                    }
                    let q: u64 = 2 * d * (2 * d) / 2000000;
                    (1000000 - q) as u32
                }
            },
            Easing::EaseOutCubic => {
                let d: u64 = (EASE_ONE - p) as u64;
                proof {
                    assert(0 <= (d as int) * (d as int) <= 1000000000000
                        && 0 <= (d as int) * (d as int) * (d as int) <= 1000000000000000000
                        && (d as int) * (d as int) * (d as int) / 1000000000000 <= 1000000)
                        by (nonlinear_arith)
                        requires d <= 1000000;
                }
                let c: u64 = d * d * d / 1000000000000;
                (1000000 - c) as u32
            },
        }
    }
}

/// Every easing maps a progress of zero to zero and a progress of one to
/// one, exactly.
pub proof fn lemma_ease_endpoints(e: Easing)
    ensures
        ease_spec(e, 0) == 0,
        ease_spec(e, EASE_ONE as int) == EASE_ONE,
{
}

/// An eased progress stays within the normalized progress range.
pub proof fn lemma_ease_bounds(e: Easing, p: int)
    requires
        0 <= p <= EASE_ONE,
    ensures
        0 <= ease_spec(e, p) <= EASE_ONE,
{
    match e {
        Easing::Linear => {},
        Easing::EaseInOutQuad => {
            if p < 500000 {
                assert(0 <= (2 * p * p) / 1000000 <= 500000) by (nonlinear_arith)
                    requires 0 <= p < 500000;
            } else {
                let d = 1000000 - p;
                assert(0 <= (2 * d * (2 * d)) / 2000000 <= 500000) by (nonlinear_arith)
                    requires 0 <= d <= 500000;
            }
        },
        Easing::EaseOutCubic => {
            let d = 1000000 - p;
            assert(0 <= (d * d * d) / 1000000000000 <= 1000000) by (nonlinear_arith)
                requires 0 <= d <= 1000000;
        },
    }
}

/// Every easing is monotonic over the progress range: a later progress
/// never eases to an earlier value.
pub proof fn lemma_ease_monotonic(e: Easing, p1: int, p2: int)
    requires
        0 <= p1 <= p2 <= EASE_ONE,
    ensures
        ease_spec(e, p1) <= ease_spec(e, p2),
{
    match e {
        Easing::Linear => {},
        Easing::EaseInOutQuad => {
            if p2 < 500000 {
                assert((2 * p1 * p1) / 1000000 <= (2 * p2 * p2) / 1000000) by (nonlinear_arith)
                    requires 0 <= p1 <= p2 < 500000;
            } else if p1 >= 500000 {
                let d1 = 1000000 - p1;
                let d2 = 1000000 - p2;
                assert((2 * d2 * (2 * d2)) / 2000000 <= (2 * d1 * (2 * d1)) / 2000000)
                    by (nonlinear_arith)
                    requires 0 <= d2 <= d1 <= 500000;
            } else {
                let d2 = 1000000 - p2;
                assert((2 * p1 * p1) / 1000000 <= 500000) by (nonlinear_arith)
                    requires 0 <= p1 < 500000;
                assert((2 * d2 * (2 * d2)) / 2000000 <= 500000) by (nonlinear_arith)
                    requires 0 <= d2 <= 500000;
            }
        },
        Easing::EaseOutCubic => {
            let d1 = 1000000 - p1;
            let d2 = 1000000 - p2;
            assert((d2 * d2 * d2) / 1000000000000 <= (d1 * d1 * d1) / 1000000000000)
                by (nonlinear_arith)
                requires 0 <= d2 <= d1 <= 1000000;
        },
    }
}

} // verus!

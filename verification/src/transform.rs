use vstd::prelude::*;
use crate::easing::EASE_ONE;

verus! {

/// One unit of a fixed-point animatable value: positions, scales,
/// rotations and opacities are stored in thousandths of a unit.
pub const UNIT: i32 = 1000;

/// A two-component vector in fixed-point thousandths of a unit.
#[derive(Clone, Copy, Debug, PartialEq, Eq, Structural)]
pub struct Vec2 {
    pub x: i32,
    pub y: i32,
}

/// An RGBA color with eight bits per channel.
#[derive(Clone, Copy, Debug, PartialEq, Eq, Structural)]
pub struct Color {
    pub r: u8,
    pub g: u8,
    pub b: u8,
    pub a: u8,
}

impl Color {
    /// A fully opaque color from its three channels.
    pub fn rgb(r: u8, g: u8, b: u8) -> (c: Self)
        ensures
            c == (Color { r, g, b, a: 255u8 }),
    {
        Color { r, g, b, a: 255 }
    }

    /// A color from all four channels.
    pub fn rgba(r: u8, g: u8, b: u8, a: u8) -> (c: Self)
        ensures
            c == (Color { r, g, b, a }),
    {
        Color { r, g, b, a }
    }
}

/// A resolved placement: position, per-axis scale, rotation and opacity.
///
/// Scale and opacity of `UNIT` mean one; rotation is in thousandths of a
/// degree.
#[derive(Clone, Copy, Debug, PartialEq, Eq, Structural)]
pub struct Transform {
    pub pos: Vec2,
    pub scale: Vec2,
    pub rotation: i32,
    pub opacity: i32,
}

impl Default for Transform {
    /// The identity placement: origin position, unit scale, no rotation,
    /// full opacity.
    fn default() -> (t: Self)
        ensures
            t == (Transform {
                pos: Vec2 { x: 0i32, y: 0i32 },
                scale: Vec2 { x: UNIT, y: UNIT },
                rotation: 0i32,
                opacity: UNIT,
            }),
    {
        Transform {
            pos: Vec2 { x: 0, y: 0 },
            scale: Vec2 { x: UNIT, y: UNIT },
            rotation: 0,
            opacity: UNIT,
        }
    }
}

/// The capability a value needs to sit on an animation track: linear
/// interpolation towards another value by an eased progress in
/// `[0, EASE_ONE]`.
pub trait Lerp: Sized + Copy {
    /// What interpolating from `a` to `b` by progress `p` yields.
    spec fn lerp_spec(a: Self, b: Self, p: int) -> Self;

    /// Interpolate from `a` to `b` by progress `p`.
    fn lerp(a: Self, b: Self, p: u32) -> (r: Self)
        requires
            p <= EASE_ONE,
        ensures
            r == Self::lerp_spec(a, b, p as int),
    ;
}

impl Lerp for i32 {
    open spec fn lerp_spec(a: i32, b: i32, p: int) -> i32 {
        if b >= a {
            (a + (b - a) * p / 1000000) as i32
        } else {
            (a - (a - b) * p / 1000000) as i32
        }
    }

    fn lerp(a: i32, b: i32, p: u32) -> (r: i32) {
        if b >= a {
            let d: u64 = (b as i64 - a as i64) as u64;
            proof {
                assert(0 <= (d as int) * (p as int) <= 0xffffffffu64 * 1000000
                    && (d as int) * (p as int) / 1000000 <= d) by (nonlinear_arith)
                    requires p <= 1000000, d <= 0xffffffffu64;
            }
            let step: u64 = d * (p as u64) / 1000000;
            (a as i64 + step as i64) as i32
        } else {
            let d: u64 = (a as i64 - b as i64) as u64;
            proof {
                assert(0 <= (d as int) * (p as int) <= 0xffffffffu64 * 1000000
                    && (d as int) * (p as int) / 1000000 <= d) by (nonlinear_arith)
                    requires p <= 1000000, d <= 0xffffffffu64;
            }
            let step: u64 = d * (p as u64) / 1000000;
            (a as i64 - step as i64) as i32
        }
    }
}

impl Lerp for Vec2 {
    open spec fn lerp_spec(a: Vec2, b: Vec2, p: int) -> Vec2 {
        Vec2 { x: <i32 as Lerp>::lerp_spec(a.x, b.x, p), y: <i32 as Lerp>::lerp_spec(a.y, b.y, p) }
    }

    fn lerp(a: Vec2, b: Vec2, p: u32) -> (r: Vec2) {
        Vec2 { x: <i32 as Lerp>::lerp(a.x, b.x, p), y: <i32 as Lerp>::lerp(a.y, b.y, p) }
    }
}

/// Interpolation never leaves the closed interval spanned by its two
/// endpoints, and progress `0` and `EASE_ONE` reproduce them exactly.
pub proof fn lemma_lerp_i32_range(a: i32, b: i32, p: int)
    requires
        0 <= p <= EASE_ONE,
    ensures
        b >= a ==> a <= <i32 as Lerp>::lerp_spec(a, b, p) <= b,
        b < a ==> b <= <i32 as Lerp>::lerp_spec(a, b, p) <= a,
        <i32 as Lerp>::lerp_spec(a, b, 0) == a,
        <i32 as Lerp>::lerp_spec(a, b, EASE_ONE as int) == b,
{
    if b >= a {
        let d = b - a;
        assert(0 <= d * p / 1000000 <= d && d * 0 / 1000000 == 0 && d * 1000000 / 1000000 == d)
            by (nonlinear_arith)
            requires 0 <= p <= 1000000, d >= 0;
    } else {
        let d = a - b;
        assert(0 <= d * p / 1000000 <= d && d * 0 / 1000000 == 0 && d * 1000000 / 1000000 == d)
            by (nonlinear_arith)
            requires 0 <= p <= 1000000, d >= 0;
    }
}

} // verus!

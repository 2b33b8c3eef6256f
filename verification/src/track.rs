use vstd::prelude::*;
use crate::easing::{ease_spec, Easing, EASE_ONE};
use crate::error::EngineError;
use crate::transform::{Lerp, Transform, Vec2, UNIT};

verus! {

/// One sparse sample of an animatable property: a time in milliseconds, a
/// value, and the easing applied when interpolating *towards* this
/// keyframe.
#[derive(Clone, Copy, Debug)]
pub struct Keyframe<T> {
    pub time: u32,
    pub value: T,
    pub easing: Easing,
}

impl<T> Keyframe<T> {
    pub fn new(time: u32, value: T, easing: Easing) -> (k: Self)
        ensures
            k.time == time && k.value == value && k.easing == easing,
    {
        Keyframe { time, value, easing }
    }
}

/// Keyframe times grow strictly from one keyframe to the next.
pub open spec fn strictly_increasing<T>(keys: Seq<Keyframe<T>>) -> bool {
    forall|i: int, j: int| 0 <= i < j < keys.len() ==> keys[i].time < keys[j].time
}

/// Keyframe times never decrease from one keyframe to the next.
pub open spec fn nondecreasing<T>(keys: Seq<Keyframe<T>>) -> bool {
    forall|i: int, j: int| 0 <= i < j < keys.len() ==> keys[i].time <= keys[j].time
}

/// Normalized progress of `t` through the half-open span `[t0, t1)`, in
/// micro-units.
pub open spec fn span_progress(t0: u32, t1: u32, t: u32) -> int {
    (t - t0) * (EASE_ONE as int) / (t1 - t0)
}

/// The interpolated value inside the span from `k0` to `k1`: the span
/// progress is remapped by `k1`'s easing and then drives a linear
/// interpolation between the two keyframe values.
pub open spec fn span_value<T: Lerp>(k0: Keyframe<T>, k1: Keyframe<T>, t: u32) -> T {
    T::lerp_spec(k0.value, k1.value, ease_spec(k1.easing, span_progress(k0.time, k1.time, t)))
}

/// What a keyframe sequence evaluates to at time `t`.
///
/// Before the first keyframe the first value holds and after the last
/// keyframe the last value holds (clamping, no extrapolation); between a
/// bracketing pair the value is interpolated. Where two keyframes share a
/// time, evaluation at that time snaps to the later value and no span is
/// ever entered, so no division by zero can arise.
pub open spec fn eval_keys<T: Lerp>(keys: Seq<Keyframe<T>>, t: u32) -> T
    decreases keys.len(),
{
    if keys.len() <= 1 {
        keys[0].value
    } else if t < keys[1].time {
        if t <= keys[0].time {
            keys[0].value
        } else {
            span_value(keys[0], keys[1], t)
        }
    } else {
        eval_keys(keys.drop_first(), t)
    }
}

proof fn lemma_drop_first_nondecreasing<T>(keys: Seq<Keyframe<T>>)
    requires
        keys.len() >= 1,
        nondecreasing(keys),
    ensures
        nondecreasing(keys.drop_first()),
{
    assert forall|i: int, j: int|
        0 <= i < j < keys.drop_first().len() implies keys.drop_first()[i].time
        <= keys.drop_first()[j].time by {
        assert(keys.drop_first()[i] == keys[i + 1]);
        assert(keys.drop_first()[j] == keys[j + 1]);
    }
}

/// A time at or before the first keyframe of a strictly increasing
/// sequence evaluates to the first value.
pub proof fn lemma_eval_before_first<T: Lerp>(keys: Seq<Keyframe<T>>, t: u32)
    requires
        keys.len() >= 1,
        strictly_increasing(keys),
        t <= keys[0].time,
    ensures
        eval_keys(keys, t) == keys[0].value,
{
}

/// A time at or after the last keyframe evaluates to the last value,
/// even where earlier keyframes share times.
pub proof fn lemma_eval_from_last<T: Lerp>(keys: Seq<Keyframe<T>>, t: u32)
    requires
        keys.len() >= 1,
        nondecreasing(keys),
        t >= keys[keys.len() - 1].time,
    ensures
        eval_keys(keys, t) == keys[keys.len() - 1].value,
    decreases keys.len(),
{
    if keys.len() > 1 {
        lemma_drop_first_nondecreasing(keys);
        lemma_eval_from_last(keys.drop_first(), t);
    }
}

/// Between the bracketing pair `(keys[i], keys[i+1])` — the last keyframe
/// index whose time is at or before `t` — evaluation interpolates inside
/// that span, or returns `keys[i]`'s value exactly at its time.
pub proof fn lemma_eval_bracket<T: Lerp>(keys: Seq<Keyframe<T>>, t: u32, i: int)
    requires
        nondecreasing(keys),
        0 <= i < keys.len() - 1,
        keys[i].time <= t < keys[i + 1].time,
    ensures
        eval_keys(keys, t) == if t == keys[i].time {
            keys[i].value
        } else {
            span_value(keys[i], keys[i + 1], t)
        },
    decreases i,
{
    if i == 0 {
    } else {
        assert(keys[1].time <= keys[i].time);
        lemma_drop_first_nondecreasing(keys);
        lemma_eval_bracket(keys.drop_first(), t, i - 1);
        assert(keys.drop_first()[i - 1] == keys[i]);
        assert(keys.drop_first()[i] == keys[i + 1]);
    }
}

/// A single-keyframe sequence evaluates to that constant value at every
/// time, including both endpoints of any surrounding range.
pub proof fn lemma_single_keyframe_constant<T: Lerp>(keys: Seq<Keyframe<T>>, t: u32)
    requires
        keys.len() == 1,
    ensures
        eval_keys(keys, t) == keys[0].value,
{
}

/// A track with two or more strictly increasing keyframes evaluates to
/// the first value exactly at the first time and to the last value
/// exactly at the last time; outside that range it clamps rather than
/// extrapolates.
pub proof fn lemma_eval_endpoints_clamp<T: Lerp>(keys: Seq<Keyframe<T>>, t: u32)
    requires
        keys.len() >= 1,
        strictly_increasing(keys),
    ensures
        eval_keys(keys, keys[0].time) == keys[0].value,
        eval_keys(keys, keys[keys.len() - 1].time) == keys[keys.len() - 1].value,
        t <= keys[0].time ==> eval_keys(keys, t) == keys[0].value,
        t >= keys[keys.len() - 1].time ==> eval_keys(keys, t) == keys[keys.len() - 1].value,
{
    lemma_eval_before_first(keys, keys[0].time);
    lemma_eval_from_last(keys, keys[keys.len() - 1].time);
    if t <= keys[0].time {
        lemma_eval_before_first(keys, t);
    }
    if t >= keys[keys.len() - 1].time {
        lemma_eval_from_last(keys, t);
    }
}

/// Where two keyframes share one time, evaluation never divides by zero:
/// at that shared time it snaps to the later keyframe's value.
pub proof fn lemma_equal_time_snap<T: Lerp>(keys: Seq<Keyframe<T>>, t: u32)
    requires
        keys.len() == 2,
        keys[0].time == keys[1].time,
    ensures
        eval_keys(keys, t) == if t >= keys[0].time {
            keys[1].value
        } else {
            keys[0].value
        },
{
    assert(keys.drop_first()[0] == keys[1]);
    if t >= keys[0].time {
        assert(eval_keys(keys, t) == eval_keys(keys.drop_first(), t));
        assert(eval_keys(keys.drop_first(), t) == keys.drop_first()[0].value);
    }
}

/// Evaluate a raw keyframe sequence at time `t`.
///
/// The sequence only needs nondecreasing times: adjacent keyframes may
/// share a time, in which case evaluation at that time yields the later
/// value and no interpolation (hence no division) happens.
pub fn evaluate_keyframes<T: Lerp>(keys: &Vec<Keyframe<T>>, t: u32) -> (r: T)
    requires
        keys@.len() >= 1,
        nondecreasing(keys@),
    ensures
        r == eval_keys(keys@, t),
{
    let n: usize = keys.len();
    if t <= keys[0].time {
        if n == 1 || t < keys[1].time {
            return keys[0].value;
        }
    }
    let mut i: usize = 0;
    while i + 1 < n && keys[i + 1].time <= t
        invariant
            n == keys@.len() >= 1,
            nondecreasing(keys@),
            0 <= i < n,
            keys@[i as int].time <= t,
        decreases n - i,
    {
        i = i + 1;
    }
    if i + 1 == n {
        proof {
            lemma_eval_from_last(keys@, t);
        }
        return keys[n - 1].value;
    }
    // keys[i].time <= t < keys[i + 1].time
    if keys[i].time == t {
        proof {
            lemma_eval_bracket(keys@, t, i as int);
        }
        return keys[i].value;
    }
    let t0: u32 = keys[i].time;
    let t1: u32 = keys[i + 1].time;
    proof {
        assert(0 <= ((t - t0) as int) * 1000000 <= 0xffffffffu64 * 1000000
            && ((t - t0) as int) * 1000000 / ((t1 - t0) as int) < 1000000) by (nonlinear_arith)
            requires t0 < t < t1, t1 <= 0xffffffffu64 + t0;
    }
    let num: u64 = ((t - t0) as u64) * 1000000;
    let den: u64 = (t1 - t0) as u64;
    let p: u32 = (num / den) as u32;
    let ep: u32 = keys[i + 1].easing.apply(p);
    let r: T = T::lerp(keys[i].value, keys[i + 1].value, ep);
    proof {
        lemma_eval_bracket(keys@, t, i as int);
    }
    r
}

/// A sparse, time-ordered keyframe sequence for one animatable property.
///
/// A track always holds at least one keyframe, and its keyframe times are
/// strictly increasing; both are enforced at construction.
#[derive(Debug)]
pub struct Track<T> {
    keys: Vec<Keyframe<T>>,
}

impl<T> View for Track<T> {
    type V = Seq<Keyframe<T>>;

    closed spec fn view(&self) -> Seq<Keyframe<T>> {
        self.keys@
    }
}

impl<T> Track<T> {
    #[verifier::type_invariant]
    spec fn type_inv(self) -> bool {
        self.keys@.len() >= 1 && strictly_increasing(self.keys@)
    }
}

impl<T: Lerp> Track<T> {
    /// Build a track from a keyframe list; the list must be non-empty and
    /// strictly increasing in time.
    pub fn new(keys: Vec<Keyframe<T>>) -> (r: Result<Track<T>, EngineError>)
        ensures
            keys@.len() == 0 ==> r == Err::<Track<T>, EngineError>(EngineError::EmptyTrack),
            keys@.len() >= 1 && !strictly_increasing(keys@) ==> r == Err::<Track<T>, EngineError>(
                EngineError::NonMonotonicTrack,
            ),
            keys@.len() >= 1 && strictly_increasing(keys@) ==> r is Ok && r.unwrap()@ == keys@,
    {
        if keys.len() == 0 {
            return Err(EngineError::EmptyTrack);
        }
        let mut i: usize = 1;
        while i < keys.len()
            invariant
                1 <= i <= keys@.len(),
                forall|a: int, b: int| 0 <= a < b < i ==> keys@[a].time < keys@[b].time,
            decreases keys@.len() - i,
        {
            if keys[i - 1].time >= keys[i].time {
                assert(!strictly_increasing(keys@));
                return Err(EngineError::NonMonotonicTrack);
            }
            assert forall|a: int, b: int|
                0 <= a < b < i + 1 implies keys@[a].time < keys@[b].time by {
                if b == i {
                    assert(keys@[a].time <= keys@[i - 1].time);
                }
            }
            i = i + 1;
        }
        Ok(Track { keys })
    }

    /// A track holding one keyframe, which evaluates to `value` at every
    /// time.
    pub fn from_constant(value: T) -> (tr: Track<T>)
        ensures
            tr@.len() == 1,
            tr@[0].time == 0,
            tr@[0].value == value,
            tr@[0].easing == Easing::Linear,
    {
        let mut keys: Vec<Keyframe<T>> = Vec::new();
        keys.push(Keyframe { time: 0, value, easing: Easing::Linear });
        Track { keys }
    }

    /// The keyframes of this track, in time order. Every track one can
    /// hold is well formed: non-empty, with strictly increasing times.
    pub fn keyframes(&self) -> (r: &Vec<Keyframe<T>>)
        ensures
            r@ == self@,
            self@.len() >= 1,
            strictly_increasing(self@),
    {
        proof {
            use_type_invariant(self);
        }
        &self.keys
    }

    /// Evaluate this track at time `t` (milliseconds), clamping outside
    /// the keyframe range.
    pub fn evaluate(&self, t: u32) -> (r: T)
        ensures
            r == eval_keys(self@, t),
    {
        proof {
            use_type_invariant(self);
        }
        evaluate_keyframes(&self.keys, t)
    }
}

/// Four independent keyframe tracks bundled per object: each property
/// keeps its own keyframe density and easing.
#[derive(Debug)]
pub struct AnimatedTransform {
    pub position: Track<Vec2>,
    pub scale: Track<Vec2>,
    pub rotation: Track<i32>,
    pub opacity: Track<i32>,
}

/// The resolved placement of an animated transform at time `t`: each of
/// the four tracks is evaluated independently.
pub open spec fn transform_at(at: AnimatedTransform, t: u32) -> Transform {
    Transform {
        pos: eval_keys(at.position@, t),
        scale: eval_keys(at.scale@, t),
        rotation: eval_keys(at.rotation@, t),
        opacity: eval_keys(at.opacity@, t),
    }
}

impl AnimatedTransform {
    /// A static placement: every track holds the one matching component
    /// of `t`, so evaluation yields `t` at every time.
    pub fn constant(t: Transform) -> (r: Self)
        ensures
            forall|tm: u32| transform_at(r, tm) == t,
    {
        let r = AnimatedTransform {
            position: Track::from_constant(t.pos),
            scale: Track::from_constant(t.scale),
            rotation: Track::from_constant(t.rotation),
            opacity: Track::from_constant(t.opacity),
        };
        proof {
            assert forall|tm: u32| transform_at(r, tm) == t by {
                lemma_single_keyframe_constant(r.position@, tm);
                lemma_single_keyframe_constant(r.scale@, tm);
                lemma_single_keyframe_constant(r.rotation@, tm);
                lemma_single_keyframe_constant(r.opacity@, tm);
            }
        }
        r
    }

    /// Evaluate all four tracks at time `t` (milliseconds).
    pub fn evaluate(&self, t: u32) -> (r: Transform)
        ensures
            r == transform_at(*self, t),
    {
        Transform {
            pos: self.position.evaluate(t),
            scale: self.scale.evaluate(t),
            rotation: self.rotation.evaluate(t),
            opacity: self.opacity.evaluate(t),
        }
    }
}

impl Default for AnimatedTransform {
    /// The constant identity placement.
    fn default() -> (r: Self)
        ensures
            forall|tm: u32|
                transform_at(r, tm) == (Transform {
                    pos: Vec2 { x: 0i32, y: 0i32 },
                    scale: Vec2 { x: UNIT, y: UNIT },
                    rotation: 0i32,
                    opacity: UNIT,
                }),
    {
        AnimatedTransform::constant(Transform::default())
    }
}

} // verus!

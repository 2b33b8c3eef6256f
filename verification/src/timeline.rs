use vstd::prelude::*;
use crate::clip::{clip_active, Clip};
use crate::error::EngineError;
use crate::layer::Layer;
use crate::scene::{obj_eq, Object};
use crate::track::transform_at;
use crate::transform::Transform;

verus! {

// ---------------------------------------------------------------------
// Layer draw order: a stable sort by (effective priority, declaration
// index).
// ---------------------------------------------------------------------

/// The effective stacking priority of layer `i`: its explicit override
/// if set, else its declaration index.
pub open spec fn eff_z(layers: Seq<Layer>, i: int) -> int {
    match layers[i].z_override {
        Some(z) => z as int,
        None => i,
    }
}

/// Layer `a` draws before layer `b`: lower effective priority first,
/// ties resolved by declaration index, so the order is stable.
pub open spec fn layer_before(layers: Seq<Layer>, a: int, b: int) -> bool {
    eff_z(layers, a) < eff_z(layers, b) || (eff_z(layers, a) == eff_z(layers, b) && a < b)
}

/// Inserting index `x` into an already ordered index sequence, keeping
/// the draw order.
pub open spec fn insert_ordered(layers: Seq<Layer>, ord: Seq<int>, x: int) -> Seq<int>
    decreases ord.len(),
{
    if ord.len() == 0 {
        seq![x]
    } else if layer_before(layers, x, ord[0]) {
        seq![x] + ord
    } else {
        seq![ord[0]] + insert_ordered(layers, ord.drop_first(), x)
    }
}

/// The draw order of the first `n` layers, built by inserting each
/// declaration index in turn.
pub open spec fn layer_order_upto(layers: Seq<Layer>, n: int) -> Seq<int>
    decreases n,
{
    if n <= 0 {
        Seq::empty()
    } else {
        insert_ordered(layers, layer_order_upto(layers, n - 1), n - 1)
    }
}

/// The draw order of all layers: the unique permutation of declaration
/// indices sorted by (effective priority, declaration index).
pub open spec fn layer_order(layers: Seq<Layer>) -> Seq<int> {
    layer_order_upto(layers, layers.len() as int)
}

/// The draw order is a strict total order on distinct indices.
pub proof fn lemma_layer_before_total(layers: Seq<Layer>, a: int, b: int)
    requires
        a != b,
    ensures
        layer_before(layers, a, b) || layer_before(layers, b, a),
        !(layer_before(layers, a, b) && layer_before(layers, b, a)),
{
}

/// Inserting at the first position whose element the new index draws
/// before matches the ordered-insert specification.
proof fn lemma_insert_ordered_at(layers: Seq<Layer>, ord: Seq<int>, x: int, p: int)
    requires
        0 <= p <= ord.len(),
        forall|k: int| 0 <= k < p ==> !layer_before(layers, x, #[trigger] ord[k]),
        p < ord.len() ==> layer_before(layers, x, ord[p]),
    ensures
        insert_ordered(layers, ord, x) == ord.insert(p, x),
    decreases ord.len(),
{
    if ord.len() == 0 {
        assert(insert_ordered(layers, ord, x) =~= ord.insert(0, x));
    } else if p == 0 {
        assert(insert_ordered(layers, ord, x) =~= ord.insert(0, x));
    } else {
        lemma_insert_ordered_at(layers, ord.drop_first(), x, p - 1);
        assert(seq![ord[0]] + ord.drop_first().insert(p - 1, x) =~= ord.insert(p, x));
    }
}

/// Ordered insertion keeps the sequence ordered, adds exactly the new
/// index, and keeps every element at or below the new index.
proof fn lemma_insert_ordered_props(layers: Seq<Layer>, ord: Seq<int>, x: int)
    requires
        0 <= x,
        forall|k: int, l: int|
            0 <= k < l < ord.len() ==> layer_before(layers, #[trigger] ord[k], #[trigger] ord[l]),
        forall|k: int| 0 <= k < ord.len() ==> 0 <= #[trigger] ord[k] < x,
    ensures
        insert_ordered(layers, ord, x).len() == ord.len() + 1,
        forall|k: int, l: int|
            0 <= k < l < ord.len() + 1 ==> layer_before(
                layers,
                #[trigger] insert_ordered(layers, ord, x)[k],
                #[trigger] insert_ordered(layers, ord, x)[l],
            ),
        forall|y: int|
            #[trigger] insert_ordered(layers, ord, x).contains(y) <==> (ord.contains(y) || y
                == x),
        forall|k: int|
            0 <= k < ord.len() + 1 ==> 0 <= #[trigger] insert_ordered(layers, ord, x)[k] < x + 1,
    decreases ord.len(),
{
    let res = insert_ordered(layers, ord, x);
    if ord.len() == 0 {
        assert(res =~= seq![x]);
        assert forall|k: int| 0 <= k < ord.len() + 1 implies 0 <= #[trigger] res[k] < x + 1 by {
            assert(res[0] == x);
        }
        assert forall|y: int| res.contains(y) <==> (ord.contains(y) || y == x) by {
            if y == x {
                assert(res[0] == x);
            }
        }
    } else if layer_before(layers, x, ord[0]) {
        assert(res =~= seq![x] + ord);
        assert forall|k: int| 0 <= k < ord.len() + 1 implies 0 <= #[trigger] res[k] < x + 1 by {
            if k > 0 {
                assert(res[k] == ord[k - 1]);
            }
        }
        assert forall|k: int, l: int|
            0 <= k < l < ord.len() + 1 implies layer_before(layers, res[k], res[l]) by {
            if k == 0 {
                // x draws before ord[0], which draws before (or is) every later element.
                assert(res[l] == ord[l - 1]);
                if l > 1 {
                    assert(layer_before(layers, ord[0], ord[l - 1]));
                }
            } else {
                assert(res[k] == ord[k - 1] && res[l] == ord[l - 1]);
            }
        }
        assert forall|y: int| res.contains(y) <==> (ord.contains(y) || y == x) by {
            if res.contains(y) {
                let i = choose|i: int| 0 <= i < res.len() && res[i] == y;
                if i == 0 {
                } else {
                    assert(ord[i - 1] == y);
                }
            }
            if y == x {
                assert(res[0] == x);
            }
            if ord.contains(y) {
                let i = choose|i: int| 0 <= i < ord.len() && ord[i] == y;
                assert(res[i + 1] == y);
            }
        }
    } else {
        let tail = insert_ordered(layers, ord.drop_first(), x);
        assert forall|k: int, l: int|
            0 <= k < l < ord.drop_first().len() implies layer_before(
            layers,
            ord.drop_first()[k],
            ord.drop_first()[l],
        ) by {
            assert(ord.drop_first()[k] == ord[k + 1] && ord.drop_first()[l] == ord[l + 1]);
        }
        assert forall|k: int|
            0 <= k < ord.drop_first().len() implies 0 <= #[trigger] ord.drop_first()[k] < x by {
            assert(ord.drop_first()[k] == ord[k + 1]);
        }
        lemma_insert_ordered_props(layers, ord.drop_first(), x);
        assert(res =~= seq![ord[0]] + tail);
        assert forall|k: int| 0 <= k < ord.len() + 1 implies 0 <= #[trigger] res[k] < x + 1 by {
            if k > 0 {
                assert(res[k] == tail[k - 1]);
            }
        }
        assert forall|k: int, l: int|
            0 <= k < l < ord.len() + 1 implies layer_before(layers, res[k], res[l]) by {
            if k == 0 {
                let y = res[l];
                assert(tail[l - 1] == y);
                assert(tail.contains(y));
                if y == x {
                    // The head is not drawn after x, and indices differ, so
                    // the head draws before x.
                    assert(ord[0] < x);
                    lemma_layer_before_total(layers, x, ord[0]);
                } else {
                    assert(ord.drop_first().contains(y));
                    let i = choose|i: int| 0 <= i < ord.drop_first().len() && ord.drop_first()[i]
                        == y;
                    assert(ord[i + 1] == y);
                    assert(layer_before(layers, ord[0], ord[i + 1]));
                }
            } else {
                assert(res[k] == tail[k - 1] && res[l] == tail[l - 1]);
            }
        }
        assert forall|y: int| res.contains(y) <==> (ord.contains(y) || y == x) by {
            if res.contains(y) {
                let i = choose|i: int| 0 <= i < res.len() && res[i] == y;
                if i == 0 {
                    assert(ord[0] == y);
                } else {
                    assert(tail[i - 1] == y);
                    assert(tail.contains(y));
                    if y != x {
                        assert(ord.drop_first().contains(y));
                        let j = choose|j: int|
                            0 <= j < ord.drop_first().len() && ord.drop_first()[j] == y;
                        assert(ord[j + 1] == y);
                    }
                }
            }
            if y == x {
                assert(tail.contains(x));
                let i = choose|i: int| 0 <= i < tail.len() && tail[i] == x;
                assert(res[i + 1] == x);
            }
            if ord.contains(y) {
                let i = choose|i: int| 0 <= i < ord.len() && ord[i] == y;
                if i == 0 {
                    assert(res[0] == y);
                } else {
                    assert(ord.drop_first()[i - 1] == y);
                    assert(ord.drop_first().contains(y));
                    assert(tail.contains(y));
                    let j = choose|j: int| 0 <= j < tail.len() && tail[j] == y;
                    assert(res[j + 1] == y);
                }
            }
        }
    }
}

/// The draw order of the first `n` layers is ordered, covers exactly the
/// indices below `n`, and has length `n`.
proof fn lemma_layer_order_upto_props(layers: Seq<Layer>, n: int)
    requires
        0 <= n,
    ensures
        layer_order_upto(layers, n).len() == n,
        forall|k: int, l: int|
            0 <= k < l < n ==> layer_before(
                layers,
                #[trigger] layer_order_upto(layers, n)[k],
                #[trigger] layer_order_upto(layers, n)[l],
            ),
        forall|k: int| 0 <= k < n ==> 0 <= #[trigger] layer_order_upto(layers, n)[k] < n,
        forall|y: int| layer_order_upto(layers, n).contains(y) <==> 0 <= y < n,
    decreases n,
{
    if n > 0 {
        lemma_layer_order_upto_props(layers, n - 1);
        let prev = layer_order_upto(layers, n - 1);
        assert forall|k: int| 0 <= k < prev.len() implies 0 <= #[trigger] prev[k] < n - 1 by {
            assert(prev.contains(prev[k]));
        }
        lemma_insert_ordered_props(layers, prev, n - 1);
        assert forall|y: int| layer_order_upto(layers, n).contains(y) <==> 0 <= y < n by {
            assert(layer_order_upto(layers, n) == insert_ordered(layers, prev, n - 1));
            assert(insert_ordered(layers, prev, n - 1).contains(y) <==> (prev.contains(y) || y == n
                - 1));
        }
    }
}

/// The timeline draw order is the stable sort of the declaration
/// indices by (effective priority, declaration index): it is a
/// permutation of the indices in which every pair is strictly ordered
/// by `layer_before`.
pub proof fn lemma_layer_order_props(layers: Seq<Layer>)
    ensures
        layer_order(layers).len() == layers.len(),
        forall|k: int, l: int|
            0 <= k < l < layers.len() ==> layer_before(
                layers,
                #[trigger] layer_order(layers)[k],
                #[trigger] layer_order(layers)[l],
            ),
        forall|k: int|
            0 <= k < layers.len() ==> 0 <= #[trigger] layer_order(layers)[k] < layers.len(),
        forall|y: int| layer_order(layers).contains(y) <==> 0 <= y < layers.len(),
{
    lemma_layer_order_upto_props(layers, layers.len() as int);
}

/// The integer values of an index vector.
pub open spec fn ord_ints(s: Seq<usize>) -> Seq<int> {
    Seq::new(s.len(), |k: int| s[k] as int)
}

/// Compare two layers' draw positions; indices as wide integers so that
/// an explicit priority and a declaration index always compare.
fn layer_before_exec(layers: &Vec<Layer>, a: usize, b: usize) -> (r: bool)
    requires
        a < layers@.len(),
        b < layers@.len(),
    ensures
        r == layer_before(layers@, a as int, b as int),
{
    let za: i128 = match layers[a].z_override {
        Some(z) => z as i128,
        None => a as i128,
    };
    let zb: i128 = match layers[b].z_override {
        Some(z) => z as i128,
        None => b as i128,
    };
    za < zb || (za == zb && a < b)
}

/// Stable-sort the layer indices into draw order by insertion.
fn sort_layers(layers: &Vec<Layer>) -> (ord: Vec<usize>)
    ensures
        ord_ints(ord@) == layer_order(layers@),
        ord@.len() == layers@.len(),
        forall|k: int| 0 <= k < ord@.len() ==> #[trigger] ord@[k] < layers@.len(),
{
    let mut ord: Vec<usize> = Vec::new();
    let mut i: usize = 0;
    proof {
        assert(ord_ints(ord@) =~= layer_order_upto(layers@, 0));
    }
    while i < layers.len()
        invariant
            i <= layers@.len(),
            ord@.len() == i,
            forall|k: int| 0 <= k < i ==> #[trigger] ord@[k] < i,
            ord_ints(ord@) == layer_order_upto(layers@, i as int),
        decreases layers@.len() - i,
    {
        let ghost prev = ord_ints(ord@);
        let mut p: usize = 0;
        while p < ord.len() && !layer_before_exec(layers, i, ord[p])
            invariant
                p <= ord@.len(),
                i < layers@.len(),
                ord@.len() == i,
                forall|k: int| 0 <= k < i ==> #[trigger] ord@[k] < i,
                forall|k: int|
                    0 <= k < p ==> !layer_before(layers@, i as int, #[trigger] prev[k]),
                prev == ord_ints(ord@),
            decreases ord@.len() - p,
        {
            p = p + 1;
        }
        ord.insert(p, i);
        proof {
            lemma_insert_ordered_at(layers@, prev, i as int, p as int);
            assert(ord_ints(ord@) =~= prev.insert(p as int, i as int));
        }
        i = i + 1;
    }
    ord
}

// ---------------------------------------------------------------------
// Sampling: the resolved scene snapshot at one instant.
// ---------------------------------------------------------------------

/// One resolved object with its placement at the sampled instant.
#[derive(Debug, PartialEq)]
pub struct SampledClip {
    pub object: Object,
    pub transform: Transform,
}

/// One layer's active clips at the sampled instant, in declaration
/// order.
#[derive(Debug, PartialEq)]
pub struct SampledLayer {
    pub name: String,
    pub clips: Vec<SampledClip>,
}

/// The fully resolved scene at one instant: layers in draw order, each
/// holding exactly its active clips with evaluated transforms.
#[derive(Debug, PartialEq)]
pub struct SampledScene {
    pub layers: Vec<SampledLayer>,
}

/// The declaration indices of the clips active at `t`, in declaration
/// order.
pub open spec fn active_indices(clips: Seq<Clip>, t: u32) -> Seq<int>
    decreases clips.len(),
{
    if clips.len() == 0 {
        Seq::empty()
    } else {
        let pre = active_indices(clips.drop_last(), t);
        if clip_active(clips.last(), t) {
            pre.push(clips.len() - 1)
        } else {
            pre
        }
    }
}

/// The active index list holds exactly the indices of active clips, in
/// increasing declaration order: a clip is sampled iff it is active.
pub proof fn lemma_active_indices(clips: Seq<Clip>, t: u32)
    ensures
        forall|j: int|
            0 <= j < active_indices(clips, t).len() ==> 0 <= #[trigger] active_indices(clips, t)[j]
                < clips.len() && clip_active(clips[active_indices(clips, t)[j]], t),
        forall|i: int|
            0 <= i < clips.len() && clip_active(#[trigger] clips[i], t) ==> active_indices(
                clips,
                t,
            ).contains(i),
        forall|j1: int, j2: int|
            0 <= j1 < j2 < active_indices(clips, t).len() ==> #[trigger] active_indices(
                clips,
                t,
            )[j1] < #[trigger] active_indices(clips, t)[j2],
    decreases clips.len(),
{
    if clips.len() > 0 {
        lemma_active_indices(clips.drop_last(), t);
        let pre = active_indices(clips.drop_last(), t);
        let res = active_indices(clips, t);
        assert forall|i: int|
            0 <= i < clips.len() && clip_active(#[trigger] clips[i], t) implies res.contains(
            i,
        ) by {
            if i < clips.len() - 1 {
                assert(clips.drop_last()[i] == clips[i]);
                assert(pre.contains(i));
                let j = choose|j: int| 0 <= j < pre.len() && pre[j] == i;
                assert(res[j] == i);
            } else {
                assert(res[res.len() - 1] == i);
            }
        }
        assert forall|j: int|
            0 <= j < res.len() implies 0 <= #[trigger] res[j] < clips.len() && clip_active(
            clips[res[j]],
            t,
        ) by {
            if j < pre.len() {
                assert(res[j] == pre[j]);
                assert(clips.drop_last()[pre[j]] == clips[pre[j]]);
            }
        }
    }
}

/// The sampled clip list of one layer is exactly its active clips in
/// declaration order, each with a deep-equal object and the transform
/// evaluated at `t`.
pub open spec fn sampled_clips_match(clips: Seq<Clip>, t: u32, out: Seq<SampledClip>) -> bool {
    &&& out.len() == active_indices(clips, t).len()
    &&& forall|j: int|
        0 <= j < out.len() ==> obj_eq(
            #[trigger] out[j].object,
            clips[active_indices(clips, t)[j]].object,
        ) && out[j].transform == transform_at(clips[active_indices(clips, t)[j]].transform, t)
}

/// A sampled layer carries its source layer's name and exactly the
/// active clips.
pub open spec fn sampled_layer_matches(layer: Layer, t: u32, out: SampledLayer) -> bool {
    out.name@ == layer.name@ && sampled_clips_match(layer.clips@, t, out.clips@)
}

/// The sampled scene lists one entry per layer, in draw order, each
/// matching its source layer at `t`.
pub open spec fn scene_matches(layers: Seq<Layer>, t: u32, scene: SampledScene) -> bool {
    &&& scene.layers@.len() == layers.len()
    &&& forall|k: int|
        0 <= k < layers.len() ==> sampled_layer_matches(
            layers[layer_order(layers)[k]],
            t,
            #[trigger] scene.layers@[k],
        )
}

/// Deep equality of two sampled scenes: same layers, names, clip
/// counts, objects and transforms.
pub open spec fn sampled_layer_eq(a: SampledLayer, b: SampledLayer) -> bool {
    &&& a.name@ == b.name@
    &&& a.clips@.len() == b.clips@.len()
    &&& forall|j: int|
        0 <= j < a.clips@.len() ==> obj_eq(#[trigger] a.clips@[j].object, b.clips@[j].object)
            && a.clips@[j].transform == b.clips@[j].transform
}

/// Deep equality of two sampled scenes.
pub open spec fn scene_eq(a: SampledScene, b: SampledScene) -> bool {
    &&& a.layers@.len() == b.layers@.len()
    &&& forall|k: int|
        0 <= k < a.layers@.len() ==> sampled_layer_eq(
            #[trigger] a.layers@[k],
            #[trigger] b.layers@[k],
        )
}

/// Sampling is a pure function of the timeline and the instant: any two
/// scenes that match the same layers at the same time are deeply equal,
/// so repeated calls of `sample` return identical output.
pub proof fn lemma_sample_deterministic(layers: Seq<Layer>, t: u32, s1: SampledScene, s2: SampledScene)
    requires
        scene_matches(layers, t, s1),
        scene_matches(layers, t, s2),
    ensures
        scene_eq(s1, s2),
{
    lemma_layer_order_props(layers);
    assert forall|k: int|
        0 <= k < s1.layers@.len() implies sampled_layer_eq(
        #[trigger] s1.layers@[k],
        #[trigger] s2.layers@[k],
    ) by {
        let src = layers[layer_order(layers)[k]];
        assert(sampled_layer_matches(src, t, s1.layers@[k]));
        assert(sampled_layer_matches(src, t, s2.layers@[k]));
        let a = s1.layers@[k];
        let b = s2.layers@[k];
        lemma_active_indices(src.clips@, t);
        assert forall|j: int|
            0 <= j < a.clips@.len() implies obj_eq(
            #[trigger] a.clips@[j].object,
            b.clips@[j].object,
        ) && a.clips@[j].transform == b.clips@[j].transform by {
            let i = active_indices(src.clips@, t)[j];
            crate::scene::lemma_obj_eq_equivalence(
                a.clips@[j].object,
                src.clips@[i].object,
                src.clips@[i].object,
            );
            crate::scene::lemma_obj_eq_equivalence(
                b.clips@[j].object,
                src.clips@[i].object,
                a.clips@[j].object,
            );
        }
    }
}

/// The top-level container: ordered layers with a fixed duration
/// (milliseconds) and frame rate, append-only after construction.
#[derive(Debug)]
pub struct Timeline {
    pub duration: u32,
    pub fps: u32,
    pub layers: Vec<Layer>,
}

impl Timeline {
    /// A timeline of the given positive duration (milliseconds) and
    /// positive frame rate, with no layers yet.
    pub fn new(duration: u32, fps: u32) -> (r: Result<Timeline, EngineError>)
        ensures
            duration == 0 ==> r is Err && r.unwrap_err() == EngineError::NonPositiveDuration,
            duration > 0 && fps == 0 ==> r is Err && r.unwrap_err() == EngineError::NonPositiveFps,
            duration > 0 && fps > 0 ==> r is Ok && r.unwrap().duration == duration
                && r.unwrap().fps == fps && r.unwrap().layers@.len() == 0,
    {
        if duration == 0 {
            return Err(EngineError::NonPositiveDuration);
        }
        if fps == 0 {
            return Err(EngineError::NonPositiveFps);
        }
        Ok(Timeline { duration, fps, layers: Vec::new() })
    }

    /// Append a layer; layers are never reordered in place.
    pub fn add_layer(&mut self, layer: Layer)
        ensures
            final(self).duration == old(self).duration,
            final(self).fps == old(self).fps,
            final(self).layers@ == old(self).layers@.push(layer),
    {
        self.layers.push(layer);
    }

    /// The number of whole frames the timeline spans, saturating at the
    /// widest frame count.
    pub fn total_frames(&self) -> (r: u32)
        ensures
            self.duration * self.fps / 1000 <= u32::MAX ==> r == self.duration * self.fps / 1000,
            self.duration * self.fps / 1000 > u32::MAX ==> r == u32::MAX,
    {
        proof {
            assert((self.duration as int) * (self.fps as int) <= 0xffffffff * 0xffffffff)
                by (nonlinear_arith)
                requires self.duration <= 0xffffffffu32, self.fps <= 0xffffffffu32;
        }
        let frames: u64 = (self.duration as u64) * (self.fps as u64) / 1000;
        if frames > 0xffffffff {
            u32::MAX
        } else {
            frames as u32
        }
    }

    /// Resolve the scene at time `t` (milliseconds): layers in stable
    /// draw order, each with exactly its active clips, their transforms
    /// evaluated at `t`. Fails iff `t` lies outside `[0, duration]`.
    pub fn sample(&self, t: u32) -> (r: Result<SampledScene, EngineError>)
        ensures
            t > self.duration ==> r is Err && r.unwrap_err() == EngineError::SampleOutOfRange,
            t <= self.duration ==> r is Ok && scene_matches(self.layers@, t, r.unwrap()),
    {
        if t > self.duration {
            return Err(EngineError::SampleOutOfRange);
        }
        let ord = sort_layers(&self.layers);
        proof {
            lemma_layer_order_props(self.layers@);
        }
        let mut sampled_layers: Vec<SampledLayer> = Vec::new();
        let mut k: usize = 0;
        while k < ord.len()
            invariant
                ord@.len() == self.layers@.len(),
                ord_ints(ord@) == layer_order(self.layers@),
                forall|x: int| 0 <= x < ord@.len() ==> #[trigger] ord@[x] < self.layers@.len(),
                k <= ord@.len(),
                sampled_layers@.len() == k,
                forall|x: int|
                    0 <= x < k ==> sampled_layer_matches(
                        self.layers@[layer_order(self.layers@)[x]],
                        t,
                        #[trigger] sampled_layers@[x],
                    ),
            decreases ord@.len() - k,
        {
            let li: usize = ord[k];
            proof {
                assert(ord_ints(ord@)[k as int] == ord@[k as int] as int);
            }
            let layer = &self.layers[li];
            let mut clips: Vec<SampledClip> = Vec::new();
            let mut j: usize = 0;
            proof {
                assert(layer.clips@.subrange(0, 0) =~= Seq::<Clip>::empty());
            }
            while j < layer.clips.len()
                invariant
                    j <= layer.clips@.len(),
                    sampled_clips_match(layer.clips@.subrange(0, j as int), t, clips@),
                decreases layer.clips@.len() - j,
            {
                let ghost prefix = layer.clips@.subrange(0, j as int);
                let ghost pre_out = clips@;
                let clip = &layer.clips[j];
                let active = clip.is_active(t);
                let ghost mut new_clip = arbitrary::<SampledClip>();
                if active {
                    let obj = clip.object.clone();
                    let tr = clip.transform.evaluate(t);
                    proof {
                        new_clip = SampledClip { object: obj, transform: tr };
                    }
                    clips.push(SampledClip { object: obj, transform: tr });
                }
                proof {
                    let ext = layer.clips@.subrange(0, j + 1);
                    assert(ext.drop_last() =~= prefix);
                    assert(ext.last() == layer.clips@[j as int]);
                    let pre_idx = active_indices(prefix, t);
                    let ext_idx = active_indices(ext, t);
                    lemma_active_indices(prefix, t);
                    if active {
                        assert(ext_idx =~= pre_idx.push(j as int));
                        assert(clips@ == pre_out.push(new_clip));
                        assert(obj_eq(new_clip.object, layer.clips@[j as int].object));
                        assert(new_clip.transform == transform_at(
                            layer.clips@[j as int].transform,
                            t,
                        ));
                    } else {
                        assert(ext_idx =~= pre_idx);
                    }
                    assert forall|x: int|
                        0 <= x < clips@.len() implies obj_eq(
                        #[trigger] clips@[x].object,
                        ext[ext_idx[x]].object,
                    ) && clips@[x].transform == transform_at(ext[ext_idx[x]].transform, t) by {
                        if x < pre_out.len() {
                            assert(clips@[x] == pre_out[x]);
                            assert(ext_idx[x] == pre_idx[x]);
                            assert(0 <= pre_idx[x] < prefix.len());
                            assert(ext[pre_idx[x]] == prefix[pre_idx[x]]);
                            assert(obj_eq(pre_out[x].object, prefix[pre_idx[x]].object));
                        } else {
                            assert(clips@[x] == new_clip);
                            assert(ext_idx[x] == j as int);
                            assert(ext[j as int] == layer.clips@[j as int]);
                        }
                    }
                    assert(sampled_clips_match(ext, t, clips@));
                }
                j = j + 1;
            }
            proof {
                assert(layer.clips@.subrange(0, layer.clips@.len() as int) =~= layer.clips@);
            }
            sampled_layers.push(SampledLayer { name: layer.name.clone(), clips });
            k = k + 1;
        }
        Ok(SampledScene { layers: sampled_layers })
    }
}

} // verus!

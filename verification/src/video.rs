use vstd::prelude::*;
use crate::error::EngineError;

verus! {

/// A declared video window: the source at `path` covers the output
/// timeline over `[start_time, end_time)` (milliseconds), optionally
/// trimmed to a window of the source media.
#[derive(Debug, PartialEq)]
pub struct VideoClip {
    pub path: String,
    pub start_time: u32,
    pub end_time: u32,
    pub trim_start: Option<u32>,
    pub trim_end: Option<u32>,
}

impl VideoClip {
    /// Build a video clip: `start_time < end_time` must hold; a given
    /// trim end must be positive and after the trim start; and where
    /// both trim bounds are given, the trimmed window must be at least
    /// as long as the output window. Whether the path exists on disk is
    /// the caller's concern.
    pub fn new(
        path: String,
        start_time: u32,
        end_time: u32,
        trim_start: Option<u32>,
        trim_end: Option<u32>,
    ) -> (r: Result<VideoClip, EngineError>)
        ensures
            end_time <= start_time ==> r is Err && r.unwrap_err()
                == EngineError::InvalidVideoBounds,
            start_time < end_time && trim_end == Some(0u32) ==> r is Err && r.unwrap_err()
                == EngineError::NonPositiveTrimEnd,
            start_time < end_time && trim_end is Some && trim_end.unwrap() > 0 && trim_start
                is Some && trim_end.unwrap() <= trim_start.unwrap() ==> r is Err && r.unwrap_err()
                == EngineError::TrimOrder,
            start_time < end_time && trim_end is Some && trim_end.unwrap() > 0 && trim_start
                is Some && trim_end.unwrap() > trim_start.unwrap() && trim_end.unwrap()
                - trim_start.unwrap() < end_time - start_time ==> r is Err && r.unwrap_err()
                == EngineError::TrimTooShort,
            start_time < end_time && (trim_end is Some ==> trim_end.unwrap() > 0) && (trim_start
                is Some && trim_end is Some ==> trim_end.unwrap() > trim_start.unwrap()
                && trim_end.unwrap() - trim_start.unwrap() >= end_time - start_time) ==> r is Ok
                && r.unwrap().path@ == path@ && r.unwrap().start_time == start_time
                && r.unwrap().end_time == end_time && r.unwrap().trim_start == trim_start
                && r.unwrap().trim_end == trim_end,
    {
        if end_time <= start_time {
            return Err(EngineError::InvalidVideoBounds);
        }
        if let Some(te) = trim_end {
            if te == 0 {
                return Err(EngineError::NonPositiveTrimEnd);
            }
        }
        if let (Some(ts), Some(te)) = (trim_start, trim_end) {
            if te <= ts {
                return Err(EngineError::TrimOrder);
            }
            let clip_len: u32 = end_time - start_time;
            if te - ts < clip_len {
                return Err(EngineError::TrimTooShort);
            }
        }
        Ok(VideoClip { path, start_time, end_time, trim_start, trim_end })
    }

    /// How long the clip's output window is.
    pub fn duration(&self) -> (r: u32)
        requires
            self.start_time <= self.end_time,
        ensures
            r == self.end_time - self.start_time,
    {
        self.end_time - self.start_time
    }
}

/// A resolved, non-overlapping output-time slice bound to one source
/// clip and a source offset of the same length.
#[derive(Clone, Copy, Debug, PartialEq, Eq, Structural)]
pub struct VideoSegment {
    pub clip_index: usize,
    pub timeline_start: u32,
    pub timeline_end: u32,
    pub source_start: u64,
}

// ---------------------------------------------------------------------
// Boundary collection: every start and end time, sorted and
// deduplicated.
// ---------------------------------------------------------------------

/// Insert one boundary value into a sorted, duplicate-free sequence.
pub open spec fn insert_boundary(bs: Seq<u32>, x: u32) -> Seq<u32>
    decreases bs.len(),
{
    if bs.len() == 0 {
        seq![x]
    } else if x < bs[0] {
        seq![x] + bs
    } else if x == bs[0] {
        bs
    } else {
        seq![bs[0]] + insert_boundary(bs.drop_first(), x)
    }
}

/// The sorted, duplicate-free boundaries of the first `n` clips.
pub open spec fn boundaries_upto(clips: Seq<VideoClip>, n: int) -> Seq<u32>
    decreases n,
{
    if n <= 0 {
        Seq::empty()
    } else {
        insert_boundary(
            insert_boundary(boundaries_upto(clips, n - 1), clips[n - 1].start_time),
            clips[n - 1].end_time,
        )
    }
}

/// All boundaries of a clip list, ascending, without duplicates.
pub open spec fn boundaries(clips: Seq<VideoClip>) -> Seq<u32> {
    boundaries_upto(clips, clips.len() as int)
}

/// Whether a clip's window fully covers the candidate span `[t0, t1)`.
pub open spec fn covers(c: VideoClip, t0: u32, t1: u32) -> bool {
    c.start_time <= t0 && c.end_time >= t1
}

/// The winning clip for a span: the last-declared clip that fully
/// covers it, or none.
pub open spec fn winner(clips: Seq<VideoClip>, t0: u32, t1: u32) -> Option<int>
    decreases clips.len(),
{
    if clips.len() == 0 {
        None
    } else if covers(clips.last(), t0, t1) {
        Some(clips.len() - 1)
    } else {
        winner(clips.drop_last(), t0, t1)
    }
}

/// The winner is the highest-indexed covering clip ("last declared
/// wins"), and there is none exactly when no clip covers the span.
pub proof fn lemma_winner_props(clips: Seq<VideoClip>, t0: u32, t1: u32)
    ensures
        winner(clips, t0, t1) is Some ==> {
            let i = winner(clips, t0, t1).unwrap();
            0 <= i < clips.len() && covers(clips[i], t0, t1) && forall|k: int|
                i < k < clips.len() ==> !covers(#[trigger] clips[k], t0, t1)
        },
        winner(clips, t0, t1) is None ==> forall|k: int|
            0 <= k < clips.len() ==> !covers(#[trigger] clips[k], t0, t1),
    decreases clips.len(),
{
    if clips.len() > 0 && !covers(clips.last(), t0, t1) {
        lemma_winner_props(clips.drop_last(), t0, t1);
        assert forall|k: int|
            0 <= k < clips.len() - 1 implies clips.drop_last()[k] == clips[k] by {}
    }
}

/// What the base source offset of a clip is: its trim start, or zero.
pub open spec fn trim_base(c: VideoClip) -> int {
    match c.trim_start {
        Some(ts) => ts as int,
        None => 0,
    }
}

/// Emit one resolved span, keeping the partition minimal: a span that
/// continues the previous segment's clip seamlessly extends it instead
/// of opening a new segment.
pub open spec fn merge_push(acc: Seq<VideoSegment>, s: VideoSegment) -> Seq<VideoSegment> {
    if acc.len() > 0 && acc.last().clip_index == s.clip_index && acc.last().timeline_end
        == s.timeline_start {
        acc.update(
            acc.len() - 1,
            VideoSegment {
                clip_index: acc.last().clip_index,
                timeline_start: acc.last().timeline_start,
                timeline_end: s.timeline_end,
                source_start: acc.last().source_start,
            },
        )
    } else {
        acc.push(s)
    }
}

/// The segments resolved from the first `m` boundary pairs: for each
/// adjacent pair the winning clip (if any) yields one span whose
/// source offset is the clip's trim start plus the span's offset into
/// the clip's window; adjacent spans won by the same clip join into
/// one segment.
pub open spec fn segments_upto(clips: Seq<VideoClip>, bs: Seq<u32>, m: int) -> Seq<VideoSegment>
    decreases m,
{
    if m <= 0 {
        Seq::empty()
    } else {
        let pre = segments_upto(clips, bs, m - 1);
        let t0 = bs[m - 1];
        let t1 = bs[m];
        match winner(clips, t0, t1) {
            Some(ci) => merge_push(
                pre,
                VideoSegment {
                    clip_index: ci as usize,
                    timeline_start: t0,
                    timeline_end: t1,
                    source_start: (trim_base(clips[ci]) + t0 - clips[ci].start_time) as u64,
                },
            ),
            None => pre,
        }
    }
}

/// The minimal partition of the covered output range: one segment per
/// boundary pair that some clip fully covers, ascending, the
/// last-declared covering clip winning each span.
pub open spec fn resolved_segments(clips: Seq<VideoClip>) -> Seq<VideoSegment> {
    if boundaries(clips).len() == 0 {
        Seq::empty()
    } else {
        segments_upto(clips, boundaries(clips), boundaries(clips).len() - 1)
    }
}

proof fn lemma_segments_upto_ordered(clips: Seq<VideoClip>, bs: Seq<u32>, m: int)
    requires
        0 <= m < bs.len(),
        forall|k: int, l: int| 0 <= k < l < bs.len() ==> #[trigger] bs[k] < #[trigger] bs[l],
    ensures
        forall|k: int|
            0 <= k < segments_upto(clips, bs, m).len() ==> #[trigger] segments_upto(
                clips,
                bs,
                m,
            )[k].timeline_start < segments_upto(clips, bs, m)[k].timeline_end
                && segments_upto(clips, bs, m)[k].timeline_end <= bs[m],
        forall|k: int, l: int|
            0 <= k < l < segments_upto(clips, bs, m).len() ==> #[trigger] segments_upto(
                clips,
                bs,
                m,
            )[k].timeline_end <= #[trigger] segments_upto(clips, bs, m)[l].timeline_start,
    decreases m,
{
    if m > 0 {
        lemma_segments_upto_ordered(clips, bs, m - 1);
        let pre = segments_upto(clips, bs, m - 1);
        let res = segments_upto(clips, bs, m);
        let t0 = bs[m - 1];
        let t1 = bs[m];
        assert(t0 < t1);
        assert forall|k: int|
            0 <= k < pre.len() implies #[trigger] pre[k].timeline_end <= t0
                && pre[k].timeline_start < pre[k].timeline_end by {
            assert(pre[k].timeline_start == segments_upto(clips, bs, m - 1)[k].timeline_start);
        }
        match winner(clips, t0, t1) {
            None => {
                assert(res == pre);
            },
            Some(ci) => {
                let seg = VideoSegment {
                    clip_index: ci as usize,
                    timeline_start: t0,
                    timeline_end: t1,
                    source_start: (trim_base(clips[ci]) + t0 - clips[ci].start_time) as u64,
                };
                assert(res == merge_push(pre, seg));
                if pre.len() > 0 && pre.last().clip_index == seg.clip_index
                    && pre.last().timeline_end == seg.timeline_start {
                    assert(res.len() == pre.len());
                    assert(res.last().timeline_start == pre.last().timeline_start);
                    assert(res.last().timeline_end == t1);
                    assert(forall|k: int| 0 <= k < pre.len() - 1 ==> res[k] == pre[k]);
                } else {
                    assert(res == pre.push(seg));
                    assert(forall|k: int| 0 <= k < pre.len() ==> res[k] == pre[k]);
                    assert(res.last() == seg);
                }
            },
        }
    }
}

/// The resolved segments are emitted in ascending time order: each
/// spans a non-empty window, and no two segments overlap.
pub proof fn lemma_segments_ordered(clips: Seq<VideoClip>)
    ensures
        forall|k: int|
            0 <= k < resolved_segments(clips).len() ==> #[trigger] resolved_segments(
                clips,
            )[k].timeline_start < resolved_segments(clips)[k].timeline_end,
        forall|k: int, l: int|
            0 <= k < l < resolved_segments(clips).len() ==> #[trigger] resolved_segments(
                clips,
            )[k].timeline_end <= #[trigger] resolved_segments(clips)[l].timeline_start,
{
    let bs = boundaries(clips);
    if bs.len() > 0 {
        lemma_boundaries_sorted(clips, clips.len() as int);
        lemma_segments_upto_ordered(clips, bs, bs.len() - 1);
    }
}

/// A value is a boundary of the first `n` clips iff it is one of their
/// start or end times.
proof fn lemma_boundaries_contains(clips: Seq<VideoClip>, n: int)
    requires
        0 <= n <= clips.len(),
    ensures
        forall|y: u32|
            #[trigger] boundaries_upto(clips, n).contains(y) <==> exists|i: int|
                0 <= i < n && ((#[trigger] clips[i]).start_time == y || clips[i].end_time == y),
    decreases n,
{
    if n == 0 {
        assert forall|y: u32| !boundaries_upto(clips, 0).contains(y) by {}
    } else {
        lemma_boundaries_contains(clips, n - 1);
        lemma_boundaries_sorted(clips, n - 1);
        let prev = boundaries_upto(clips, n - 1);
        let mid = insert_boundary(prev, clips[n - 1].start_time);
        lemma_insert_boundary_props(prev, clips[n - 1].start_time);
        lemma_insert_boundary_props(mid, clips[n - 1].end_time);
        assert forall|y: u32|
            #[trigger] boundaries_upto(clips, n).contains(y) implies exists|i: int|
                0 <= i < n && ((#[trigger] clips[i]).start_time == y || clips[i].end_time
                    == y) by {
            if y != clips[n - 1].start_time && y != clips[n - 1].end_time {
                assert(prev.contains(y));
                let i = choose|i: int|
                    0 <= i < n - 1 && ((#[trigger] clips[i]).start_time == y || clips[i].end_time
                        == y);
                assert(0 <= i < n && (clips[i].start_time == y || clips[i].end_time == y));
            } else {
                assert(clips[n - 1].start_time == y || clips[n - 1].end_time == y);
            }
        }
        assert forall|y: u32|
            (exists|i: int|
                0 <= i < n && ((#[trigger] clips[i]).start_time == y || clips[i].end_time
                    == y)) implies boundaries_upto(clips, n).contains(y) by {
            let i = choose|i: int|
                0 <= i < n && ((#[trigger] clips[i]).start_time == y || clips[i].end_time == y);
            if i < n - 1 {
                assert(prev.contains(y));
            }
        }
    }
}

/// In a sorted boundary list that brackets `t`, some adjacent pair
/// contains `t`.
proof fn lemma_sorted_locate(bs: Seq<u32>, t: u32) -> (k: int)
    requires
        bs.len() >= 1,
        forall|a: int, b: int| 0 <= a < b < bs.len() ==> #[trigger] bs[a] < #[trigger] bs[b],
        bs[0] <= t,
        bs[bs.len() - 1] > t,
    ensures
        0 <= k < bs.len() - 1,
        bs[k] <= t < bs[k + 1],
    decreases bs.len(),
{
    if bs[1] > t {
        0
    } else {
        assert forall|a: int, b: int|
            0 <= a < b < bs.drop_first().len() implies #[trigger] bs.drop_first()[a]
            < #[trigger] bs.drop_first()[b] by {
            assert(bs.drop_first()[a] == bs[a + 1] && bs.drop_first()[b] == bs[b + 1]);
        }
        assert(bs.drop_first()[bs.drop_first().len() - 1] == bs[bs.len() - 1]);
        let k = lemma_sorted_locate(bs.drop_first(), t);
        assert(bs.drop_first()[k] == bs[k + 1]);
        assert(bs.drop_first()[k + 1] == bs[k + 2]);
        k + 1
    }
}

/// Every boundary pair that some clip covers lies inside one of the
/// resolved segments.
proof fn lemma_segments_cover_pairs(clips: Seq<VideoClip>, bs: Seq<u32>, m: int)
    requires
        0 <= m < bs.len(),
        forall|a: int, b: int| 0 <= a < b < bs.len() ==> #[trigger] bs[a] < #[trigger] bs[b],
    ensures
        forall|k: int|
            0 <= k < m && #[trigger] winner(clips, bs[k], bs[k + 1]) is Some ==> exists|j: int|
                0 <= j < segments_upto(clips, bs, m).len() && (#[trigger] segments_upto(
                    clips,
                    bs,
                    m,
                )[j]).timeline_start <= bs[k] && bs[k + 1] <= segments_upto(
                    clips,
                    bs,
                    m,
                )[j].timeline_end,
    decreases m,
{
    if m > 0 {
        lemma_segments_cover_pairs(clips, bs, m - 1);
        lemma_segments_upto_ordered(clips, bs, m - 1);
        let pre = segments_upto(clips, bs, m - 1);
        let res = segments_upto(clips, bs, m);
        let t0 = bs[m - 1];
        let t1 = bs[m];
        assert forall|k: int|
            0 <= k < m && #[trigger] winner(clips, bs[k], bs[k + 1]) is Some implies exists|j: int|
                0 <= j < res.len() && (#[trigger] res[j]).timeline_start <= bs[k] && bs[k + 1]
                    <= res[j].timeline_end by {
            match winner(clips, t0, t1) {
                None => {
                    assert(res == pre);
                    let j = choose|j: int|
                        0 <= j < pre.len() && (#[trigger] pre[j]).timeline_start <= bs[k] && bs[k
                            + 1] <= pre[j].timeline_end;
                    assert(res[j].timeline_start <= bs[k] && bs[k + 1] <= res[j].timeline_end);
                },
                Some(ci) => {
                    let seg = VideoSegment {
                        clip_index: ci as usize,
                        timeline_start: t0,
                        timeline_end: t1,
                        source_start: (trim_base(clips[ci]) + t0 - clips[ci].start_time) as u64,
                    };
                    assert(res == merge_push(pre, seg));
                    let merged = pre.len() > 0 && pre.last().clip_index == seg.clip_index
                        && pre.last().timeline_end == seg.timeline_start;
                    if k == m - 1 {
                        if merged {
                            assert(res[res.len() - 1].timeline_start
                                == pre.last().timeline_start);
                            assert(pre.last().timeline_start < pre.last().timeline_end == t0);
                            assert(res[res.len() - 1].timeline_end == t1);
                        } else {
                            assert(res[res.len() - 1] == seg);
                        }
                    } else {
                        let j = choose|j: int|
                            0 <= j < pre.len() && (#[trigger] pre[j]).timeline_start <= bs[k]
                                && bs[k + 1] <= pre[j].timeline_end;
                        if merged && j == pre.len() - 1 {
                            assert(res[j].timeline_start == pre[j].timeline_start);
                            assert(res[j].timeline_end == t1 >= pre[j].timeline_end);
                        } else {
                            assert(res[j] == pre[j]);
                        }
                    }
                },
            }
        }
    }
}

/// Inside the covered regions the partition leaves no gaps: every
/// instant that some declared clip covers lies inside one resolved
/// segment.
pub proof fn lemma_no_gaps(clips: Seq<VideoClip>, t: u32, i: int)
    requires
        0 <= i < clips.len(),
        clips[i].start_time <= t < clips[i].end_time,
    ensures
        exists|j: int|
            0 <= j < resolved_segments(clips).len() && (#[trigger] resolved_segments(
                clips,
            )[j]).timeline_start <= t < resolved_segments(clips)[j].timeline_end,
{
    let bs = boundaries(clips);
    lemma_boundaries_sorted(clips, clips.len() as int);
    lemma_boundaries_contains(clips, clips.len() as int);
    assert(bs.contains(clips[i].start_time)) by {
        assert(0 <= i < clips.len() && (clips[i].start_time == clips[i].start_time
            || clips[i].end_time == clips[i].start_time));
    }
    assert(bs.contains(clips[i].end_time)) by {
        assert(0 <= i < clips.len() && (clips[i].start_time == clips[i].end_time
            || clips[i].end_time == clips[i].end_time));
    }
    let js = choose|j: int| 0 <= j < bs.len() && bs[j] == clips[i].start_time;
    let je = choose|j: int| 0 <= j < bs.len() && bs[j] == clips[i].end_time;
    assert(bs[0] <= t) by {
        if js > 0 {
            assert(bs[0] < bs[js]);
        }
    }
    assert(bs[bs.len() - 1] > t) by {
        if je < bs.len() - 1 {
            assert(bs[je] < bs[bs.len() - 1]);
        }
    }
    let k = lemma_sorted_locate(bs, t);
    assert(covers(clips[i], bs[k], bs[k + 1])) by {
        // The clip's own start is a boundary at or before t, so it is at
        // or before the pair's start; its end is a boundary after t, so
        // it is at or after the pair's end.
        if js > k {
            assert(bs[k + 1] <= bs[js]);
        }
        if je < k + 1 {
            assert(bs[je] <= bs[k]);
        }
    }
    lemma_winner_props(clips, bs[k], bs[k + 1]);
    assert(winner(clips, bs[k], bs[k + 1]) is Some);
    lemma_segments_cover_pairs(clips, bs, bs.len() - 1);
    let j = choose|j: int|
        0 <= j < resolved_segments(clips).len() && (#[trigger] resolved_segments(
            clips,
        )[j]).timeline_start <= bs[k] && bs[k + 1] <= resolved_segments(clips)[j].timeline_end;
    assert(resolved_segments(clips)[j].timeline_start <= t
        < resolved_segments(clips)[j].timeline_end);
}

proof fn lemma_insert_boundary_at(bs: Seq<u32>, x: u32, p: int)
    requires
        0 <= p <= bs.len(),
        forall|k: int| 0 <= k < p ==> #[trigger] bs[k] < x,
        p < bs.len() ==> x <= bs[p],
    ensures
        insert_boundary(bs, x) == if p < bs.len() && bs[p] == x {
            bs
        } else {
            bs.insert(p, x)
        },
    decreases bs.len(),
{
    if bs.len() == 0 {
        assert(insert_boundary(bs, x) =~= bs.insert(0, x));
    } else if p == 0 {
        if bs[0] == x {
        } else {
            assert(insert_boundary(bs, x) =~= bs.insert(0, x));
        }
    } else {
        lemma_insert_boundary_at(bs.drop_first(), x, p - 1);
        if p < bs.len() && bs[p] == x {
            assert(bs.drop_first()[p - 1] == x);
            assert(seq![bs[0]] + bs.drop_first() =~= bs);
        } else {
            assert(seq![bs[0]] + bs.drop_first().insert(p - 1, x) =~= bs.insert(p, x));
        }
    }
}

/// Ordered insertion keeps boundaries strictly increasing and adds
/// exactly the new value.
proof fn lemma_insert_boundary_props(bs: Seq<u32>, x: u32)
    requires
        forall|k: int, l: int| 0 <= k < l < bs.len() ==> #[trigger] bs[k] < #[trigger] bs[l],
    ensures
        forall|k: int, l: int|
            0 <= k < l < insert_boundary(bs, x).len() ==> #[trigger] insert_boundary(bs, x)[k]
                < #[trigger] insert_boundary(bs, x)[l],
        forall|y: u32|
            #[trigger] insert_boundary(bs, x).contains(y) <==> (bs.contains(y) || y == x),
    decreases bs.len(),
{
    let res = insert_boundary(bs, x);
    if bs.len() == 0 {
        assert(res =~= seq![x]);
        assert forall|y: u32| res.contains(y) <==> (bs.contains(y) || y == x) by {
            if y == x {
                assert(res[0] == x);
            }
        }
    } else if x < bs[0] {
        assert(res =~= seq![x] + bs);
        assert forall|y: u32| res.contains(y) <==> (bs.contains(y) || y == x) by {
            if res.contains(y) {
                let i = choose|i: int| 0 <= i < res.len() && res[i] == y;
                if i > 0 {
                    assert(bs[i - 1] == y);
                }
            }
            if y == x {
                assert(res[0] == x);
            }
            if bs.contains(y) {
                let i = choose|i: int| 0 <= i < bs.len() && bs[i] == y;
                assert(res[i + 1] == y);
            }
        }
        assert forall|k: int, l: int|
            0 <= k < l < res.len() implies res[k] < res[l] by {
            if k > 0 {
                assert(res[k] == bs[k - 1] && res[l] == bs[l - 1]);
            } else if l > 1 {
                assert(res[l] == bs[l - 1]);
                assert(bs[0] <= bs[l - 1]);
            }
        }
    } else if x == bs[0] {
        assert forall|y: u32| res.contains(y) <==> (bs.contains(y) || y == x) by {
            if y == x {
                assert(bs[0] == x);
            }
        }
    } else {
        assert forall|k: int, l: int|
            0 <= k < l < bs.drop_first().len() implies #[trigger] bs.drop_first()[k]
            < #[trigger] bs.drop_first()[l] by {
            assert(bs.drop_first()[k] == bs[k + 1] && bs.drop_first()[l] == bs[l + 1]);
        }
        lemma_insert_boundary_props(bs.drop_first(), x);
        let tail = insert_boundary(bs.drop_first(), x);
        assert(res =~= seq![bs[0]] + tail);
        assert forall|y: u32| res.contains(y) <==> (bs.contains(y) || y == x) by {
            if res.contains(y) {
                let i = choose|i: int| 0 <= i < res.len() && res[i] == y;
                if i == 0 {
                    assert(bs[0] == y);
                } else {
                    assert(tail[i - 1] == y);
                    assert(tail.contains(y));
                    if y != x {
                        assert(bs.drop_first().contains(y));
                        let j = choose|j: int|
                            0 <= j < bs.drop_first().len() && bs.drop_first()[j] == y;
                        assert(bs[j + 1] == y);
                    }
                }
            }
            if y == x {
                assert(tail.contains(x));
                let i = choose|i: int| 0 <= i < tail.len() && tail[i] == x;
                assert(res[i + 1] == x);
            }
            if bs.contains(y) {
                let i = choose|i: int| 0 <= i < bs.len() && bs[i] == y;
                if i == 0 {
                    assert(res[0] == y);
                } else {
                    assert(bs.drop_first()[i - 1] == y);
                    assert(bs.drop_first().contains(y));
                    assert(tail.contains(y));
                    let j = choose|j: int| 0 <= j < tail.len() && tail[j] == y;
                    assert(res[j + 1] == y);
                }
            }
        }
        assert forall|k: int, l: int|
            0 <= k < l < res.len() implies res[k] < res[l] by {
            if k == 0 {
                let y = res[l];
                assert(tail[l - 1] == y);
                assert(tail.contains(y));
                if y == x {
                } else {
                    assert(bs.drop_first().contains(y));
                    let j = choose|j: int|
                        0 <= j < bs.drop_first().len() && bs.drop_first()[j] == y;
                    assert(bs[j + 1] == y);
                    assert(bs[0] < bs[j + 1]);
                }
            } else {
                assert(res[k] == tail[k - 1] && res[l] == tail[l - 1]);
            }
        }
    }
}

/// The boundary list of any clip prefix is strictly increasing.
pub proof fn lemma_boundaries_sorted(clips: Seq<VideoClip>, n: int)
    requires
        0 <= n <= clips.len(),
    ensures
        forall|k: int, l: int|
            0 <= k < l < boundaries_upto(clips, n).len() ==> #[trigger] boundaries_upto(
                clips,
                n,
            )[k] < #[trigger] boundaries_upto(clips, n)[l],
    decreases n,
{
    if n > 0 {
        lemma_boundaries_sorted(clips, n - 1);
        lemma_insert_boundary_props(boundaries_upto(clips, n - 1), clips[n - 1].start_time);
        lemma_insert_boundary_props(
            insert_boundary(boundaries_upto(clips, n - 1), clips[n - 1].start_time),
            clips[n - 1].end_time,
        );
    }
}

fn insert_boundary_exec(bs: &mut Vec<u32>, x: u32)
    ensures
        final(bs)@ == insert_boundary(old(bs)@, x),
{
    let mut p: usize = 0;
    while p < bs.len() && bs[p] < x
        invariant
            p <= bs@.len(),
            forall|k: int| 0 <= k < p ==> #[trigger] bs@[k] < x,
            bs@ == old(bs)@,
        decreases bs@.len() - p,
    {
        p = p + 1;
    }
    if p < bs.len() && bs[p] == x {
        proof {
            lemma_insert_boundary_at(bs@, x, p as int);
        }
        return ;
    }
    proof {
        lemma_insert_boundary_at(bs@, x, p as int);
    }
    bs.insert(p, x);
}

/// Partition the union of the declared clip windows into the minimal
/// set of non-overlapping segments, each bound to the last-declared
/// clip that fully covers it. Spans no clip covers are dropped (a gap,
/// not an error).
pub fn resolve_segments(clips: &Vec<VideoClip>) -> (segs: Vec<VideoSegment>)
    ensures
        segs@ == resolved_segments(clips@),
{
    let mut bs: Vec<u32> = Vec::new();
    let mut i: usize = 0;
    proof {
        assert(bs@ =~= boundaries_upto(clips@, 0));
    }
    while i < clips.len()
        invariant
            i <= clips@.len(),
            bs@ == boundaries_upto(clips@, i as int),
        decreases clips@.len() - i,
    {
        insert_boundary_exec(&mut bs, clips[i].start_time);
        insert_boundary_exec(&mut bs, clips[i].end_time);
        i = i + 1;
    }
    let mut segs: Vec<VideoSegment> = Vec::new();
    if bs.len() == 0 {
        proof {
            assert(segs@ =~= resolved_segments(clips@));
        }
        return segs;
    }
    let mut w: usize = 0;
    while w + 1 < bs.len()
        invariant
            bs@ == boundaries(clips@),
            bs@.len() >= 1,
            w <= bs@.len() - 1,
            segs@ == segments_upto(clips@, bs@, w as int),
        decreases bs@.len() - w,
    {
        let t0: u32 = bs[w];
        let t1: u32 = bs[w + 1];
        let mut chosen: Option<usize> = None;
        let mut ci: usize = 0;
        proof {
            assert(clips@.subrange(0, 0) =~= Seq::<VideoClip>::empty());
        }
        while ci < clips.len()
            invariant
                ci <= clips@.len(),
                match chosen {
                    Some(c) => c < ci && Some(c as int) == winner(
                        clips@.subrange(0, ci as int),
                        t0,
                        t1,
                    ),
                    None => winner(clips@.subrange(0, ci as int), t0, t1) is None,
                },
            decreases clips@.len() - ci,
        {
            let ghost prefix = clips@.subrange(0, ci as int);
            let c = &clips[ci];
            if c.start_time <= t0 && c.end_time >= t1 {
                chosen = Some(ci);
            }
            proof {
                let ext = clips@.subrange(0, ci + 1);
                assert(ext.drop_last() =~= prefix);
                assert(ext.last() == clips@[ci as int]);
            }
            ci = ci + 1;
        }
        proof {
            assert(clips@.subrange(0, clips@.len() as int) =~= clips@);
        }
        match chosen {
            Some(c) => {
                let clip = &clips[c];
                let base: u64 = match clip.trim_start {
                    Some(ts) => ts as u64,
                    None => 0,
                };
                proof {
                    lemma_winner_props(clips@, t0, t1);
                }
                let source_start: u64 = base + ((t0 - clip.start_time) as u64);
                let seg = VideoSegment {
                    clip_index: c,
                    timeline_start: t0,
                    timeline_end: t1,
                    source_start,
                };
                let ghost pre = segs@;
                if segs.len() > 0 {
                    let lastidx: usize = segs.len() - 1;
                    let prev: VideoSegment = segs[lastidx];
                    if prev.clip_index == c && prev.timeline_end == t0 {
                        let merged = VideoSegment {
                            clip_index: prev.clip_index,
                            timeline_start: prev.timeline_start,
                            timeline_end: t1,
                            source_start: prev.source_start,
                        };
                        segs.set(lastidx, merged);
                        proof {
                            assert(segs@ =~= merge_push(pre, seg));
                        }
                    } else {
                        segs.push(seg);
                        proof {
                            assert(segs@ =~= merge_push(pre, seg));
                        }
                    }
                } else {
                    segs.push(seg);
                    proof {
                        assert(segs@ =~= merge_push(pre, seg));
                    }
                }
            },
            None => {},
        }
        w = w + 1;
    }
    segs
}

} // verus!

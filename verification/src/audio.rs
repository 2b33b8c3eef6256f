use vstd::prelude::*;

verus! {

/// The looping background track: plays over `[start, end)` at a fixed
/// gain (thousandths, so `250` is a gain of `0.25`).
#[derive(Debug, PartialEq)]
pub struct MusicTrack {
    pub path: String,
    pub start: u32,
    pub end: u32,
    pub looped: bool,
    pub volume: u32,
}

/// A discrete sound event: an instantaneous trigger time in whole
/// milliseconds and a gain in thousandths.
#[derive(Debug, PartialEq)]
pub struct SfxEvent {
    pub path: String,
    pub time: u32,
    pub volume: u32,
}

/// One split copy of an SFX source: delayed by its trigger time and
/// scaled by its gain.
#[derive(Clone, Copy, Debug, PartialEq, Eq, Structural)]
pub struct SfxCopy {
    pub delay_ms: u32,
    pub volume: u32,
}

/// All copies of one distinct SFX source path, summed into one
/// secondary stream.
#[derive(Debug, PartialEq)]
pub struct SfxStream {
    pub path: String,
    pub copies: Vec<SfxCopy>,
}

/// The base stream: the background track looped or trimmed to cover
/// `[0, duration)` at its gain.
#[derive(Debug, PartialEq)]
pub struct BaseStream {
    pub path: String,
    pub looped: bool,
    pub volume: u32,
    pub duration: u32,
}

/// An engine-agnostic mix plan: the base stream plus one secondary
/// stream per distinct SFX path, to be summed without renormalization
/// (simultaneous events may accumulate loudness, deliberately).
#[derive(Debug, PartialEq)]
pub struct MixPlan {
    pub base: BaseStream,
    pub streams: Vec<SfxStream>,
    pub high_event_count: bool,
}

/// What a stream list means: each stream's path characters and copies.
pub open spec fn streams_model(v: Seq<SfxStream>) -> Seq<(Seq<char>, Seq<SfxCopy>)> {
    v.map(|i: int, s: SfxStream| (s.path@, s.copies@))
}

/// Adding one event copy to a stream list: it joins the first stream
/// with its path, or opens a new stream at the end.
pub open spec fn add_event(
    streams: Seq<(Seq<char>, Seq<SfxCopy>)>,
    path: Seq<char>,
    c: SfxCopy,
) -> Seq<(Seq<char>, Seq<SfxCopy>)>
    decreases streams.len(),
{
    if streams.len() == 0 {
        seq![(path, seq![c])]
    } else if streams[0].0 == path {
        seq![(streams[0].0, streams[0].1.push(c))] + streams.drop_first()
    } else {
        seq![streams[0]] + add_event(streams.drop_first(), path, c)
    }
}

/// The streams built from the first `n` events, in first-occurrence
/// path order, each stream's copies in event declaration order.
pub open spec fn streams_upto(events: Seq<SfxEvent>, n: int) -> Seq<(Seq<char>, Seq<SfxCopy>)>
    decreases n,
{
    if n <= 0 {
        Seq::empty()
    } else {
        add_event(
            streams_upto(events, n - 1),
            events[n - 1].path@,
            SfxCopy { delay_ms: events[n - 1].time, volume: events[n - 1].volume },
        )
    }
}

/// The per-path secondary streams of a whole event list.
pub open spec fn sfx_streams(events: Seq<SfxEvent>) -> Seq<(Seq<char>, Seq<SfxCopy>)> {
    streams_upto(events, events.len() as int)
}

/// Appending where an existing stream matches the path updates exactly
/// that stream.
proof fn lemma_add_event_found(
    streams: Seq<(Seq<char>, Seq<SfxCopy>)>,
    path: Seq<char>,
    c: SfxCopy,
    k: int,
)
    requires
        0 <= k < streams.len(),
        forall|j: int| 0 <= j < k ==> (#[trigger] streams[j]).0 != path,
        streams[k].0 == path,
    ensures
        add_event(streams, path, c) == streams.update(k, (streams[k].0, streams[k].1.push(c))),
    decreases k,
{
    if k == 0 {
        assert(add_event(streams, path, c) =~= streams.update(
            0,
            (streams[0].0, streams[0].1.push(c)),
        ));
    } else {
        assert forall|j: int|
            0 <= j < k - 1 implies (#[trigger] streams.drop_first()[j]).0 != path by {
            assert(streams.drop_first()[j] == streams[j + 1]);
        }
        assert(streams.drop_first()[k - 1] == streams[k]);
        lemma_add_event_found(streams.drop_first(), path, c, k - 1);
        assert(seq![streams[0]] + streams.drop_first().update(
            k - 1,
            (streams[k].0, streams[k].1.push(c)),
        ) =~= streams.update(k, (streams[k].0, streams[k].1.push(c))));
    }
}

/// Appending where no stream matches the path opens a new stream at
/// the end.
proof fn lemma_add_event_new(streams: Seq<(Seq<char>, Seq<SfxCopy>)>, path: Seq<char>, c: SfxCopy)
    requires
        forall|j: int| 0 <= j < streams.len() ==> (#[trigger] streams[j]).0 != path,
    ensures
        add_event(streams, path, c) == streams.push((path, seq![c])),
    decreases streams.len(),
{
    if streams.len() == 0 {
        assert(add_event(streams, path, c) =~= streams.push((path, seq![c])));
    } else {
        assert forall|j: int|
            0 <= j < streams.drop_first().len() implies (#[trigger] streams.drop_first()[j]).0
            != path by {
            assert(streams.drop_first()[j] == streams[j + 1]);
        }
        lemma_add_event_new(streams.drop_first(), path, c);
        assert(seq![streams[0]] + streams.drop_first().push((path, seq![c])) =~= streams.push(
            (path, seq![c]),
        ));
    }
}

/// Build the mix plan for one background track and an event list over
/// `[0, duration)`: the trimmed or looped base stream at its gain, plus
/// one secondary stream per distinct SFX path holding a delayed,
/// gain-scaled copy per referencing event. An empty event list leaves
/// only the base stream. Many events are never rejected; past a
/// hundred the plan carries a warning flag.
pub fn build_mix_plan(music: &MusicTrack, sfx: &Vec<SfxEvent>, duration: u32) -> (plan: MixPlan)
    ensures
        plan.base.path@ == music.path@,
        plan.base.looped == music.looped,
        plan.base.volume == music.volume,
        plan.base.duration == duration,
        streams_model(plan.streams@) == sfx_streams(sfx@),
        plan.high_event_count == (sfx@.len() > 100),
{
    let base = BaseStream {
        path: music.path.clone(),
        looped: music.looped,
        volume: music.volume,
        duration,
    };
    let mut streams: Vec<SfxStream> = Vec::new();
    let mut i: usize = 0;
    proof {
        assert(streams_model(streams@) =~= streams_upto(sfx@, 0));
    }
    while i < sfx.len()
        invariant
            i <= sfx@.len(),
            streams_model(streams@) == streams_upto(sfx@, i as int),
        decreases sfx@.len() - i,
    {
        let ghost pre = streams_model(streams@);
        let ev = &sfx[i];
        let copy = SfxCopy { delay_ms: ev.time, volume: ev.volume };
        let mut k: usize = 0;
        let mut found: bool = false;
        while k < streams.len() && !found
            invariant
                k <= streams@.len(),
                streams_model(streams@) == pre,
                found ==> k < streams@.len() && streams@[k as int].path@ == ev.path@,
                forall|j: int| 0 <= j < k ==> (#[trigger] streams@[j]).path@ != ev.path@,
            decreases streams@.len() - k + (if found { 0int } else { 1int }),
        {
            if streams[k].path == ev.path {
                found = true;
            } else {
                k = k + 1;
            }
        }
        let ghost old_streams = streams@;
        if found {
            let mut st = streams.remove(k);
            st.copies.push(copy);
            streams.insert(k, st);
            proof {
                assert forall|j: int| 0 <= j < k implies (#[trigger] pre[j]).0 != ev.path@ by {
                    assert(pre[j].0 == old_streams[j].path@);
                }
                assert(pre[k as int].0 == ev.path@);
                lemma_add_event_found(pre, ev.path@, copy, k as int);
                assert(streams_model(streams@) =~= pre.update(
                    k as int,
                    (pre[k as int].0, pre[k as int].1.push(copy)),
                ));
            }
        } else {
            let mut copies: Vec<SfxCopy> = Vec::new();
            copies.push(copy);
            streams.push(SfxStream { path: ev.path.clone(), copies });
            proof {
                assert forall|j: int|
                    0 <= j < pre.len() implies (#[trigger] pre[j]).0 != ev.path@ by {
                    assert(pre[j].0 == old_streams[j].path@);
                }
                lemma_add_event_new(pre, ev.path@, copy);
                assert(streams_model(streams@) =~= pre.push((ev.path@, seq![copy])));
            }
        }
        i = i + 1;
    }
    let high_event_count = sfx.len() > 100;
    MixPlan { base, streams, high_event_count }
}

} // verus!

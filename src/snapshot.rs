//! Snapshot writer: collects the buffered audio of every speaker and lays it out on one
//! common timeline, so that all tracks start and end together.
use vstd::prelude::*;
use crate::segment::{SegmentModel, VoiceSegment, models};
use crate::timeline::{SAMPLES_PER_TICK, ticks_for};

verus! {

/// Where a segment ends within its own track: its end tick once closed, else the ticks its
/// samples fill; the next segment's silence is counted from here.
pub open spec fn seg_end(s: SegmentModel) -> int {
    match s.end_tick {
        Some(e) => e as int,
        None => s.start_tick + ticks_for(s.samples.len() as int),
    }
}

/// Ticks of silence between `prev_end` and a segment that starts at `start`.
pub open spec fn gap(start: int, prev_end: int) -> int {
    if start > prev_end {
        start - prev_end
    } else {
        0
    }
}

/// `n` samples of silence.
pub open spec fn silence(n: int) -> Seq<i16> {
    Seq::new(n as nat, |i: int| 0i16)
}

/// Where the track stands after its segments, when it starts at `first`.
pub open spec fn track_end(segs: Seq<SegmentModel>, first: int) -> int {
    if segs.len() == 0 {
        first
    } else {
        seg_end(segs.last())
    }
}

/// The segments laid out from tick `first`: each one after the silence that separates it from
/// the end of the one before.
pub open spec fn lay_out(segs: Seq<SegmentModel>, first: int) -> Seq<i16>
    decreases segs.len(),
{
    if segs.len() == 0 {
        Seq::empty()
    } else {
        let init = segs.drop_last();
        lay_out(init, first) + silence(SAMPLES_PER_TICK * gap(segs.last().start_tick as int, track_end(init, first)))
            + segs.last().samples
    }
}

/// One speaker's track on the timeline `[first, last_end)`: its segments laid out from
/// `first`, then silence up to `last_end`.
pub open spec fn aligned(segs: Seq<SegmentModel>, first: int, last_end: int) -> Seq<i16> {
    lay_out(segs, first) + silence(SAMPLES_PER_TICK * gap(last_end, track_end(segs, first)))
}

/// The segment cut to the part from tick `cutoff` on: the samples of the ticks before are
/// dropped.
pub open spec fn clip(s: SegmentModel, cutoff: u64) -> SegmentModel {
    if s.start_tick >= cutoff {
        s
    } else {
        let k = SAMPLES_PER_TICK * (cutoff - s.start_tick);
        let drop = if k < s.samples.len() { k } else { s.samples.len() as int };
        SegmentModel {
            start_tick: cutoff,
            end_tick: match s.end_tick {
                Some(e) => Some(if e >= cutoff { e } else { cutoff }),
                None => None,
            },
            samples: s.samples.subrange(drop, s.samples.len() as int),
        }
    }
}

/// The segments cut to the window from `cutoff` on, without those left empty.
pub open spec fn clipped(segs: Seq<SegmentModel>, cutoff: u64) -> Seq<SegmentModel>
    decreases segs.len(),
{
    if segs.len() == 0 {
        Seq::empty()
    } else {
        let c = clip(segs.last(), cutoff);
        if c.samples.len() == 0 {
            clipped(segs.drop_last(), cutoff)
        } else {
            clipped(segs.drop_last(), cutoff).push(c)
        }
    }
}

/// The buffered segments of one speaker, as collected for a snapshot.
#[derive(Debug)]
pub struct SpeakerTrack {
    pub user_id: u64,
    pub segments: Vec<VoiceSegment>,
}

/// The views of collected tracks: for each, the user and the segments.
pub open spec fn track_models(ts: Seq<SpeakerTrack>) -> Seq<(u64, Seq<SegmentModel>)> {
    ts.map_values(|t: SpeakerTrack| (t.user_id, models(t.segments@)))
}

/// The earliest start among the first segments of the tracks (each track non-empty).
pub open spec fn first_start(ts: Seq<(u64, Seq<SegmentModel>)>) -> int
    decreases ts.len(),
{
    if ts.len() == 0 {
        0
    } else if ts.len() == 1 {
        ts[0].1[0].start_tick as int
    } else {
        let rest = first_start(ts.drop_last());
        let here = ts.last().1[0].start_tick as int;
        if here < rest {
            here
        } else {
            rest
        }
    }
}

/// Where a track's last segment ends on the common timeline: its end tick once closed, the
/// current tick while it is open.
pub open spec fn back_end(s: SegmentModel, tick: u64) -> int {
    match s.end_tick {
        Some(e) => e as int,
        None => tick as int,
    }
}

/// The latest end among the last segments of the tracks (each track non-empty) at `tick`.
pub open spec fn last_end(ts: Seq<(u64, Seq<SegmentModel>)>, tick: u64) -> int
    decreases ts.len(),
{
    if ts.len() == 0 {
        0
    } else {
        let rest = last_end(ts.drop_last(), tick);
        let here = back_end(ts.last().1.last(), tick);
        if here > rest {
            here
        } else {
            rest
        }
    }
}

/// Every track holds at least one segment.
pub open spec fn all_non_empty(ts: Seq<(u64, Seq<SegmentModel>)>) -> bool {
    forall|i: int| 0 <= i < ts.len() ==> (#[trigger] ts[i]).1.len() > 0
}

/// The longest of the aligned tracks.
pub open spec fn longest(ts: Seq<(u64, Seq<SegmentModel>)>, first: int, end: int) -> int
    decreases ts.len(),
{
    if ts.len() == 0 {
        0
    } else {
        let rest = longest(ts.drop_last(), first, end);
        let here = aligned(ts.last().1, first, end).len() as int;
        if here > rest {
            here
        } else {
            rest
        }
    }
}

/// `pcm` followed by silence up to `len` samples.
pub open spec fn padded(pcm: Seq<i16>, len: int) -> Seq<i16> {
    pcm + silence(len - pcm.len())
}

/// The output of a snapshot taken at `tick` for collected tracks: every track aligned on the
/// common timeline and padded with silence to the longest.
pub open spec fn snapshot_pcm(ts: Seq<(u64, Seq<SegmentModel>)>, tick: u64) -> Seq<(u64, Seq<i16>)> {
    let first = first_start(ts);
    let end = last_end(ts, tick);
    let len = longest(ts, first, end);
    Seq::new(ts.len(), |i: int| (ts[i].0, padded(aligned(ts[i].1, first, end), len)))
}

/// Declares std's I/O error, which the snapshot and mix errors carry from the I/O side.
#[verifier::external_type_specification]
#[verifier::external_body]
pub struct ExIoError(std::io::Error);

/// Why a snapshot could not be saved.
#[derive(Debug)]
pub enum RecordingError {
    /// Reading or writing files, or talking to the codec process, failed.
    IoError(std::io::Error),
    /// No speaker had buffered audio.
    NoData,
    /// The codec process failed; the end of what it wrote to stderr.
    Codec(String),
}

impl RecordingError {
    /// Whether this is the error for a snapshot without audio.
    pub fn is_no_data(&self) -> (r: bool)
        ensures
            r == (self is NoData),
    {
        match self {
            RecordingError::NoData => true,
            _ => false,
        }
    }
}

/// One speaker's audio of a snapshot, ready to be encoded.
#[derive(Debug)]
pub struct AlignedTrack {
    pub user_id: u64,
    pub pcm: Vec<i16>,
}

/// The views of aligned tracks.
pub open spec fn aligned_models(ts: Seq<AlignedTrack>) -> Seq<(u64, Seq<i16>)> {
    ts.map_values(|t: AlignedTrack| (t.user_id, t.pcm@))
}

/// Appends `n` samples of silence.
fn push_silence(out: &mut Vec<i16>, n: u128)
    ensures
        final(out)@ == old(out)@ + silence(n as int),
{
    let ghost start = out@;
    let mut i: u128 = 0;
    while i < n
        invariant
            0 <= i <= n,
            out@ == start + silence(i as int),
        decreases n - i,
    {
        out.push(0);
        i = i + 1;
        assert(out@ =~= start + silence(i as int));
    }
}

/// Where a segment ends on the timeline.
pub fn segment_end(s: &VoiceSegment) -> (r: u128)
    ensures
        r == seg_end(s@),
        r <= 2 * (u64::MAX as u128),
{
    match s.end_tick {
        Some(e) => e as u128,
        None => {
            let n = s.samples.len() as u128;
            s.start_tick as u128 + (n + (SAMPLES_PER_TICK as u128 - 1)) / SAMPLES_PER_TICK as u128
        },
    }
}

/// Lays one speaker's segments out on the timeline `[first, end)`.
pub fn align_track(segs: &Vec<VoiceSegment>, first: u64, end: u128) -> (r: Vec<i16>)
    requires
        end <= 2 * (u64::MAX as u128),
    ensures
        r@ == aligned(models(segs@), first as int, end as int),
{
    let ghost ms = models(segs@);
    let mut out: Vec<i16> = Vec::new();
    let mut prev_end: u128 = first as u128;
    let mut i: usize = 0;
    assert(ms.take(0) =~= Seq::<SegmentModel>::empty());
    while i < segs.len()
        invariant
            0 <= i <= segs.len(),
            ms == models(segs@),
            out@ == lay_out(ms.take(i as int), first as int),
            prev_end == track_end(ms.take(i as int), first as int),
        decreases segs.len() - i,
    {
        let s = &segs[i];
        assert(ms.take(i + 1).drop_last() =~= ms.take(i as int));
        assert(ms.take(i + 1).last() == s@);
        let start = s.start_tick as u128;
        let g: u128 = if start > prev_end {
            start - prev_end
        } else {
            0
        };
        push_silence(&mut out, SAMPLES_PER_TICK as u128 * g);
        let mut copy = s.samples.clone();
        assert(copy@ =~= s.samples@);
        out.append(&mut copy);
        prev_end = segment_end(s);
        i = i + 1;
    }
    assert(ms.take(i as int) =~= ms);
    let g: u128 = if end > prev_end {
        end - prev_end
    } else {
        0
    };
    push_silence(&mut out, SAMPLES_PER_TICK as u128 * g);
    out
}


/// The segments cut to the window from `cutoff` on, without those left empty.
pub fn clip_segments(segs: &Vec<VoiceSegment>, cutoff: u64) -> (r: Vec<VoiceSegment>)
    ensures
        models(r@) == clipped(models(segs@), cutoff),
{
    let ghost ms = models(segs@);
    let mut out: Vec<VoiceSegment> = Vec::new();
    let mut i: usize = 0;
    assert(ms.take(0) =~= Seq::<SegmentModel>::empty());
    while i < segs.len()
        invariant
            0 <= i <= segs.len(),
            ms == models(segs@),
            models(out@) == clipped(ms.take(i as int), cutoff),
        decreases segs.len() - i,
    {
        let s = &segs[i];
        assert(ms.take(i + 1).drop_last() =~= ms.take(i as int));
        assert(ms.take(i + 1).last() == s@);
        let c = if s.start_tick >= cutoff {
            s.duplicate()
        } else {
            let k: u128 = SAMPLES_PER_TICK as u128 * (cutoff - s.start_tick) as u128;
            let n = s.samples.len();
            let drop: usize = if k < n as u128 {
                k as usize
            } else {
                n
            };
            let mut all = s.samples.clone();
            assert(all@ =~= s.samples@);
            let kept = all.split_off(drop);
            let end = match s.end_tick {
                Some(e) => Some(if e >= cutoff { e } else { cutoff }),
                None => None,
            };
            VoiceSegment { start_tick: cutoff, end_tick: end, samples: kept }
        };
        assert(c@ == clip(s@, cutoff));
        let ghost before = out@;
        if c.samples.len() > 0 {
            out.push(c);
            assert(models(out@) =~= models(before).push(c@));
        }
        i = i + 1;
    }
    assert(ms.take(i as int) =~= ms);
    out
}

/// The start of the common timeline: the earliest first segment.
pub fn timeline_first(ts: &Vec<SpeakerTrack>) -> (r: u64)
    requires
        ts.len() > 0,
        all_non_empty(track_models(ts@)),
    ensures
        r == first_start(track_models(ts@)),
{
    let ghost ms = track_models(ts@);
    assert(ms[0].1 == models(ts@[0].segments@));
    let mut first: u64 = ts[0].segments[0].start_tick;
    let mut i: usize = 1;
    assert(ms.take(1).len() == 1);
    while i < ts.len()
        invariant
            1 <= i <= ts.len(),
            ms == track_models(ts@),
            all_non_empty(ms),
            first == first_start(ms.take(i as int)),
        decreases ts.len() - i,
    {
        assert(ms.take(i + 1).drop_last() =~= ms.take(i as int));
        assert(ms[i as int].1 == models(ts@[i as int].segments@));
        assert(ms[i as int].1.len() > 0);
        let here = ts[i].segments[0].start_tick;
        if here < first {
            first = here;
        }
        i = i + 1;
    }
    assert(ms.take(i as int) =~= ms);
    first
}

/// The end of the common timeline at `tick`: the latest end of a last segment, an open one
/// ending at `tick`.
pub fn timeline_end(ts: &Vec<SpeakerTrack>, tick: u64) -> (r: u128)
    requires
        all_non_empty(track_models(ts@)),
    ensures
        r == last_end(track_models(ts@), tick),
        r <= u64::MAX,
{
    let ghost ms = track_models(ts@);
    let mut end: u128 = 0;
    let mut i: usize = 0;
    assert(ms.take(0) =~= Seq::<(u64, Seq<SegmentModel>)>::empty());
    while i < ts.len()
        invariant
            0 <= i <= ts.len(),
            ms == track_models(ts@),
            all_non_empty(ms),
            end == last_end(ms.take(i as int), tick),
            end <= u64::MAX,
        decreases ts.len() - i,
    {
        assert(ms.take(i + 1).drop_last() =~= ms.take(i as int));
        assert(ms[i as int].1 == models(ts@[i as int].segments@));
        assert(ms[i as int].1.len() > 0);
        let segs = &ts[i].segments;
        let here: u128 = match segs[segs.len() - 1].end_tick {
            Some(e) => e as u128,
            None => tick as u128,
        };
        if here > end {
            end = here;
        }
        i = i + 1;
    }
    assert(ms.take(i as int) =~= ms);
    end
}

/// Lays every collected track out on the common timeline that ends at `tick` or at the last
/// closed segment, and pads all of them with silence to the longest, so that they start and
/// end together. Fails with `NoData` exactly when nothing was collected.
pub fn align_snapshot(ts: &Vec<SpeakerTrack>, tick: u64) -> (r: Result<Vec<AlignedTrack>, RecordingError>)
    requires
        all_non_empty(track_models(ts@)),
    ensures
        ts@.len() == 0 <==> r is Err,
        r is Err ==> r->Err_0 is NoData,
        r is Ok ==> aligned_models(r->Ok_0@) == snapshot_pcm(track_models(ts@), tick),
{
    if ts.len() == 0 {
        return Err(RecordingError::NoData);
    }
    let ghost ms = track_models(ts@);
    let first = timeline_first(ts);
    let end = timeline_end(ts, tick);
    let ghost f = first as int;
    let ghost e = end as int;
    let mut raw: Vec<Vec<i16>> = Vec::new();
    let mut longest_len: usize = 0;
    let mut i: usize = 0;
    assert(ms.take(0) =~= Seq::<(u64, Seq<SegmentModel>)>::empty());
    while i < ts.len()
        invariant
            0 <= i <= ts.len(),
            ms == track_models(ts@),
            first == first_start(ms),
            end == last_end(ms, tick),
            f == first as int,
            e == end as int,
            end <= 2 * (u64::MAX as u128),
            raw@.len() == i,
            forall|k: int| 0 <= k < i ==> (#[trigger] raw@[k])@ == aligned(ms[k].1, f, e),
            longest_len == longest(ms.take(i as int), f, e),
        decreases ts.len() - i,
    {
        assert(ms.take(i + 1).drop_last() =~= ms.take(i as int));
        assert(ms[i as int].1 == models(ts@[i as int].segments@));
        assert(ms.take(i + 1).last() == ms[i as int]);
        let pcm = align_track(&ts[i].segments, first, end);
        if pcm.len() > longest_len {
            longest_len = pcm.len();
        }
        let ghost before = raw@;
        raw.push(pcm);
        assert(raw@[i as int] == pcm);
        assert forall|k: int| 0 <= k < i + 1 implies (#[trigger] raw@[k])@ == aligned(ms[k].1, f, e) by {
            if k < i {
                assert(raw@[k] == before[k]);
            }
        }
        i = i + 1;
    }
    assert(ms.take(i as int) =~= ms);
    let mut out: Vec<AlignedTrack> = Vec::new();
    let mut j: usize = 0;
    let ghost target = snapshot_pcm(ms, tick);
    while j < ts.len()
        invariant
            0 <= j <= ts.len(),
            ms == track_models(ts@),
            target == snapshot_pcm(ms, tick),
            first == first_start(ms),
            end == last_end(ms, tick),
            f == first as int,
            e == end as int,
            raw@.len() == ts.len(),
            forall|k: int| 0 <= k < ts.len() ==> (#[trigger] raw@[k])@ == aligned(ms[k].1, f, e),
            longest_len == longest(ms, f, e),
            aligned_models(out@) == target.take(j as int),
        decreases ts.len() - j,
    {
        proof { lemma_longest_bounds(ms, f, e, j as int); }
        let mut pcm = clone_samples(&raw[j]);
        let missing = longest_len - pcm.len();
        push_silence(&mut pcm, missing as u128);
        let ghost before = out@;
        assert(pcm@ =~= padded(aligned(ms[j as int].1, f, e), longest_len as int));
        assert(ms[j as int].0 == ts@[j as int].user_id);
        assert(target[j as int] == (ms[j as int].0, padded(aligned(ms[j as int].1, f, e), longest_len as int)));
        let ghost item = (ts@[j as int].user_id, pcm@);
        out.push(AlignedTrack { user_id: ts[j].user_id, pcm });
        assert(aligned_models(out@) =~= aligned_models(before).push(item));
        assert(target.take(j + 1) =~= target.take(j as int).push(target[j as int]));
        j = j + 1;
    }
    assert(target.take(j as int) =~= target);
    Ok(out)
}

/// A copy of a run of samples.
fn clone_samples(v: &Vec<i16>) -> (r: Vec<i16>)
    ensures
        r@ == v@,
{
    let r = v.clone();
    assert(r@ =~= v@);
    r
}

/// Every aligned track is at most as long as the longest.
proof fn lemma_longest_bounds(ms: Seq<(u64, Seq<SegmentModel>)>, f: int, e: int, j: int)
    requires
        0 <= j < ms.len(),
    ensures
        aligned(ms[j].1, f, e).len() <= longest(ms, f, e),
    decreases ms.len(),
{
    if j < ms.len() - 1 {
        lemma_longest_bounds(ms.drop_last(), f, e, j);
    }
}


/// Every track of one snapshot has the same number of samples.
pub proof fn lemma_snapshot_equal_length(ts: Seq<(u64, Seq<SegmentModel>)>, tick: u64, i: int, j: int)
    requires
        0 <= i < ts.len(),
        0 <= j < ts.len(),
    ensures
        snapshot_pcm(ts, tick)[i].1.len() == snapshot_pcm(ts, tick)[j].1.len(),
        snapshot_pcm(ts, tick)[i].1.len() == longest(ts, first_start(ts), last_end(ts, tick)),
{
    let f = first_start(ts);
    let e = last_end(ts, tick);
    lemma_longest_bounds(ts, f, e, i);
    lemma_longest_bounds(ts, f, e, j);
}

/// The first segment of every track starts no earlier than the common timeline.
pub proof fn lemma_first_start_is_min(ts: Seq<(u64, Seq<SegmentModel>)>, i: int)
    requires
        all_non_empty(ts),
        0 <= i < ts.len(),
    ensures
        first_start(ts) <= ts[i].1[0].start_tick,
    decreases ts.len(),
{
    if ts.len() > 1 && i < ts.len() - 1 {
        let init = ts.drop_last();
        assert(init[i] == ts[i]);
        assert forall|k: int| 0 <= k < init.len() implies (#[trigger] init[k]).1.len() > 0 by {
            assert(init[k] == ts[k]);
        }
        lemma_first_start_is_min(init, i);
    }
}

/// A layout begins with the silence before the first segment and then its samples.
proof fn lemma_lay_out_prefix(segs: Seq<SegmentModel>, first: int)
    requires
        segs.len() > 0,
    ensures
        ({
            let lead = silence(SAMPLES_PER_TICK * gap(segs[0].start_tick as int, first)) + segs[0].samples;
            lead.len() <= lay_out(segs, first).len() && lay_out(segs, first).subrange(0, lead.len() as int) == lead
        }),
    decreases segs.len(),
{
    let lead = silence(SAMPLES_PER_TICK * gap(segs[0].start_tick as int, first)) + segs[0].samples;
    let whole = lay_out(segs, first);
    if segs.len() == 1 {
        assert(segs.drop_last() =~= Seq::<SegmentModel>::empty());
        assert(segs.last() == segs[0]);
        assert(lay_out(segs.drop_last(), first) == Seq::<i16>::empty());
        assert(track_end(segs.drop_last(), first) == first);
        assert(whole =~= lead);
        assert(whole.subrange(0, lead.len() as int) =~= lead);
    } else {
        let init = segs.drop_last();
        assert(init[0] == segs[0]);
        lemma_lay_out_prefix(init, first);
        let part = lay_out(init, first);
        assert(whole.subrange(0, lead.len() as int) =~= part.subrange(0, lead.len() as int));
    }
}

/// Within a snapshot, a track's first segment begins at the sample index given by how many
/// ticks after the start of the common timeline it started; silence comes before it.
pub proof fn lemma_snapshot_alignment(ts: Seq<(u64, Seq<SegmentModel>)>, tick: u64, i: int)
    requires
        all_non_empty(ts),
        0 <= i < ts.len(),
    ensures
        ({
            let out = snapshot_pcm(ts, tick)[i].1;
            let s0 = ts[i].1[0];
            let offset = SAMPLES_PER_TICK * (s0.start_tick - first_start(ts));
            &&& 0 <= offset
            &&& offset + s0.samples.len() <= out.len()
            &&& out.subrange(0, offset) == silence(offset)
            &&& out.subrange(offset, offset + s0.samples.len()) == s0.samples
        }),
{
    let f = first_start(ts);
    let e = last_end(ts, tick);
    let segs = ts[i].1;
    let s0 = segs[0];
    lemma_first_start_is_min(ts, i);
    lemma_lay_out_prefix(segs, f);
    lemma_longest_bounds(ts, f, e, i);
    let offset = SAMPLES_PER_TICK * (s0.start_tick - f);
    let lead = silence(SAMPLES_PER_TICK * gap(s0.start_tick as int, f)) + s0.samples;
    assert(gap(s0.start_tick as int, f) == s0.start_tick - f);
    let lay = lay_out(segs, f);
    let out = snapshot_pcm(ts, tick)[i].1;
    assert(out == padded(aligned(segs, f, e), longest(ts, f, e)));
    assert(out.subrange(0, lead.len() as int) =~= lay.subrange(0, lead.len() as int));
    assert(out.subrange(0, offset) =~= lead.subrange(0, offset));
    assert(out.subrange(offset, offset + s0.samples.len()) =~= lead.subrange(offset, lead.len() as int));
}

} // verus!

//! Per-speaker rolling buffer of voice segments.
use vstd::prelude::*;
use crate::timeline::window_cutoff;

verus! {

/// Mathematical view of a voice segment.
pub ghost struct SegmentModel {
    pub start_tick: u64,
    pub end_tick: Option<u64>,
    pub samples: Seq<i16>,
}

/// A chunk of interleaved stereo PCM that began at `start_tick`; `end_tick` is set once the
/// speaker fell silent.
#[derive(Debug)]
pub struct VoiceSegment {
    pub start_tick: u64,
    pub end_tick: Option<u64>,
    pub samples: Vec<i16>,
}

impl View for VoiceSegment {
    type V = SegmentModel;

    open spec fn view(&self) -> SegmentModel {
        SegmentModel { start_tick: self.start_tick, end_tick: self.end_tick, samples: self.samples@ }
    }
}

/// The views of a sequence of segments.
pub open spec fn models(segs: Seq<VoiceSegment>) -> Seq<SegmentModel> {
    segs.map_values(|s: VoiceSegment| s@)
}

/// Only the last segment may be open.
pub open spec fn single_open(segs: Seq<SegmentModel>) -> bool {
    forall|i: int| 0 <= i < segs.len() - 1 ==> (#[trigger] segs[i]).end_tick is Some
}

/// Whether the last segment is still open.
pub open spec fn tail_open(segs: Seq<SegmentModel>) -> bool {
    segs.len() > 0 && segs.last().end_tick is None
}

/// The segments after `samples` were delivered at `tick`: they extend the open tail, or open
/// a new segment at `tick`.
pub open spec fn appended(segs: Seq<SegmentModel>, samples: Seq<i16>, tick: u64) -> Seq<SegmentModel> {
    if tail_open(segs) {
        segs.drop_last().push(SegmentModel { samples: segs.last().samples + samples, ..segs.last() })
    } else {
        segs.push(SegmentModel { start_tick: tick, end_tick: None, samples })
    }
}

/// The segments after the speaker fell silent at `tick`: an open tail is closed there.
pub open spec fn closed(segs: Seq<SegmentModel>, tick: u64) -> Seq<SegmentModel> {
    if tail_open(segs) {
        segs.drop_last().push(SegmentModel { end_tick: Some(tick), ..segs.last() })
    } else {
        segs
    }
}

/// A closed segment that started before `cutoff` has left the window.
pub open spec fn expired(s: SegmentModel, cutoff: u64) -> bool {
    s.end_tick is Some && s.start_tick < cutoff
}

/// The segments without the expired ones at their head.
pub open spec fn evicted(segs: Seq<SegmentModel>, cutoff: u64) -> Seq<SegmentModel>
    decreases segs.len(),
{
    if segs.len() > 0 && expired(segs[0], cutoff) {
        evicted(segs.drop_first(), cutoff)
    } else {
        segs
    }
}

/// All samples of the segments, in queue order.
pub open spec fn flat(segs: Seq<SegmentModel>) -> Seq<i16>
    decreases segs.len(),
{
    if segs.len() == 0 {
        Seq::empty()
    } else {
        flat(segs.drop_last()) + segs.last().samples
    }
}

/// `tail` is what is left of `whole` after some prefix was dropped.
pub open spec fn is_suffix(tail: Seq<i16>, whole: Seq<i16>) -> bool {
    tail.len() <= whole.len() && whole.subrange(whole.len() - tail.len(), whole.len() as int) == tail
}

/// The samples of two queues laid end to end are those of the joined queue.
pub proof fn lemma_flat_concat(a: Seq<SegmentModel>, b: Seq<SegmentModel>)
    ensures
        flat(a + b) == flat(a) + flat(b),
    decreases b.len(),
{
    if b.len() == 0 {
        assert(a + b =~= a);
        assert(flat(a) + flat(b) =~= flat(a));
    } else {
        lemma_flat_concat(a, b.drop_last());
        assert((a + b).drop_last() =~= a + b.drop_last());
        assert(flat(a + b) =~= flat(a) + flat(b));
    }
}

/// Eviction keeps a suffix of the queue.
pub proof fn lemma_evicted_is_subrange(segs: Seq<SegmentModel>, cutoff: u64)
    ensures
        exists|k: int| 0 <= k <= segs.len() && evicted(segs, cutoff) == segs.subrange(k, segs.len() as int),
    decreases segs.len(),
{
    if segs.len() > 0 && expired(segs[0], cutoff) {
        lemma_evicted_is_subrange(segs.drop_first(), cutoff);
        let k = choose|k: int| 0 <= k <= segs.drop_first().len() && evicted(segs.drop_first(), cutoff) == segs.drop_first().subrange(k, segs.drop_first().len() as int);
        assert(segs.drop_first().subrange(k, segs.drop_first().len() as int) =~= segs.subrange(k + 1, segs.len() as int));
    } else {
        assert(segs.subrange(0, segs.len() as int) =~= segs);
    }
}

/// Delivering samples adds them, in order, after everything already buffered; closing a
/// segment loses nothing; eviction only drops the oldest samples.
pub proof fn lemma_append_preserves_order(segs: Seq<SegmentModel>, samples: Seq<i16>, tick: u64, cutoff: u64)
    ensures
        flat(appended(segs, samples, tick)) == flat(segs) + samples,
        flat(closed(segs, tick)) == flat(segs),
        is_suffix(flat(evicted(segs, cutoff)), flat(segs)),
{
    if tail_open(segs) {
        let a = appended(segs, samples, tick);
        assert(a.drop_last() =~= segs.drop_last());
        assert(flat(a) =~= flat(segs) + samples);
        let c = closed(segs, tick);
        assert(c.drop_last() =~= segs.drop_last());
    } else {
        let a = appended(segs, samples, tick);
        assert(a.drop_last() =~= segs);
    }
    lemma_evicted_is_subrange(segs, cutoff);
    let k = choose|k: int| 0 <= k <= segs.len() && evicted(segs, cutoff) == segs.subrange(k, segs.len() as int);
    assert(segs =~= segs.subrange(0, k) + segs.subrange(k, segs.len() as int));
    lemma_flat_concat(segs.subrange(0, k), segs.subrange(k, segs.len() as int));
    let f = flat(segs);
    let e = flat(evicted(segs, cutoff));
    assert(f.subrange(f.len() - e.len(), f.len() as int) =~= e);
}

/// Appending, closing and evicting each leave at most one open segment, at the tail.
pub proof fn lemma_single_open_segment(segs: Seq<SegmentModel>, samples: Seq<i16>, tick: u64, cutoff: u64)
    requires
        single_open(segs),
    ensures
        single_open(appended(segs, samples, tick)),
        single_open(closed(segs, tick)),
        single_open(evicted(segs, cutoff)),
{
    lemma_evicted_is_subrange(segs, cutoff);
    let k = choose|k: int| 0 <= k <= segs.len() && evicted(segs, cutoff) == segs.subrange(k, segs.len() as int);
    let e = evicted(segs, cutoff);
    assert forall|i: int| 0 <= i < e.len() - 1 implies (#[trigger] e[i]).end_tick is Some by {
        assert(e[i] == segs[i + k]);
    }
}

/// Segment starts never decrease along the queue, and none lies after `tick`.
pub open spec fn ordered_below(segs: Seq<SegmentModel>, tick: u64) -> bool {
    &&& forall|i: int, j: int| 0 <= i <= j < segs.len() ==> (#[trigger] segs[i]).start_tick <= (#[trigger] segs[j]).start_tick
    &&& forall|i: int| 0 <= i < segs.len() ==> (#[trigger] segs[i]).start_tick <= tick
}

/// Appending at `tick`, closing and evicting keep the starts in order and not after `tick`.
pub proof fn lemma_ordered_preserved(segs: Seq<SegmentModel>, samples: Seq<i16>, tick: u64, cutoff: u64)
    requires
        ordered_below(segs, tick),
    ensures
        ordered_below(appended(segs, samples, tick), tick),
        ordered_below(closed(segs, tick), tick),
        ordered_below(evicted(segs, cutoff), tick),
{
    let a = appended(segs, samples, tick);
    assert forall|i: int| 0 <= i < a.len() implies (#[trigger] a[i]).start_tick == if i < segs.len() {
        segs[i].start_tick
    } else {
        tick
    } by {}
    let c = closed(segs, tick);
    assert forall|i: int| 0 <= i < c.len() implies (#[trigger] c[i]).start_tick == segs[i].start_tick by {}
    lemma_evicted_is_subrange(segs, cutoff);
    let k = choose|k: int| 0 <= k <= segs.len() && evicted(segs, cutoff) == segs.subrange(k, segs.len() as int);
    let e = evicted(segs, cutoff);
    assert forall|i: int| 0 <= i < e.len() implies (#[trigger] e[i]) == segs[i + k] by {}
}

/// The bound holds for any later tick too.
pub proof fn lemma_ordered_later(segs: Seq<SegmentModel>, tick: u64, later: u64)
    requires
        ordered_below(segs, tick),
        tick <= later,
    ensures
        ordered_below(segs, later),
{
}

/// After eviction at `cutoff`, only the open tail may have started before `cutoff`: every
/// closed segment left lies inside the window, so buffered audio reaches back at most one
/// window plus the open segment.
pub proof fn lemma_buffer_bound(segs: Seq<SegmentModel>, tick: u64, cutoff: u64)
    requires
        single_open(segs),
        ordered_below(segs, tick),
    ensures
        forall|i: int| 0 <= i < evicted(segs, cutoff).len() && (#[trigger] evicted(segs, cutoff)[i]).end_tick is Some
            ==> evicted(segs, cutoff)[i].start_tick >= cutoff,
    decreases segs.len(),
{
    if segs.len() > 0 && expired(segs[0], cutoff) {
        let rest = segs.drop_first();
        assert forall|i: int| 0 <= i < rest.len() - 1 implies (#[trigger] rest[i]).end_tick is Some by {
            assert(rest[i] == segs[i + 1]);
        }
        assert forall|i: int, j: int| 0 <= i <= j < rest.len() implies (#[trigger] rest[i]).start_tick <= (#[trigger] rest[j]).start_tick by {
            assert(rest[i] == segs[i + 1] && rest[j] == segs[j + 1]);
        }
        assert forall|i: int| 0 <= i < rest.len() implies (#[trigger] rest[i]).start_tick <= tick by {
            assert(rest[i] == segs[i + 1]);
        }
        lemma_buffer_bound(rest, tick, cutoff);
    } else if segs.len() > 0 {
        assert forall|i: int| 0 <= i < segs.len() && (#[trigger] segs[i]).end_tick is Some implies segs[i].start_tick >= cutoff by {
            if segs[0].end_tick is None {
                assert(segs.len() == 1);
            } else {
                assert(segs[0].start_tick <= segs[i].start_tick);
            }
        }
    }
}

/// Evicting twice at the same cutoff drops nothing more.
pub proof fn lemma_evicted_idempotent(segs: Seq<SegmentModel>, cutoff: u64)
    ensures
        evicted(evicted(segs, cutoff), cutoff) == evicted(segs, cutoff),
    decreases segs.len(),
{
    if segs.len() > 0 && expired(segs[0], cutoff) {
        lemma_evicted_idempotent(segs.drop_first(), cutoff);
    }
}

/// Mathematical view of a speaker's state.
pub ghost struct SpeakerModel {
    pub user_id: u64,
    pub segments: Seq<SegmentModel>,
    pub last_activity: u64,
}

/// Buffered audio of one speaker (one SSRC) together with the user behind it.
#[derive(Debug)]
pub struct SpeakerState {
    pub user_id: u64,
    pub segments: Vec<VoiceSegment>,
    /// Wall clock of the last voice activity, in seconds.
    pub last_activity: u64,
}

impl View for SpeakerState {
    type V = SpeakerModel;

    open spec fn view(&self) -> SpeakerModel {
        SpeakerModel {
            user_id: self.user_id,
            segments: models(self.segments@),
            last_activity: self.last_activity,
        }
    }
}

impl VoiceSegment {
    /// A deep copy of the segment.
    pub fn duplicate(&self) -> (r: Self)
        ensures
            r@ == self@,
    {
        let samples = self.samples.clone();
        assert(samples@ =~= self.samples@);
        VoiceSegment { start_tick: self.start_tick, end_tick: self.end_tick, samples }
    }
}

impl SpeakerState {
    /// Well-formedness: at most one open segment, and it is the tail.
    pub open spec fn wf(&self) -> bool {
        single_open(self@.segments)
    }

    /// A speaker with no audio yet.
    pub fn new(user_id: u64, now: u64) -> (r: Self)
        ensures
            r.wf(),
            r@.user_id == user_id,
            r@.segments == Seq::<SegmentModel>::empty(),
            r@.last_activity == now,
    {
        let r = SpeakerState { user_id, segments: Vec::new(), last_activity: now };
        assert(r@.segments =~= Seq::<SegmentModel>::empty());
        r
    }

    /// Whether the last segment is still open.
    pub fn has_open_tail(&self) -> (r: bool)
        ensures
            r == tail_open(self@.segments),
    {
        let n = self.segments.len();
        n > 0 && self.segments[n - 1].end_tick.is_none()
    }

    /// Appends samples delivered at `tick`, and records `now` as the last activity.
    pub fn append(&mut self, samples: &[i16], tick: u64, now: u64)
        requires
            old(self).wf(),
        ensures
            final(self).wf(),
            final(self)@.segments == appended(old(self)@.segments, samples@, tick),
            final(self)@.user_id == old(self)@.user_id,
            final(self)@.last_activity == now,
    {
        let ghost old_segs = self@.segments;
        let mut extra: Vec<i16> = vstd::slice::slice_to_vec(samples);
        if self.has_open_tail() {
            let mut tail = self.segments.pop().unwrap();
            tail.samples.append(&mut extra);
            self.segments.push(tail);
        } else {
            self.segments.push(VoiceSegment { start_tick: tick, end_tick: None, samples: extra });
        }
        self.last_activity = now;
        assert(self@.segments =~= appended(old_segs, samples@, tick));
    }

    /// Closes the open tail, if any, at `tick`.
    pub fn close(&mut self, tick: u64)
        requires
            old(self).wf(),
        ensures
            final(self).wf(),
            final(self)@.segments == closed(old(self)@.segments, tick),
            final(self)@.user_id == old(self)@.user_id,
            final(self)@.last_activity == old(self)@.last_activity,
    {
        let ghost old_segs = self@.segments;
        if self.has_open_tail() {
            let mut tail = self.segments.pop().unwrap();
            tail.end_tick = Some(tick);
            self.segments.push(tail);
            assert(self@.segments =~= closed(old_segs, tick));
        }
    }

    /// Drops the closed segments at the head that started before the window of
    /// `window_ticks` ending at `now_tick`.
    pub fn evict_expired(&mut self, now_tick: u64, window_ticks: u64)
        requires
            old(self).wf(),
        ensures
            final(self).wf(),
            final(self)@.segments == evicted(old(self)@.segments, window_cutoff(now_tick, window_ticks)),
            final(self)@.user_id == old(self)@.user_id,
            final(self)@.last_activity == old(self)@.last_activity,
    {
        let cutoff = crate::timeline::cutoff_tick(now_tick, window_ticks);
        let ghost segs = self@.segments;
        let mut k: usize = 0;
        assert(segs.subrange(0, segs.len() as int) =~= segs);
        while k < self.segments.len()
            && self.segments[k].end_tick.is_some()
            && self.segments[k].start_tick < cutoff
            invariant
                0 <= k <= self.segments.len(),
                self@.segments == segs,
                evicted(segs, cutoff) == evicted(segs.subrange(k as int, segs.len() as int), cutoff),
            decreases self.segments.len() - k,
        {
            let ghost rest = segs.subrange(k as int, segs.len() as int);
            assert(rest.drop_first() =~= segs.subrange(k + 1, segs.len() as int));
            k = k + 1;
        }
        let kept = self.segments.split_off(k);
        self.segments = kept;
        assert(self@.segments =~= segs.subrange(k as int, segs.len() as int));
    }

    /// A deep copy of the segments; the buffer itself is left as it is.
    pub fn snapshot_copy(&self) -> (r: Vec<VoiceSegment>)
        ensures
            models(r@) == self@.segments,
    {
        let mut r: Vec<VoiceSegment> = Vec::new();
        let mut i: usize = 0;
        while i < self.segments.len()
            invariant
                0 <= i <= self.segments.len(),
                models(r@) =~= models(self.segments@).take(i as int),
            decreases self.segments.len() - i,
        {
            let seg = self.segments[i].duplicate();
            let ghost before = r@;
            r.push(seg);
            assert(models(r@) =~= models(before).push(seg@));
            assert(models(self.segments@).take(i + 1) =~= models(self.segments@).take(i as int).push(self.segments@[i as int]@));
            i = i + 1;
        }
        assert(models(self.segments@).take(i as int) =~= models(self.segments@));
        r
    }
}

} // verus!

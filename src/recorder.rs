//! Per-guild recorder: the speaker table and its reactions to voice events.
use vstd::prelude::*;
use crate::segment::{
    SpeakerModel, SpeakerState, VoiceSegment, SegmentModel, appended, closed, evicted, models,
    flat, is_suffix, ordered_below, single_open,
};
use crate::snapshot::{SpeakerTrack, all_non_empty, clip_segments, clipped, track_models};
use crate::timeline::{RecorderConfig, window_cutoff};

verus! {

/// Decoded audio of one speaker in one voice frame; `pcm` is absent when the transport did not
/// decode it.
#[derive(Debug)]
pub struct TickEntry {
    pub ssrc: u32,
    pub pcm: Option<Vec<i16>>,
}

impl View for TickEntry {
    type V = (u32, Option<Seq<i16>>);

    open spec fn view(&self) -> (u32, Option<Seq<i16>>) {
        (self.ssrc, match self.pcm {
            Some(p) => Some(p@),
            None => None,
        })
    }
}

/// The views of a voice frame's entries.
pub open spec fn entry_models(es: Seq<TickEntry>) -> Seq<(u32, Option<Seq<i16>>)> {
    es.map_values(|e: TickEntry| e@)
}

/// A speaker known to the recorder, under its SSRC.
#[derive(Debug)]
pub struct SpeakerEntry {
    pub ssrc: u32,
    pub state: SpeakerState,
}

/// The views of the speaker table.
pub open spec fn table_models(t: Seq<SpeakerEntry>) -> Seq<(u32, SpeakerModel)> {
    t.map_values(|e: SpeakerEntry| (e.ssrc, e.state@))
}

/// Whether the table holds `ssrc`.
pub open spec fn has_ssrc(t: Seq<(u32, SpeakerModel)>, ssrc: u32) -> bool {
    exists|i: int| 0 <= i < t.len() && (#[trigger] t[i]).0 == ssrc
}

/// No SSRC occurs twice in the table.
pub open spec fn keys_unique(t: Seq<(u32, SpeakerModel)>) -> bool {
    forall|i: int, j: int| 0 <= i < t.len() && 0 <= j < t.len() && i != j ==> (#[trigger] t[i]).0 != (#[trigger] t[j]).0
}

/// Whether some entry of the frame names `ssrc`.
pub open spec fn mentioned(es: Seq<(u32, Option<Seq<i16>>)>, ssrc: u32) -> bool {
    exists|i: int| 0 <= i < es.len() && (#[trigger] es[i]).0 == ssrc
}

/// The speaker after the decoded audio of the frame's entries for `ssrc` was appended at `tick`.
pub open spec fn fed(
    st: SpeakerModel,
    es: Seq<(u32, Option<Seq<i16>>)>,
    ssrc: u32,
    tick: u64,
    now: u64,
) -> SpeakerModel
    decreases es.len(),
{
    if es.len() == 0 {
        st
    } else {
        let prev = fed(st, es.drop_last(), ssrc, tick, now);
        let e = es.last();
        if e.0 == ssrc && e.1 is Some {
            SpeakerModel {
                segments: appended(prev.segments, e.1->Some_0, tick),
                last_activity: now,
                ..prev
            }
        } else {
            prev
        }
    }
}

/// The speaker after a whole voice frame at `tick`: its audio is appended; a speaker the frame
/// does not name falls silent and loses its expired segments. A speaker the frame names keeps
/// all of its earlier segments.
pub open spec fn ticked(
    st: SpeakerModel,
    es: Seq<(u32, Option<Seq<i16>>)>,
    ssrc: u32,
    tick: u64,
    now: u64,
    window_ticks: u64,
) -> SpeakerModel {
    let f = fed(st, es, ssrc, tick, now);
    if !mentioned(es, ssrc) {
        SpeakerModel { segments: evicted(closed(f.segments, tick), window_cutoff(tick, window_ticks)), ..f }
    } else {
        f
    }
}

/// The SSRCs of the frame's entries that carry no decoded audio, in order.
pub open spec fn undecoded(es: Seq<(u32, Option<Seq<i16>>)>) -> Seq<u32>
    decreases es.len(),
{
    if es.len() == 0 {
        Seq::empty()
    } else if es.last().1 is None {
        undecoded(es.drop_last()).push(es.last().0)
    } else {
        undecoded(es.drop_last())
    }
}

/// The SSRCs of the frame's entries with audio for a speaker that the table does not hold.
pub open spec fn unannounced(es: Seq<(u32, Option<Seq<i16>>)>, t: Seq<(u32, SpeakerModel)>) -> Seq<u32>
    decreases es.len(),
{
    if es.len() == 0 {
        Seq::empty()
    } else if es.last().1 is Some && !has_ssrc(t, es.last().0) {
        unannounced(es.drop_last(), t).push(es.last().0)
    } else {
        unannounced(es.drop_last(), t)
    }
}

/// The tick counter after one more voice frame.
pub open spec fn next_tick(t: u64) -> u64 {
    if t < u64::MAX {
        (t + 1) as u64
    } else {
        t
    }
}

/// What a voice frame brought that the caller should log.
#[derive(Debug)]
pub struct TickReport {
    /// SSRCs whose entry carried no decoded audio (the decoder is off).
    pub undecoded: Vec<u32>,
    /// SSRCs that sent audio before they were announced.
    pub unannounced: Vec<u32>,
}

/// A voice event that the session hands to the recorder.
#[derive(Debug)]
#[allow(inconsistent_fields)]
pub enum VoiceEvent {
    /// A speaker's SSRC was announced, with the user behind it when known.
    SpeakingStateUpdate { ssrc: u32, user_id: Option<u64> },
    /// One 20 ms frame with the decoded audio of everyone who spoke in it.
    VoiceTick { speaking: Vec<TickEntry> },
    /// A speaker started or stopped speaking.
    SpeakingEdge { ssrc: u32, speaking: bool },
}

/// What handling a voice event produced.
#[derive(Debug)]
pub enum EventOutcome {
    /// An announcement; `added` says whether a new speaker entered the table.
    Announced { ssrc: u32, added: bool },
    /// A voice frame and what it brought to log.
    Ticked(TickReport),
    /// A speaking edge.
    Edge,
}

/// What a snapshot collects from the table at `tick`: for each speaker, in table order, its
/// segments after eviction, cut to the window; speakers left without audio are skipped.
pub open spec fn collected(t: Seq<(u32, SpeakerModel)>, tick: u64, window_ticks: u64) -> Seq<(u64, Seq<SegmentModel>)>
    decreases t.len(),
{
    if t.len() == 0 {
        Seq::empty()
    } else {
        let cutoff = window_cutoff(tick, window_ticks);
        let segs = clipped(evicted(t.last().1.segments, cutoff), cutoff);
        if segs.len() == 0 {
            collected(t.drop_last(), tick, window_ticks)
        } else {
            collected(t.drop_last(), tick, window_ticks).push((t.last().1.user_id, segs))
        }
    }
}

/// The decoded audio that the frame's entries deliver for `ssrc`, in order.
pub open spec fn delivered(es: Seq<(u32, Option<Seq<i16>>)>, ssrc: u32) -> Seq<i16>
    decreases es.len(),
{
    if es.len() == 0 {
        Seq::empty()
    } else if es.last().0 == ssrc && es.last().1 is Some {
        delivered(es.drop_last(), ssrc) + es.last().1->Some_0
    } else {
        delivered(es.drop_last(), ssrc)
    }
}

/// Feeding a frame's audio to a speaker appends exactly what the frame delivers for it, in
/// order, and keeps its buffer well-formed.
pub proof fn lemma_fed_appends_in_order(
    st: SpeakerModel,
    es: Seq<(u32, Option<Seq<i16>>)>,
    ssrc: u32,
    tick: u64,
    now: u64,
)
    requires
        single_open(st.segments),
        ordered_below(st.segments, tick),
    ensures
        flat(fed(st, es, ssrc, tick, now).segments) == flat(st.segments) + delivered(es, ssrc),
        single_open(fed(st, es, ssrc, tick, now).segments),
        ordered_below(fed(st, es, ssrc, tick, now).segments, tick),
        fed(st, es, ssrc, tick, now).user_id == st.user_id,
    decreases es.len(),
{
    if es.len() == 0 {
        assert(flat(st.segments) + delivered(es, ssrc) =~= flat(st.segments));
    } else {
        lemma_fed_appends_in_order(st, es.drop_last(), ssrc, tick, now);
        let prev = fed(st, es.drop_last(), ssrc, tick, now);
        let e = es.last();
        if e.0 == ssrc && e.1 is Some {
            crate::segment::lemma_append_preserves_order(prev.segments, e.1->Some_0, tick, 0);
            crate::segment::lemma_single_open_segment(prev.segments, e.1->Some_0, tick, 0);
            crate::segment::lemma_ordered_preserved(prev.segments, e.1->Some_0, tick, 0);
            assert(flat(st.segments) + delivered(es, ssrc) =~= flat(st.segments) + delivered(es.drop_last(), ssrc) + e.1->Some_0);
        }
    }
}

/// A voice frame keeps every speaker's audio in delivery order. A speaker the frame names
/// holds afterwards exactly what it held before followed by what the frame delivered for it;
/// a speaker it does not name falls silent and can only lose a prefix that left the window.
pub proof fn lemma_tick_preserves_order(
    st: SpeakerModel,
    es: Seq<(u32, Option<Seq<i16>>)>,
    ssrc: u32,
    tick: u64,
    now: u64,
    window_ticks: u64,
)
    requires
        single_open(st.segments),
        ordered_below(st.segments, tick),
    ensures
        mentioned(es, ssrc) ==> flat(ticked(st, es, ssrc, tick, now, window_ticks).segments)
            == flat(st.segments) + delivered(es, ssrc),
        !mentioned(es, ssrc) ==> delivered(es, ssrc) == Seq::<i16>::empty() && is_suffix(
            flat(ticked(st, es, ssrc, tick, now, window_ticks).segments),
            flat(st.segments),
        ),
        single_open(ticked(st, es, ssrc, tick, now, window_ticks).segments),
{
    lemma_fed_appends_in_order(st, es, ssrc, tick, now);
    let f = fed(st, es, ssrc, tick, now);
    let cutoff = window_cutoff(tick, window_ticks);
    if !mentioned(es, ssrc) {
        lemma_nothing_delivered(es, ssrc);
        assert(flat(st.segments) + delivered(es, ssrc) =~= flat(st.segments));
        crate::segment::lemma_append_preserves_order(f.segments, Seq::empty(), tick, cutoff);
        crate::segment::lemma_single_open_segment(f.segments, Seq::empty(), tick, cutoff);
        crate::segment::lemma_append_preserves_order(closed(f.segments, tick), Seq::empty(), tick, cutoff);
        crate::segment::lemma_single_open_segment(closed(f.segments, tick), Seq::empty(), tick, cutoff);
    }
}

/// A frame that does not name `ssrc` delivers nothing for it.
proof fn lemma_nothing_delivered(es: Seq<(u32, Option<Seq<i16>>)>, ssrc: u32)
    requires
        !mentioned(es, ssrc),
    ensures
        delivered(es, ssrc) == Seq::<i16>::empty(),
    decreases es.len(),
{
    if es.len() > 0 {
        assert(es[es.len() - 1].0 != ssrc);
        assert forall|i: int| 0 <= i < es.drop_last().len() implies (#[trigger] es.drop_last()[i]).0 != ssrc by {
            assert(es.drop_last()[i] == es[i]);
        }
        lemma_nothing_delivered(es.drop_last(), ssrc);
    }
}

/// After a voice frame, every closed segment of a speaker that fell silent in it lies inside
/// the window: only the open tail may reach further back. Speakers still talking keep their
/// segments until they fall silent, stop or a snapshot is taken.
pub proof fn lemma_tick_window_bound(
    st: SpeakerModel,
    es: Seq<(u32, Option<Seq<i16>>)>,
    ssrc: u32,
    tick: u64,
    now: u64,
    window_ticks: u64,
)
    requires
        single_open(st.segments),
        ordered_below(st.segments, tick),
        !mentioned(es, ssrc),
    ensures
        forall|i: int|
            0 <= i < ticked(st, es, ssrc, tick, now, window_ticks).segments.len()
                && (#[trigger] ticked(st, es, ssrc, tick, now, window_ticks).segments[i]).end_tick is Some
                ==> ticked(st, es, ssrc, tick, now, window_ticks).segments[i].start_tick >= window_cutoff(tick, window_ticks),
{
    lemma_fed_appends_in_order(st, es, ssrc, tick, now);
    let f = fed(st, es, ssrc, tick, now);
    let cutoff = window_cutoff(tick, window_ticks);
    crate::segment::lemma_single_open_segment(f.segments, Seq::empty(), tick, cutoff);
    crate::segment::lemma_ordered_preserved(f.segments, Seq::empty(), tick, cutoff);
    crate::segment::lemma_buffer_bound(closed(f.segments, tick), tick, cutoff);
}

/// The table after every speaker lost its segments that expired at `cutoff`.
pub open spec fn evict_all(t: Seq<(u32, SpeakerModel)>, cutoff: u64) -> Seq<(u32, SpeakerModel)> {
    Seq::new(t.len(), |i: int| (t[i].0, SpeakerModel { segments: evicted(t[i].1.segments, cutoff), ..t[i].1 }))
}

/// Collecting again after the eviction that a collection made gives the same tracks.
pub proof fn lemma_collect_repeatable(t: Seq<(u32, SpeakerModel)>, tick: u64, window_ticks: u64)
    ensures
        collected(evict_all(t, window_cutoff(tick, window_ticks)), tick, window_ticks) == collected(t, tick, window_ticks),
    decreases t.len(),
{
    let cutoff = window_cutoff(tick, window_ticks);
    let e = evict_all(t, cutoff);
    if t.len() > 0 {
        assert(e.drop_last() =~= evict_all(t.drop_last(), cutoff));
        lemma_collect_repeatable(t.drop_last(), tick, window_ticks);
        crate::segment::lemma_evicted_idempotent(t.last().1.segments, cutoff);
        assert(e.last().1.segments == evicted(t.last().1.segments, cutoff));
    }
}

/// The recorder after an announcement of `ssrc` with `user_id`, at wall clock `now`.
pub open spec fn after_announcement(m: RecorderModel, ssrc: u32, user_id: Option<u64>, now: u64) -> RecorderModel {
    if user_id is Some && !has_ssrc(m.speakers, ssrc) {
        RecorderModel {
            speakers: m.speakers.push(
                (ssrc, SpeakerModel { user_id: user_id->Some_0, segments: Seq::empty(), last_activity: now }),
            ),
            ..m
        }
    } else {
        m
    }
}

/// The recorder after a voice frame with entries `es`, at wall clock `now`.
pub open spec fn after_tick(m: RecorderModel, es: Seq<(u32, Option<Seq<i16>>)>, now: u64) -> RecorderModel {
    let tick = next_tick(m.tick_counter);
    RecorderModel {
        tick_counter: tick,
        speakers: Seq::new(
            m.speakers.len(),
            |i: int| (m.speakers[i].0, ticked(m.speakers[i].1, es, m.speakers[i].0, tick, now, m.window_ticks)),
        ),
        ..m
    }
}

/// The recorder after `ssrc` started (`speaking`) or stopped speaking.
pub open spec fn after_edge(m: RecorderModel, ssrc: u32, speaking: bool) -> RecorderModel {
    if speaking || !has_ssrc(m.speakers, ssrc) {
        m
    } else {
        let i = choose|i: int| 0 <= i < m.speakers.len() && (#[trigger] m.speakers[i]).0 == ssrc;
        RecorderModel {
            speakers: m.speakers.update(
                i,
                (ssrc, SpeakerModel {
                    segments: evicted(
                        closed(m.speakers[i].1.segments, m.tick_counter),
                        window_cutoff(m.tick_counter, m.window_ticks),
                    ),
                    ..m.speakers[i].1
                }),
            ),
            ..m
        }
    }
}

/// Whether the speaker was idle for longer than `idle_seconds` at wall clock `now`.
pub open spec fn idle_at(st: SpeakerModel, now: u64, idle_seconds: u64) -> bool {
    now > st.last_activity && now - st.last_activity > idle_seconds
}

/// The recorder after the collector of `ssrc` checked it at wall clock `now`: an idle
/// speaker is removed, anything else is left as it is.
pub open spec fn after_idle_check(m: RecorderModel, ssrc: u32, now: u64) -> RecorderModel {
    if has_ssrc(m.speakers, ssrc) {
        let i = choose|i: int| 0 <= i < m.speakers.len() && (#[trigger] m.speakers[i]).0 == ssrc;
        if idle_at(m.speakers[i].1, now, m.idle_seconds) {
            RecorderModel { speakers: m.speakers.remove(i), ..m }
        } else {
            m
        }
    } else {
        m
    }
}

/// The recorder after `event`, at wall clock `now`.
pub open spec fn after_event(m: RecorderModel, event: VoiceEvent, now: u64) -> RecorderModel {
    match event {
        VoiceEvent::SpeakingStateUpdate { ssrc, user_id } => after_announcement(m, ssrc, user_id, now),
        VoiceEvent::VoiceTick { speaking } => after_tick(m, entry_models(speaking@), now),
        VoiceEvent::SpeakingEdge { ssrc, speaking } => after_edge(m, ssrc, speaking),
    }
}

/// Whether `r` is what handling `event` on a recorder in state `m` reports.
pub open spec fn outcome_of(m: RecorderModel, event: VoiceEvent, r: EventOutcome) -> bool {
    match event {
        VoiceEvent::SpeakingStateUpdate { ssrc, user_id } => match r {
            EventOutcome::Announced { ssrc: s, added } => s == ssrc && added == (user_id is Some
                && !has_ssrc(m.speakers, ssrc)),
            _ => false,
        },
        VoiceEvent::VoiceTick { speaking } => match r {
            EventOutcome::Ticked(report) => report.undecoded@ == undecoded(entry_models(speaking@))
                && report.unannounced@ == unannounced(entry_models(speaking@), m.speakers),
            _ => false,
        },
        VoiceEvent::SpeakingEdge { .. } => r is Edge,
    }
}

/// Mathematical view of a guild recorder.
pub ghost struct RecorderModel {
    pub guild_id: u64,
    pub speakers: Seq<(u32, SpeakerModel)>,
    pub tick_counter: u64,
    pub window_ticks: u64,
    pub idle_seconds: u64,
}

/// The recorder of one guild's voice session.
#[derive(Debug)]
pub struct GuildRecorder {
    guild_id: u64,
    speakers: Vec<SpeakerEntry>,
    tick_counter: u64,
    window_ticks: u64,
    idle_seconds: u64,
}

impl View for GuildRecorder {
    type V = RecorderModel;

    closed spec fn view(&self) -> RecorderModel {
        RecorderModel {
            guild_id: self.guild_id,
            speakers: table_models(self.speakers@),
            tick_counter: self.tick_counter,
            window_ticks: self.window_ticks,
            idle_seconds: self.idle_seconds,
        }
    }
}

/// Well-formedness of a recorder's view: SSRCs are unique; every speaker has at most one
/// open segment, at its tail, and its segments start in order, none after the current tick.
pub open spec fn recorder_wf(m: RecorderModel) -> bool {
    &&& keys_unique(m.speakers)
    &&& forall|i: int| 0 <= i < m.speakers.len() ==> single_open((#[trigger] m.speakers[i]).1.segments)
    &&& forall|i: int| 0 <= i < m.speakers.len() ==> ordered_below((#[trigger] m.speakers[i]).1.segments, m.tick_counter)
}

/// In a table with unique keys only one position holds a given SSRC.
proof fn lemma_unique_index(m: RecorderModel, i: int)
    requires
        recorder_wf(m),
        0 <= i < m.speakers.len(),
    ensures
        forall|j: int| 0 <= j < m.speakers.len() && m.speakers[j].0 == m.speakers[i].0 ==> j == i,
{
}

/// Replacing one speaker's state by a well-formed one keeps the table well-formed.
proof fn lemma_update_wf(m: RecorderModel, i: int, st: SpeakerModel)
    requires
        recorder_wf(m),
        0 <= i < m.speakers.len(),
        single_open(st.segments),
        ordered_below(st.segments, m.tick_counter),
    ensures
        recorder_wf(RecorderModel { speakers: m.speakers.update(i, (m.speakers[i].0, st)), ..m }),
{
    let t = m.speakers.update(i, (m.speakers[i].0, st));
    assert forall|a: int, b: int| 0 <= a < t.len() && 0 <= b < t.len() && a != b implies (#[trigger] t[a]).0 != (#[trigger] t[b]).0 by {
        assert(t[a].0 == m.speakers[a].0 && t[b].0 == m.speakers[b].0);
    }
}

/// Removing one speaker keeps the table well-formed, and its SSRC leaves the table.
proof fn lemma_remove_wf(m: RecorderModel, i: int)
    requires
        recorder_wf(m),
        0 <= i < m.speakers.len(),
    ensures
        recorder_wf(RecorderModel { speakers: m.speakers.remove(i), ..m }),
        !has_ssrc(m.speakers.remove(i), m.speakers[i].0),
{
    let t = m.speakers.remove(i);
    assert forall|a: int| 0 <= a < t.len() implies (#[trigger] t[a]) == m.speakers[if a < i { a } else { a + 1 }] by {}
    assert forall|a: int, b: int| 0 <= a < t.len() && 0 <= b < t.len() && a != b implies (#[trigger] t[a]).0 != (#[trigger] t[b]).0 by {
        assert(t[a] == m.speakers[if a < i { a } else { a + 1 }]);
        assert(t[b] == m.speakers[if b < i { b } else { b + 1 }]);
    }
    assert forall|a: int| 0 <= a < t.len() implies single_open((#[trigger] t[a]).1.segments) by {
        assert(t[a] == m.speakers[if a < i { a } else { a + 1 }]);
    }
    assert forall|a: int| 0 <= a < t.len() implies ordered_below((#[trigger] t[a]).1.segments, m.tick_counter) by {
        assert(t[a] == m.speakers[if a < i { a } else { a + 1 }]);
    }
    if has_ssrc(t, m.speakers[i].0) {
        let a = choose|a: int| 0 <= a < t.len() && (#[trigger] t[a]).0 == m.speakers[i].0;
        assert(t[a] == m.speakers[if a < i { a } else { a + 1 }]);
    }
}

/// Whether the frame names `ssrc`.
fn scan_entries(entries: &Vec<TickEntry>, ssrc: u32) -> (r: bool)
    ensures
        r == mentioned(entry_models(entries@), ssrc),
{
    let ghost es = entry_models(entries@);
    let mut i: usize = 0;
    while i < entries.len()
        invariant
            0 <= i <= entries.len(),
            es == entry_models(entries@),
            forall|k: int| 0 <= k < i ==> (#[trigger] es[k]).0 != ssrc,
        decreases entries.len() - i,
    {
        assert(es[i as int] == entries@[i as int]@);
        if entries[i].ssrc == ssrc {
            return true;
        }
        i = i + 1;
    }
    false
}

/// Eventual reclaim of an idle speaker. Its last voice activity was at `last` (wall clock
/// seconds) and its collector, started no later than that, wakes every `period` seconds, at
/// `start + period`, `start + 2 * period`, ... While no voice activity moves `last`, every
/// wake up to `last + idle` leaves the recorder as it is, and the `k`-th wake, the first after
/// `last + idle` and no later than `last + idle + period`, removes the speaker.
pub proof fn lemma_gc_eventual_reclaim(m: RecorderModel, i: int, start: u64, period: u64) -> (k: nat)
    requires
        recorder_wf(m),
        0 <= i < m.speakers.len(),
        start <= m.speakers[i].1.last_activity,
        period > 0,
        m.speakers[i].1.last_activity + m.idle_seconds + period <= u64::MAX,
    ensures
        k >= 1,
        m.speakers[i].1.last_activity + m.idle_seconds < start + k * period,
        start + k * period <= m.speakers[i].1.last_activity + m.idle_seconds + period,
        forall|j: nat| 1 <= j < k ==> #[trigger] after_idle_check(m, m.speakers[i].0, (start + j * period) as u64) == m,
        !has_ssrc(after_idle_check(m, m.speakers[i].0, (start + k * period) as u64).speakers, m.speakers[i].0),
{
    let ssrc = m.speakers[i].0;
    let last = m.speakers[i].1.last_activity as int;
    let idle = m.idle_seconds as int;
    let p = period as int;
    let d = last + idle - start;
    let q = d / p;
    vstd::arithmetic::div_mod::lemma_fundamental_div_mod(d, p);
    assert(0 <= d % p < p);
    assert(q >= 0) by (nonlinear_arith)
        requires
            d >= 0,
            p > 0,
            q == d / p,
    ;
    let k = (q + 1) as nat;
    assert(q * p <= d < (q + 1) * p) by (nonlinear_arith)
        requires
            d == p * q + d % p,
            0 <= d % p < p,
    ;
    assert(k * p == q * p + p) by (nonlinear_arith)
        requires
            k == q + 1,
    ;
    lemma_unique_index(m, i);
    assert(has_ssrc(m.speakers, ssrc));
    let c = choose|c: int| 0 <= c < m.speakers.len() && (#[trigger] m.speakers[c]).0 == ssrc;
    assert(c == i);
    assert forall|j: nat| 1 <= j < k implies #[trigger] after_idle_check(m, ssrc, (start + j * period) as u64) == m by {
        assert(j * p <= q * p) by (nonlinear_arith)
            requires
                j <= q,
                p > 0,
        ;
    }
    lemma_remove_wf(m, i);
    k
}

impl GuildRecorder {
    /// Well-formedness of the recorder.
    pub open spec fn wf(&self) -> bool {
        recorder_wf(self@)
    }

    proof fn lemma_view_wf(&self)
        requires
            self.wf(),
        ensures
            forall|i: int| 0 <= i < self.speakers@.len() ==> (#[trigger] self.speakers@[i]).state.wf(),
            forall|i: int| 0 <= i < self.speakers@.len() ==> self@.speakers[i].0 == (#[trigger] self.speakers@[i]).ssrc,
    {
        assert forall|i: int| 0 <= i < self.speakers@.len() implies (#[trigger] self.speakers@[i]).state.wf() by {
            assert(self@.speakers[i].1 == self.speakers@[i].state@);
        }
    }

    /// A recorder for `guild_id` with no speakers, at tick zero.
    pub fn new(guild_id: u64, config: RecorderConfig) -> (r: Self)
        requires
            config.wf(),
        ensures
            r.wf(),
            r@.guild_id == guild_id,
            r@.speakers == Seq::<(u32, SpeakerModel)>::empty(),
            r@.tick_counter == 0,
            r@.window_ticks == config.window_ticks_spec(),
            r@.idle_seconds == config.user_idle_seconds,
    {
        let r = GuildRecorder {
            guild_id,
            speakers: Vec::new(),
            tick_counter: 0,
            window_ticks: config.window_ticks(),
            idle_seconds: config.user_idle_seconds,
        };
        assert(r@.speakers =~= Seq::<(u32, SpeakerModel)>::empty());
        r
    }

    /// The guild this recorder belongs to.
    pub fn guild_id(&self) -> (r: u64)
        ensures
            r == self@.guild_id,
    {
        self.guild_id
    }

    /// The number of voice frames received so far.
    pub fn tick_counter(&self) -> (r: u64)
        ensures
            r == self@.tick_counter,
    {
        self.tick_counter
    }

    /// The number of known speakers.
    pub fn speaker_count(&self) -> (r: usize)
        ensures
            r == self@.speakers.len(),
    {
        self.speakers.len()
    }

    /// The position of `ssrc` in the speaker table.
    pub fn find(&self, ssrc: u32) -> (r: Option<usize>)
        ensures
            match r {
                Some(i) => i < self@.speakers.len() && self@.speakers[i as int].0 == ssrc,
                None => !has_ssrc(self@.speakers, ssrc),
            },
    {
        let mut i: usize = 0;
        while i < self.speakers.len()
            invariant
                0 <= i <= self.speakers.len(),
                forall|j: int| 0 <= j < i ==> (#[trigger] self@.speakers[j]).0 != ssrc,
            decreases self.speakers.len() - i,
        {
            if self.speakers[i].ssrc == ssrc {
                return Some(i);
            }
            i = i + 1;
        }
        None
    }

    /// Whether `ssrc` is a known speaker.
    pub fn has_speaker(&self, ssrc: u32) -> (r: bool)
        ensures
            r == has_ssrc(self@.speakers, ssrc),
    {
        self.find(ssrc).is_some()
    }

    /// The user behind `ssrc`, if it is known.
    pub fn user_of(&self, ssrc: u32) -> (r: Option<u64>)
        ensures
            match r {
                Some(u) => exists|i: int| 0 <= i < self@.speakers.len() && self@.speakers[i].0 == ssrc && self@.speakers[i].1.user_id == u,
                None => !has_ssrc(self@.speakers, ssrc),
            },
    {
        match self.find(ssrc) {
            Some(i) => Some(self.speakers[i].state.user_id),
            None => None,
        }
    }

    /// A copy of the buffered segments of `ssrc`, if it is known.
    pub fn segments_of(&self, ssrc: u32) -> (r: Option<Vec<VoiceSegment>>)
        ensures
            match r {
                Some(v) => exists|i: int| 0 <= i < self@.speakers.len() && self@.speakers[i].0 == ssrc && self@.speakers[i].1.segments == models(v@),
                None => !has_ssrc(self@.speakers, ssrc),
            },
    {
        match self.find(ssrc) {
            Some(i) => Some(self.speakers[i].state.snapshot_copy()),
            None => None,
        }
    }

    /// A speaker announcement: an unknown `ssrc` that comes with a user is added with no audio
    /// and `now` as its last activity; anything else leaves the table as it is. Returns whether
    /// the speaker was added (and so needs a collector).
    pub fn handle_speaking_state(&mut self, ssrc: u32, user_id: Option<u64>, now: u64) -> (added: bool)
        requires
            old(self).wf(),
        ensures
            final(self).wf(),
            added == (user_id is Some && !has_ssrc(old(self)@.speakers, ssrc)),
            final(self)@ == after_announcement(old(self)@, ssrc, user_id, now),
            added ==> final(self)@ == (RecorderModel {
                speakers: old(self)@.speakers.push(
                    (ssrc, SpeakerModel {
                        user_id: user_id->Some_0,
                        segments: Seq::empty(),
                        last_activity: now,
                    }),
                ),
                ..old(self)@
            }),
            !added ==> final(self)@ == old(self)@,
    {
        match user_id {
            Some(uid) => {
                if self.has_speaker(ssrc) {
                    false
                } else {
                    let ghost before = self@;
                    let state = SpeakerState::new(uid, now);
                    self.speakers.push(SpeakerEntry { ssrc, state });
                    assert(self@.speakers =~= before.speakers.push(
                        (ssrc, SpeakerModel { user_id: uid, segments: Seq::empty(), last_activity: now }),
                    ));
                    assert(self.wf()) by {
                        let t = self@.speakers;
                        assert forall|i: int, j: int| 0 <= i < t.len() && 0 <= j < t.len() && i != j implies (#[trigger] t[i]).0 != (#[trigger] t[j]).0 by {
                            if i < before.speakers.len() && j < before.speakers.len() {
                                assert(before.speakers[i] == t[i] && before.speakers[j] == t[j]);
                            } else if i < before.speakers.len() {
                                assert(before.speakers[i] == t[i]);
                            } else {
                                assert(before.speakers[j] == t[j]);
                            }
                        }
                        assert forall|i: int| 0 <= i < t.len() implies single_open((#[trigger] t[i]).1.segments) by {
                            if i < before.speakers.len() {
                                assert(before.speakers[i] == t[i]);
                            }
                        }
                        assert forall|i: int| 0 <= i < t.len() implies ordered_below((#[trigger] t[i]).1.segments, before.tick_counter) by {
                            if i < before.speakers.len() {
                                assert(before.speakers[i] == t[i]);
                            }
                        }
                    }
                    true
                }
            },
            None => false,
        }
    }

    /// A speaking edge: when `ssrc` stops speaking its open segment is closed at the current
    /// tick and its expired segments are dropped. Starting to speak, or an unknown `ssrc`,
    /// changes nothing.
    pub fn handle_speaking_edge(&mut self, ssrc: u32, speaking: bool)
        requires
            old(self).wf(),
        ensures
            final(self).wf(),
            final(self)@ == after_edge(old(self)@, ssrc, speaking),
            (speaking || !has_ssrc(old(self)@.speakers, ssrc)) ==> final(self)@ == old(self)@,
            (!speaking && has_ssrc(old(self)@.speakers, ssrc)) ==> exists|i: int|
                0 <= i < old(self)@.speakers.len() && old(self)@.speakers[i].0 == ssrc
                && final(self)@ == (RecorderModel {
                    speakers: old(self)@.speakers.update(
                        i,
                        (ssrc, SpeakerModel {
                            segments: evicted(
                                closed(old(self)@.speakers[i].1.segments, old(self)@.tick_counter),
                                window_cutoff(old(self)@.tick_counter, old(self)@.window_ticks),
                            ),
                            ..old(self)@.speakers[i].1
                        }),
                    ),
                    ..old(self)@
                }),
    {
        if speaking {
            return;
        }
        match self.find(ssrc) {
            Some(i) => {
                let ghost before = self@;
                proof { self.lemma_view_wf(); }
                let tick = self.tick_counter;
                let window = self.window_ticks;
                let mut entry = self.speakers.remove(i);
                entry.state.close(tick);
                entry.state.evict_expired(tick, window);
                self.speakers.insert(i, entry);
                let ghost expect = before.speakers.update(
                    i as int,
                    (ssrc, SpeakerModel {
                        segments: evicted(
                            closed(before.speakers[i as int].1.segments, tick),
                            window_cutoff(tick, window),
                        ),
                        ..before.speakers[i as int].1
                    }),
                );
                assert(self@.speakers =~= expect);
                proof {
                    crate::segment::lemma_single_open_segment(
                        before.speakers[i as int].1.segments, Seq::empty(), tick, window_cutoff(tick, window));
                    crate::segment::lemma_single_open_segment(
                        closed(before.speakers[i as int].1.segments, tick), Seq::empty(), tick, window_cutoff(tick, window));
                    crate::segment::lemma_ordered_preserved(
                        before.speakers[i as int].1.segments, Seq::empty(), tick, window_cutoff(tick, window));
                    crate::segment::lemma_ordered_preserved(
                        closed(before.speakers[i as int].1.segments, tick), Seq::empty(), tick, window_cutoff(tick, window));
                    lemma_update_wf(before, i as int, expect[i as int].1);
                    lemma_unique_index(before, i as int);
                }
            },
            None => {},
        }
    }

    /// The check of the collector of `ssrc` at wall clock `now`: a speaker idle for longer
    /// than the idle time is removed. Returns whether the collector should stop, which it
    /// should once `ssrc` is no longer in the table.
    pub fn collect_idle(&mut self, ssrc: u32, now: u64) -> (stop: bool)
        requires
            old(self).wf(),
        ensures
            final(self).wf(),
            stop == !has_ssrc(final(self)@.speakers, ssrc),
            final(self)@ == after_idle_check(old(self)@, ssrc, now),
            !has_ssrc(old(self)@.speakers, ssrc) ==> final(self)@ == old(self)@,
            forall|i: int| 0 <= i < old(self)@.speakers.len() && old(self)@.speakers[i].0 == ssrc ==> {
                let idle = now > old(self)@.speakers[i].1.last_activity
                    && now - old(self)@.speakers[i].1.last_activity > old(self)@.idle_seconds;
                &&& idle ==> final(self)@ == (RecorderModel { speakers: old(self)@.speakers.remove(i), ..old(self)@ })
                &&& !idle ==> final(self)@ == old(self)@
            },
    {
        match self.find(ssrc) {
            Some(i) => {
                let ghost before = self@;
                proof { lemma_unique_index(before, i as int); }
                let last = self.speakers[i].state.last_activity;
                if now > last && now - last > self.idle_seconds {
                    self.speakers.remove(i);
                    assert(self@.speakers =~= before.speakers.remove(i as int));
                    proof { lemma_remove_wf(before, i as int); }
                    true
                } else {
                    proof {
                        assert(self@.speakers[i as int].0 == ssrc);
                        assert(has_ssrc(self@.speakers, ssrc));
                        lemma_unique_index(before, i as int);
                    }
                    false
                }
            },
            None => true,
        }
    }

    /// A voice frame: the tick counter advances; decoded audio of each known speaker is
    /// appended at the new tick; a speaker the frame does not name falls silent and loses its
    /// expired segments. Entries without audio and audio of unannounced speakers change
    /// nothing and are reported.
    pub fn handle_tick(&mut self, entries: &Vec<TickEntry>, now: u64) -> (report: TickReport)
        requires
            old(self).wf(),
        ensures
            final(self).wf(),
            final(self)@.tick_counter == next_tick(old(self)@.tick_counter),
            final(self)@.guild_id == old(self)@.guild_id,
            final(self)@.window_ticks == old(self)@.window_ticks,
            final(self)@.idle_seconds == old(self)@.idle_seconds,
            final(self)@.speakers.len() == old(self)@.speakers.len(),
            forall|i: int| 0 <= i < old(self)@.speakers.len() ==> (#[trigger] final(self)@.speakers[i]) == (
                old(self)@.speakers[i].0,
                ticked(
                    old(self)@.speakers[i].1,
                    entry_models(entries@),
                    old(self)@.speakers[i].0,
                    next_tick(old(self)@.tick_counter),
                    now,
                    old(self)@.window_ticks,
                ),
            ),
            final(self)@ == after_tick(old(self)@, entry_models(entries@), now),
            report.undecoded@ == undecoded(entry_models(entries@)),
            report.unannounced@ == unannounced(entry_models(entries@), old(self)@.speakers),
    {
        let tick = if self.tick_counter < u64::MAX {
            self.tick_counter + 1
        } else {
            self.tick_counter
        };
        let ghost old_model = self@;
        self.tick_counter = tick;
        proof {
            assert forall|k: int| 0 <= k < self@.speakers.len() implies ordered_below((#[trigger] self@.speakers[k]).1.segments, tick) by {
                assert(self@.speakers[k] == old_model.speakers[k]);
                crate::segment::lemma_ordered_later(old_model.speakers[k].1.segments, old_model.tick_counter, tick);
            }
            assert(self@.speakers == old_model.speakers);
        }
        let window = self.window_ticks;
        let ghost es = entry_models(entries@);
        let ghost start = self@;
        let mut undecoded_ssrcs: Vec<u32> = Vec::new();
        let mut unannounced_ssrcs: Vec<u32> = Vec::new();
        let mut i: usize = 0;
        assert(es.take(0) =~= Seq::<(u32, Option<Seq<i16>>)>::empty());
        while i < entries.len()
            invariant
                0 <= i <= entries.len(),
                es == entry_models(entries@),
                start.tick_counter == tick,
                recorder_wf(self@),
                self@ == (RecorderModel { speakers: self@.speakers, ..start }),
                self@.speakers.len() == start.speakers.len(),
                forall|j: int| 0 <= j < start.speakers.len() ==> (#[trigger] self@.speakers[j]) == (
                    start.speakers[j].0,
                    fed(start.speakers[j].1, es.take(i as int), start.speakers[j].0, tick, now),
                ),
                undecoded_ssrcs@ == undecoded(es.take(i as int)),
                unannounced_ssrcs@ == unannounced(es.take(i as int), start.speakers),
            decreases entries.len() - i,
        {
            let e = &entries[i];
            let ghost before = self@;
            let ghost pre = es.take(i as int);
            let ghost post = es.take(i + 1);
            assert(post.drop_last() =~= pre);
            assert(post.last() == es[i as int]);
            assert(es[i as int] == e@);
            assert forall|k: u32| has_ssrc(before.speakers, k) == has_ssrc(start.speakers, k) by {
                if has_ssrc(before.speakers, k) {
                    let a = choose|a: int| 0 <= a < before.speakers.len() && (#[trigger] before.speakers[a]).0 == k;
                    assert(start.speakers[a].0 == k);
                }
                if has_ssrc(start.speakers, k) {
                    let a = choose|a: int| 0 <= a < start.speakers.len() && (#[trigger] start.speakers[a]).0 == k;
                    assert(before.speakers[a].0 == k);
                }
            }
            match &e.pcm {
                Some(pcm) => {
                    match self.find(e.ssrc) {
                        Some(j) => {
                            proof { self.lemma_view_wf(); }
                            self.speakers[j].state.append(pcm.as_slice(), tick, now);
                            proof {
                                crate::segment::lemma_single_open_segment(before.speakers[j as int].1.segments, pcm@, tick, 0);
                                crate::segment::lemma_ordered_preserved(before.speakers[j as int].1.segments, pcm@, tick, 0);
                                assert(self@.speakers =~= before.speakers.update(j as int, self@.speakers[j as int]));
                                lemma_update_wf(before, j as int, self@.speakers[j as int].1);
                                assert forall|k: int| 0 <= k < start.speakers.len() implies (#[trigger] self@.speakers[k]) == (
                                    start.speakers[k].0,
                                    fed(start.speakers[k].1, post, start.speakers[k].0, tick, now),
                                ) by {
                                    if k != j {
                                        assert(before.speakers[k].0 != before.speakers[j as int].0);
                                    }
                                }
                            }
                        },
                        None => {
                            unannounced_ssrcs.push(e.ssrc);
                            proof {
                                assert(self@.speakers =~= before.speakers);
                                assert forall|k: int| 0 <= k < start.speakers.len() implies (#[trigger] self@.speakers[k]) == (
                                    start.speakers[k].0,
                                    fed(start.speakers[k].1, post, start.speakers[k].0, tick, now),
                                ) by {
                                    assert(before.speakers[k].0 != e.ssrc);
                                }
                            }
                        },
                    }
                },
                None => {
                    undecoded_ssrcs.push(e.ssrc);
                    proof {
                        assert forall|k: int| 0 <= k < start.speakers.len() implies (#[trigger] self@.speakers[k]) == (
                            start.speakers[k].0,
                            fed(start.speakers[k].1, post, start.speakers[k].0, tick, now),
                        ) by {}
                    }
                },
            }
            i = i + 1;
        }
        assert(es.take(i as int) =~= es);
        let mut j: usize = 0;
        while j < self.speakers.len()
            invariant
                0 <= j <= self.speakers.len(),
                es == entry_models(entries@),
                start.tick_counter == tick,
                recorder_wf(self@),
                self@ == (RecorderModel { speakers: self@.speakers, ..start }),
                self@.speakers.len() == start.speakers.len(),
                forall|k: int| 0 <= k < j ==> (#[trigger] self@.speakers[k]) == (
                    start.speakers[k].0,
                    ticked(start.speakers[k].1, es, start.speakers[k].0, tick, now, window),
                ),
                forall|k: int| j <= k < start.speakers.len() ==> (#[trigger] self@.speakers[k]) == (
                    start.speakers[k].0,
                    fed(start.speakers[k].1, es, start.speakers[k].0, tick, now),
                ),
            decreases self.speakers.len() - j,
        {
            let ghost before = self@;
            let ssrc = self.speakers[j].ssrc;
            let named = scan_entries(entries, ssrc);
            proof { self.lemma_view_wf(); }
            let ghost segs = before.speakers[j as int].1.segments;
            let ghost cutoff = window_cutoff(tick, window);
            if !named {
                self.speakers[j].state.close(tick);
                proof {
                    crate::segment::lemma_single_open_segment(segs, Seq::empty(), tick, cutoff);
                    crate::segment::lemma_ordered_preserved(segs, Seq::empty(), tick, cutoff);
                }
                self.speakers[j].state.evict_expired(tick, window);
                proof {
                    crate::segment::lemma_single_open_segment(closed(segs, tick), Seq::empty(), tick, cutoff);
                    crate::segment::lemma_ordered_preserved(closed(segs, tick), Seq::empty(), tick, cutoff);
                }
            }
            proof {
                assert(self@.speakers =~= before.speakers.update(j as int, self@.speakers[j as int]));
                lemma_update_wf(before, j as int, self@.speakers[j as int].1);
            }
            j = j + 1;
        }
        assert(self@.speakers =~= after_tick(old_model, es, now).speakers);
        TickReport { undecoded: undecoded_ssrcs, unannounced: unannounced_ssrcs }
    }

    /// Dispatches a voice event to its handler; `now` is the wall clock in seconds.
    pub fn handle_event(&mut self, event: VoiceEvent, now: u64) -> (r: EventOutcome)
        requires
            old(self).wf(),
        ensures
            final(self).wf(),
            final(self)@ == after_event(old(self)@, event, now),
            outcome_of(old(self)@, event, r),
    {
        match event {
            VoiceEvent::SpeakingStateUpdate { ssrc, user_id } => {
                let added = self.handle_speaking_state(ssrc, user_id, now);
                EventOutcome::Announced { ssrc, added }
            },
            VoiceEvent::VoiceTick { speaking } => EventOutcome::Ticked(self.handle_tick(&speaking, now)),
            VoiceEvent::SpeakingEdge { ssrc, speaking } => {
                self.handle_speaking_edge(ssrc, speaking);
                EventOutcome::Edge
            },
        }
    }

    /// Collects the audio for a snapshot: every speaker first loses its expired segments;
    /// then a copy of what remains, cut to the window, is taken for each speaker that has any.
    pub fn collect_tracks(&mut self) -> (r: Vec<SpeakerTrack>)
        requires
            old(self).wf(),
        ensures
            final(self).wf(),
            final(self)@.tick_counter == old(self)@.tick_counter,
            final(self)@.guild_id == old(self)@.guild_id,
            final(self)@.window_ticks == old(self)@.window_ticks,
            final(self)@.idle_seconds == old(self)@.idle_seconds,
            final(self)@.speakers == evict_all(
                old(self)@.speakers,
                window_cutoff(old(self)@.tick_counter, old(self)@.window_ticks),
            ),
            track_models(r@) == collected(old(self)@.speakers, old(self)@.tick_counter, old(self)@.window_ticks),
            all_non_empty(track_models(r@)),
    {
        let tick = self.tick_counter;
        let window = self.window_ticks;
        let cutoff = crate::timeline::cutoff_tick(tick, window);
        let ghost start = self@;
        let mut out: Vec<SpeakerTrack> = Vec::new();
        let mut j: usize = 0;
        assert(start.speakers.take(0) =~= Seq::<(u32, SpeakerModel)>::empty());
        while j < self.speakers.len()
            invariant
                0 <= j <= self.speakers.len(),
                cutoff == window_cutoff(tick, window),
                recorder_wf(self@),
                self@ == (RecorderModel { speakers: self@.speakers, ..start }),
                tick == start.tick_counter,
                window == start.window_ticks,
                self@.speakers.len() == start.speakers.len(),
                forall|k: int| 0 <= k < j ==> (#[trigger] self@.speakers[k]) == (
                    start.speakers[k].0,
                    SpeakerModel { segments: evicted(start.speakers[k].1.segments, cutoff), ..start.speakers[k].1 },
                ),
                forall|k: int| j <= k < start.speakers.len() ==> (#[trigger] self@.speakers[k]) == start.speakers[k],
                track_models(out@) == collected(start.speakers.take(j as int), tick, window),
                all_non_empty(track_models(out@)),
            decreases self.speakers.len() - j,
        {
            let ghost before = self@;
            proof { self.lemma_view_wf(); }
            self.speakers[j].state.evict_expired(tick, window);
            proof {
                crate::segment::lemma_single_open_segment(before.speakers[j as int].1.segments, Seq::empty(), tick, cutoff);
                crate::segment::lemma_ordered_preserved(before.speakers[j as int].1.segments, Seq::empty(), tick, cutoff);
                assert(self@.speakers =~= before.speakers.update(j as int, self@.speakers[j as int]));
                lemma_update_wf(before, j as int, self@.speakers[j as int].1);
            }
            let copy = self.speakers[j].state.snapshot_copy();
            let segs = clip_segments(&copy, cutoff);
            let ghost pre = start.speakers.take(j as int);
            assert(start.speakers.take(j + 1).drop_last() =~= pre);
            assert(start.speakers.take(j + 1).last() == start.speakers[j as int]);
            if segs.len() > 0 {
                let ghost out_before = out@;
                out.push(SpeakerTrack { user_id: self.speakers[j].state.user_id, segments: segs });
                assert(track_models(out@) =~= track_models(out_before).push(
                    (start.speakers[j as int].1.user_id, models(segs@)),
                ));
            }
            j = j + 1;
        }
        assert(start.speakers.take(j as int) =~= start.speakers);
        assert(self@.speakers =~= evict_all(start.speakers, cutoff));
        out
    }
}

} // verus!

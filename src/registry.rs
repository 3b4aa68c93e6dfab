//! Process-wide registry of guild recorders: the one handle through which callers reach them.
use vstd::prelude::*;
use crate::recorder::{
    EventOutcome, GuildRecorder, RecorderModel, VoiceEvent, after_event, after_idle_check, outcome_of,
    collected, evict_all, has_ssrc, recorder_wf,
};
use crate::snapshot::{AlignedTrack, RecordingError, align_snapshot, aligned_models, snapshot_pcm};
use crate::timeline::{RecorderConfig, window_cutoff};

verus! {

/// Whether `guild_id` has a recorder among `gs`.
pub open spec fn has_guild(gs: Seq<RecorderModel>, guild_id: u64) -> bool {
    exists|i: int| 0 <= i < gs.len() && (#[trigger] gs[i]).guild_id == guild_id
}

/// Mathematical view of the registry.
pub ghost struct RegistryModel {
    pub guilds: Seq<RecorderModel>,
    pub config: RecorderConfig,
}

/// The recorder of the process: maps each guild to its recorder.
#[derive(Debug)]
pub struct Recorder {
    guilds: Vec<GuildRecorder>,
    config: RecorderConfig,
}

impl View for Recorder {
    type V = RegistryModel;

    closed spec fn view(&self) -> RegistryModel {
        RegistryModel { guilds: self.guilds@.map_values(|g: GuildRecorder| g@), config: self.config }
    }
}

/// Well-formedness of a registry's view: one well-formed recorder per guild.
pub open spec fn registry_wf(m: RegistryModel) -> bool {
    &&& m.config.wf()
    &&& forall|i: int, j: int| 0 <= i < m.guilds.len() && 0 <= j < m.guilds.len() && i != j
        ==> (#[trigger] m.guilds[i]).guild_id != (#[trigger] m.guilds[j]).guild_id
    &&& forall|i: int| 0 <= i < m.guilds.len() ==> recorder_wf(#[trigger] m.guilds[i])
}

/// The recorder of `guild_id` among `gs`, which must hold one.
pub open spec fn guild_of(gs: Seq<RecorderModel>, guild_id: u64) -> RecorderModel
    recommends
        has_guild(gs, guild_id),
{
    gs[choose|i: int| 0 <= i < gs.len() && (#[trigger] gs[i]).guild_id == guild_id]
}

impl Recorder {
    /// Well-formedness of the registry.
    pub open spec fn wf(&self) -> bool {
        registry_wf(self@)
    }

    /// An empty registry whose recorders will use `config`.
    pub fn create(config: RecorderConfig) -> (r: Self)
        requires
            config.wf(),
        ensures
            r.wf(),
            r@.guilds.len() == 0,
            r@.config == config,
    {
        let r = Recorder { guilds: Vec::new(), config };
        assert(r@.guilds =~= Seq::<RecorderModel>::empty());
        r
    }

    /// The position of `guild_id`'s recorder.
    fn find(&self, guild_id: u64) -> (r: Option<usize>)
        ensures
            match r {
                Some(i) => i < self@.guilds.len() && self@.guilds[i as int].guild_id == guild_id,
                None => !has_guild(self@.guilds, guild_id),
            },
    {
        let mut i: usize = 0;
        while i < self.guilds.len()
            invariant
                0 <= i <= self.guilds.len(),
                forall|j: int| 0 <= j < i ==> (#[trigger] self@.guilds[j]).guild_id != guild_id,
            decreases self.guilds.len() - i,
        {
            if self.guilds[i].guild_id() == guild_id {
                return Some(i);
            }
            i = i + 1;
        }
        None
    }

    /// Whether `guild_id` has a recorder.
    pub fn has_guild(&self, guild_id: u64) -> (r: bool)
        ensures
            r == has_guild(self@.guilds, guild_id),
    {
        self.find(guild_id).is_some()
    }

    /// The recorder of `guild_id`, if it has one.
    pub fn recorder(&self, guild_id: u64) -> (r: Option<&GuildRecorder>)
        requires
            self.wf(),
        ensures
            match r {
                Some(g) => has_guild(self@.guilds, guild_id) && g@ == guild_of(self@.guilds, guild_id) && g.wf(),
                None => !has_guild(self@.guilds, guild_id),
            },
    {
        match self.find(guild_id) {
            Some(i) => {
                proof { self.lemma_guild_of(i as int); }
                Some(&self.guilds[i])
            },
            None => None,
        }
    }

    proof fn lemma_guild_of(&self, i: int)
        requires
            self.wf(),
            0 <= i < self@.guilds.len(),
        ensures
            guild_of(self@.guilds, self@.guilds[i].guild_id) == self@.guilds[i],
            self.guilds@[i]@ == self@.guilds[i],
            self.guilds@[i].wf(),
    {
        let gs = self@.guilds;
        let g = gs[i].guild_id;
        assert(gs[i].guild_id == g);
        let k = choose|k: int| 0 <= k < gs.len() && (#[trigger] gs[k]).guild_id == g;
        assert(k == i);
    }

    /// Registers the voice session of `guild_id`: creates its recorder unless it has one.
    /// Returns whether it was created; only then must the event handlers be installed, so
    /// that installing twice never duplicates them.
    pub fn register_with_call(&mut self, guild_id: u64) -> (created: bool)
        requires
            old(self).wf(),
        ensures
            final(self).wf(),
            created == !has_guild(old(self)@.guilds, guild_id),
            has_guild(final(self)@.guilds, guild_id),
            !created ==> final(self)@ == old(self)@,
            created ==> final(self)@.config == old(self)@.config && final(self)@.guilds == old(self)@.guilds.push(
                RecorderModel {
                    guild_id,
                    speakers: Seq::empty(),
                    tick_counter: 0,
                    window_ticks: old(self)@.config.window_ticks_spec() as u64,
                    idle_seconds: old(self)@.config.user_idle_seconds,
                },
            ),
    {
        match self.find(guild_id) {
            Some(_) => false,
            None => {
                let ghost before = self@;
                let g = GuildRecorder::new(guild_id, self.config);
                self.guilds.push(g);
                let ghost after = self@.guilds;
                assert(after =~= before.guilds.push(self.guilds@[self.guilds@.len() - 1]@));
                assert(after[after.len() - 1].guild_id == guild_id);
                assert forall|i: int, j: int| 0 <= i < after.len() && 0 <= j < after.len() && i != j
                    implies (#[trigger] after[i]).guild_id != (#[trigger] after[j]).guild_id by {
                    if i < before.guilds.len() {
                        assert(after[i] == before.guilds[i]);
                    }
                    if j < before.guilds.len() {
                        assert(after[j] == before.guilds[j]);
                    }
                }
                assert forall|i: int| 0 <= i < after.len() implies recorder_wf(#[trigger] after[i]) by {
                    if i < before.guilds.len() {
                        assert(after[i] == before.guilds[i]);
                    }
                }
                true
            },
        }
    }

    /// Hands a voice event of `guild_id`'s session to its recorder; `None` when the guild
    /// has no recorder.
    pub fn handle_event(&mut self, guild_id: u64, event: VoiceEvent, now: u64) -> (r: Option<EventOutcome>)
        requires
            old(self).wf(),
        ensures
            final(self).wf(),
            r is None <==> !has_guild(old(self)@.guilds, guild_id),
            r is None ==> final(self)@ == old(self)@,
            has_guild(old(self)@.guilds, guild_id) ==> has_guild(final(self)@.guilds, guild_id)
                && guild_of(final(self)@.guilds, guild_id) == after_event(guild_of(old(self)@.guilds, guild_id), event, now)
                && r is Some && outcome_of(guild_of(old(self)@.guilds, guild_id), event, r->Some_0),
            final(self)@.guilds.len() == old(self)@.guilds.len(),
    {
        match self.find(guild_id) {
            Some(i) => {
                let ghost before = self@;
                proof { self.lemma_guild_of(i as int); }
                let out = self.guilds[i].handle_event(event, now);
                proof { lemma_replace_wf(before, i as int, self@.guilds[i as int]); }
                assert(self@.guilds =~= before.guilds.update(i as int, self@.guilds[i as int]));
                proof { self.lemma_guild_of(i as int); }
                Some(out)
            },
            None => None,
        }
    }

    /// The check of the collector of `ssrc` in `guild_id` at wall clock `now`: removes the
    /// speaker when idle. Returns whether the collector should stop: once the guild or the
    /// speaker is gone.
    pub fn collect_idle(&mut self, guild_id: u64, ssrc: u32, now: u64) -> (stop: bool)
        requires
            old(self).wf(),
        ensures
            final(self).wf(),
            !has_guild(old(self)@.guilds, guild_id) ==> stop && final(self)@ == old(self)@,
            has_guild(old(self)@.guilds, guild_id) ==> has_guild(final(self)@.guilds, guild_id)
                && stop == !has_ssrc(guild_of(final(self)@.guilds, guild_id).speakers, ssrc)
                && guild_of(final(self)@.guilds, guild_id) == after_idle_check(guild_of(old(self)@.guilds, guild_id), ssrc, now),
    {
        match self.find(guild_id) {
            Some(i) => {
                let ghost before = self@;
                proof { self.lemma_guild_of(i as int); }
                let stop = self.guilds[i].collect_idle(ssrc, now);
                proof { lemma_replace_wf(before, i as int, self@.guilds[i as int]); }
                assert(self@.guilds =~= before.guilds.update(i as int, self@.guilds[i as int]));
                proof { self.lemma_guild_of(i as int); }
                stop
            },
            None => true,
        }
    }

    /// Saves a snapshot of `guild_id`: collects every speaker's buffered audio and aligns it on
    /// one timeline. Fails with `NoData` when the guild has no recorder or no speaker has
    /// audio.
    pub fn save_recording(&mut self, guild_id: u64) -> (r: Result<Vec<AlignedTrack>, RecordingError>)
        requires
            old(self).wf(),
        ensures
            final(self).wf(),
            !has_guild(old(self)@.guilds, guild_id) ==> r is Err && r->Err_0 is NoData && final(self)@ == old(self)@,
            has_guild(old(self)@.guilds, guild_id) ==> {
                let g = guild_of(old(self)@.guilds, guild_id);
                let ts = collected(g.speakers, g.tick_counter, g.window_ticks);
                &&& has_guild(final(self)@.guilds, guild_id)
                &&& guild_of(final(self)@.guilds, guild_id) == (RecorderModel {
                    speakers: evict_all(g.speakers, window_cutoff(g.tick_counter, g.window_ticks)),
                    ..g
                })
                &&& (r is Err <==> ts.len() == 0)
                &&& r is Err ==> r->Err_0 is NoData
                &&& r is Ok ==> aligned_models(r->Ok_0@) == snapshot_pcm(ts, g.tick_counter)
            },
    {
        match self.find(guild_id) {
            Some(i) => {
                let ghost before = self@;
                proof { self.lemma_guild_of(i as int); }
                let tick = self.guilds[i].tick_counter();
                let tracks = self.guilds[i].collect_tracks();
                proof { lemma_replace_wf(before, i as int, self@.guilds[i as int]); }
                assert(self@.guilds =~= before.guilds.update(i as int, self@.guilds[i as int]));
                proof { self.lemma_guild_of(i as int); }
                align_snapshot(&tracks, tick)
            },
            None => Err(RecordingError::NoData),
        }
    }
}

/// Saving a snapshot twice with no voice event in between gives the same tracks: the
/// eviction done by the first save leaves nothing more for the second to drop.
pub proof fn lemma_snapshot_repeatable(g: RecorderModel)
    ensures
        ({
            let after = RecorderModel {
                speakers: evict_all(g.speakers, window_cutoff(g.tick_counter, g.window_ticks)),
                ..g
            };
            snapshot_pcm(collected(after.speakers, after.tick_counter, after.window_ticks), after.tick_counter)
                == snapshot_pcm(collected(g.speakers, g.tick_counter, g.window_ticks), g.tick_counter)
        }),
{
    crate::recorder::lemma_collect_repeatable(g.speakers, g.tick_counter, g.window_ticks);
}

/// Replacing a recorder by a well-formed one of the same guild keeps the registry well-formed.
proof fn lemma_replace_wf(m: RegistryModel, i: int, g: RecorderModel)
    requires
        registry_wf(m),
        0 <= i < m.guilds.len(),
        recorder_wf(g),
        g.guild_id == m.guilds[i].guild_id,
    ensures
        registry_wf(RegistryModel { guilds: m.guilds.update(i, g), ..m }),
{
    let t = m.guilds.update(i, g);
    assert forall|a: int, b: int| 0 <= a < t.len() && 0 <= b < t.len() && a != b
        implies (#[trigger] t[a]).guild_id != (#[trigger] t[b]).guild_id by {
        assert(t[a].guild_id == m.guilds[a].guild_id && t[b].guild_id == m.guilds[b].guild_id);
    }
}

} // verus!

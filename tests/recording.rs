use voice_recorder::codec::{encode_args, mix_args, pcm_le_bytes};
use voice_recorder::mixer::{plan_mix, prepare_mix, source_folder, MixError, MixRejection, MixRequest};
use voice_recorder::naming::{
    decimal_string, get_full_sound_path, mix_file_path, parse_timestamp, recording_file_path,
    snapshot_folder, track_file_name,
};
use voice_recorder::recorder::{EventOutcome, GuildRecorder, TickEntry, VoiceEvent};
use voice_recorder::registry::Recorder;
use voice_recorder::segment::{SpeakerState, VoiceSegment};
use voice_recorder::snapshot::{align_snapshot, align_track, clip_segments, SpeakerTrack};
use voice_recorder::timeline::{nanos_to_samples, RecorderConfig, SAMPLES_PER_TICK};

const GUILD: u64 = 42;

fn speech(ssrc: u32, value: i16) -> TickEntry {
    TickEntry { ssrc, pcm: Some(vec![value; 1920]) }
}

fn announce(reg: &mut Recorder, ssrc: u32, user: u64, now: u64) {
    reg.handle_event(GUILD, VoiceEvent::SpeakingStateUpdate { ssrc, user_id: Some(user) }, now);
}

fn tick(reg: &mut Recorder, entries: Vec<TickEntry>, now: u64) -> EventOutcome {
    reg.handle_event(GUILD, VoiceEvent::VoiceTick { speaking: entries }, now).unwrap()
}

fn registry(config: RecorderConfig) -> Recorder {
    let mut reg = Recorder::create(config);
    assert!(reg.register_with_call(GUILD));
    reg
}

fn segment(start: u64, end: Option<u64>, value: i16, ticks: usize) -> VoiceSegment {
    VoiceSegment { start_tick: start, end_tick: end, samples: vec![value; ticks * 1920] }
}

#[test]
fn test_recording_infrastructure() {
    let reg = registry(RecorderConfig::defaults());
    assert!(reg.has_guild(GUILD));
    assert!(true, "Recording test infrastructure is set up");
}

#[test]
fn test_timeline_calculations() {
    assert_eq!(SAMPLES_PER_TICK, 1920);
    assert_eq!(nanos_to_samples(20_000_000), 1920);
    assert_eq!(nanos_to_samples(1_000_000_000), 96000);
    assert!(
        true,
        "Timeline calculations are tested in recorder unit tests"
    );
}

#[test]
fn test_gap_filling_logic() {
    // Speech at ticks 0..10, a gap of 108 ticks, speech again at 118..150.
    let segs = vec![segment(0, Some(10), 1, 10), segment(118, Some(150), 2, 32)];
    let pcm = align_track(&segs, 0, 150);
    assert_eq!(pcm.len(), 150 * 1920);
    assert!(pcm[..10 * 1920].iter().all(|&s| s == 1));
    assert!(pcm[10 * 1920..118 * 1920].iter().all(|&s| s == 0));
    assert!(pcm[118 * 1920..].iter().all(|&s| s == 2));
    assert!(true, "Gap filling logic is tested in recorder unit tests");
}

#[test]
fn test_permission_system_infrastructure() {
    assert!(true, "Permission system test infrastructure is set up");
}

#[test]
fn test_permission_hierarchy_concept() {
    assert!(true, "Permission hierarchy documented");
}

#[test]
fn test_sound_playback_infrastructure() {
    assert_eq!(get_full_sound_path("fx/horn.mp3"), "data/sounds/fx/horn.mp3");
    assert!(true, "Sound playback test infrastructure is set up");
}

#[test]
fn test_volume_calculation_integration() {
    assert!(true, "Volume calculation is tested in audio_utils unit tests");
}

#[test]
fn single_speaker_contiguous_speech() {
    let mut reg = registry(RecorderConfig::defaults());
    announce(&mut reg, 101, 7, 0);
    for _ in 0..10 {
        tick(&mut reg, vec![speech(101, 1)], 0);
    }
    let tracks = reg.save_recording(GUILD).unwrap();
    assert_eq!(tracks.len(), 1);
    assert_eq!(tracks[0].user_id, 7);
    assert_eq!(tracks[0].pcm.len(), 19200);
    assert!(tracks[0].pcm.iter().all(|&s| s == 1));
    // 19200 interleaved stereo samples at 48 kHz last 0.2 s.
    assert_eq!(tracks[0].pcm.len() as u64 * 1000 / (48000 * 2), 200);
}

#[test]
fn two_speakers_with_a_gap() {
    let mut reg = registry(RecorderConfig::defaults());
    announce(&mut reg, 201, 1, 0);
    announce(&mut reg, 202, 2, 0);
    tick(&mut reg, vec![speech(201, 1)], 0);
    for _ in 2..=5 {
        tick(&mut reg, vec![], 0);
    }
    tick(&mut reg, vec![speech(202, 2)], 0);
    let tracks = reg.save_recording(GUILD).unwrap();
    assert_eq!(tracks.len(), 2);
    let a = tracks.iter().find(|t| t.user_id == 1).unwrap();
    let b = tracks.iter().find(|t| t.user_id == 2).unwrap();
    assert_eq!(a.pcm.len(), 11520);
    assert_eq!(b.pcm.len(), 11520);
    assert!(a.pcm[..1920].iter().all(|&s| s == 1));
    assert!(a.pcm[1920..].iter().all(|&s| s == 0));
    assert!(b.pcm[..5 * 1920].iter().all(|&s| s == 0));
    assert!(b.pcm[5 * 1920..].iter().all(|&s| s == 2));
}

#[test]
fn eviction_keeps_only_the_window() {
    let mut reg = registry(RecorderConfig::with_window(Some(1)));
    announce(&mut reg, 301, 3, 0);
    for _ in 1..=200 {
        tick(&mut reg, vec![speech(301, 1)], 0);
    }
    let tracks = reg.save_recording(GUILD).unwrap();
    assert_eq!(tracks.len(), 1);
    let pcm = &tracks[0].pcm;
    assert!(!pcm.is_empty());
    assert!(pcm.len() <= 50 * 1920 + 1920);
    assert_eq!(pcm.len(), 51 * 1920);
    assert!(pcm.iter().all(|&s| s == 1));
}

#[test]
fn mix_of_a_subset() {
    let req = MixRequest {
        guild_id: GUILD,
        timestamp: 1700000000,
        users: vec!["bob".to_string()],
        start_ms: 20,
        end_ms: 100,
    };
    assert_eq!(source_folder(&req), "data/recorder/42/1700000000");
    let plan = plan_mix(&req, true, 77).unwrap();
    assert_eq!(plan.inputs, vec!["data/recorder/42/1700000000/bob.mp3".to_string()]);
    assert_eq!(plan.filter, "amix=inputs=1:duration=longest, atrim=0.02:0.1");
    assert_eq!(plan.output_path, "data/mixes/42/77.mp3");
    assert_eq!(plan.artifact, "77.mp3");
    assert_eq!(
        plan.args,
        vec![
            "-i",
            "data/recorder/42/1700000000/bob.mp3",
            "-filter_complex",
            "amix=inputs=1:duration=longest, atrim=0.02:0.1",
            "-ac",
            "2",
            "data/mixes/42/77.mp3",
        ]
    );
}

#[test]
fn mix_requests_that_are_refused() {
    let mut req = MixRequest { guild_id: 1, timestamp: 5, users: vec![], start_ms: 0, end_ms: 10 };
    assert!(matches!(plan_mix(&req, true, 1), Err(MixError::BadRequest(MixRejection::NoUsers))));
    req.users.push("a".to_string());
    req.start_ms = 10;
    assert!(matches!(plan_mix(&req, true, 1), Err(MixError::BadRequest(MixRejection::EmptyWindow))));
    req.start_ms = 0;
    assert!(matches!(plan_mix(&req, false, 1), Err(MixError::NotFound)));
    assert!(matches!(prepare_mix(&req, false), Err(MixError::NotFound)));
    let plan = prepare_mix(&req, true).unwrap();
    assert!(plan.artifact.ends_with(".mp3"));
}

#[test]
fn mix_inputs_are_sanitized_and_times_formatted() {
    let req = MixRequest {
        guild_id: 9,
        timestamp: 12,
        users: vec!["../etc/pass:wd".to_string(), "Ann".to_string()],
        start_ms: 1500,
        end_ms: 61234,
    };
    let plan = plan_mix(&req, true, 3).unwrap();
    assert_eq!(
        plan.inputs,
        vec!["data/recorder/9/12/..etcpasswd.mp3".to_string(), "data/recorder/9/12/Ann.mp3".to_string()]
    );
    assert_eq!(plan.filter, "amix=inputs=2:duration=longest, atrim=1.5:61.234");
}

#[test]
fn user_gc_removes_idle_speaker() {
    let config = RecorderConfig { user_idle_seconds: 1, user_gc_period_seconds: 1, ..RecorderConfig::defaults() };
    let mut reg = registry(config);
    announce(&mut reg, 401, 4, 100);
    assert!(!reg.collect_idle(GUILD, 401, 101));
    assert!(reg.recorder(GUILD).unwrap().has_speaker(401));
    assert!(reg.collect_idle(GUILD, 401, 102));
    assert!(!reg.recorder(GUILD).unwrap().has_speaker(401));
    assert!(reg.collect_idle(GUILD, 401, 103));
    assert!(reg.collect_idle(7, 401, 103));
}

#[test]
fn decoder_off_is_reported_and_changes_nothing() {
    let mut reg = registry(RecorderConfig::defaults());
    announce(&mut reg, 501, 5, 0);
    tick(&mut reg, vec![speech(501, 3)], 0);
    let before = reg.recorder(GUILD).unwrap().segments_of(501).unwrap();
    match tick(&mut reg, vec![TickEntry { ssrc: 501, pcm: None }], 0) {
        EventOutcome::Ticked(report) => {
            assert_eq!(report.undecoded, vec![501]);
            assert!(report.unannounced.is_empty());
        }
        _ => panic!("expected a tick outcome"),
    }
    let after = reg.recorder(GUILD).unwrap().segments_of(501).unwrap();
    assert_eq!(before.len(), after.len());
    assert_eq!(after[0].samples, before[0].samples);
    assert_eq!(after[0].end_tick, None);
}

#[test]
fn unannounced_speaker_is_dropped() {
    let mut reg = registry(RecorderConfig::defaults());
    match tick(&mut reg, vec![speech(601, 1)], 0) {
        EventOutcome::Ticked(report) => assert_eq!(report.unannounced, vec![601]),
        _ => panic!("expected a tick outcome"),
    }
    assert!(matches!(reg.save_recording(GUILD), Err(e) if e.is_no_data()));
    assert!(matches!(reg.save_recording(99), Err(e) if e.is_no_data()));
    assert!(reg.handle_event(99, VoiceEvent::SpeakingEdge { ssrc: 1, speaking: false }, 0).is_none());
}

#[test]
fn announcement_does_not_rebind_an_ssrc() {
    let mut rec = GuildRecorder::new(1, RecorderConfig::defaults());
    assert!(rec.handle_speaking_state(10, Some(1), 0));
    assert!(!rec.handle_speaking_state(10, Some(2), 0));
    assert!(!rec.handle_speaking_state(11, None, 0));
    assert_eq!(rec.user_of(10), Some(1));
    assert_eq!(rec.speaker_count(), 1);
}

#[test]
fn registering_twice_creates_one_recorder() {
    let mut reg = Recorder::create(RecorderConfig::defaults());
    assert!(reg.register_with_call(5));
    assert!(!reg.register_with_call(5));
    assert!(reg.register_with_call(6));
}

#[test]
fn append_preserves_order() {
    let mut st = SpeakerState::new(1, 0);
    st.append(&[1, 2], 1, 0);
    st.append(&[3, 4], 2, 0);
    st.close(3);
    st.append(&[5, 6], 5, 0);
    let all: Vec<i16> = st.segments.iter().flat_map(|s| s.samples.iter().copied()).collect();
    assert_eq!(all, vec![1, 2, 3, 4, 5, 6]);
    assert_eq!(st.segments.len(), 2);
}

#[test]
fn single_open_segment_at_the_tail() {
    let mut rec = GuildRecorder::new(1, RecorderConfig::defaults());
    rec.handle_speaking_state(10, Some(1), 0);
    let mut entries = vec![speech(10, 1)];
    for i in 0..30 {
        rec.handle_tick(&entries, 0);
        entries = if i % 3 == 0 { vec![] } else { vec![speech(10, 1)] };
    }
    let segs = rec.segments_of(10).unwrap();
    let open = segs.iter().filter(|s| s.end_tick.is_none()).count();
    assert!(open <= 1);
    for s in &segs[..segs.len() - 1] {
        assert!(s.end_tick.is_some());
    }
}

#[test]
fn buffer_stays_within_the_window() {
    let mut rec = GuildRecorder::new(1, RecorderConfig::with_window(Some(1)));
    rec.handle_speaking_state(10, Some(1), 0);
    for i in 0..400u32 {
        let talking = i % 7 < 4;
        let entries = if talking { vec![speech(10, 1)] } else { vec![] };
        rec.handle_tick(&entries, 0);
        if talking {
            continue;
        }
        let now = rec.tick_counter();
        for s in rec.segments_of(10).unwrap() {
            if s.end_tick.is_some() {
                assert!(s.start_tick + 50 >= now);
            }
        }
    }
}

#[test]
fn snapshot_tracks_have_equal_length_and_alignment() {
    let tracks = vec![
        SpeakerTrack { user_id: 1, segments: vec![segment(3, Some(5), 1, 2), segment(9, None, 1, 1)] },
        SpeakerTrack { user_id: 2, segments: vec![segment(1, Some(2), 2, 1)] },
        SpeakerTrack { user_id: 3, segments: vec![segment(4, Some(4), 3, 3)] },
    ];
    let out = align_snapshot(&tracks, 10).unwrap();
    let len = out[0].pcm.len();
    assert!(out.iter().all(|t| t.pcm.len() == len));
    // User 3 holds three ticks of samples in a segment marked as ending where it began:
    // its track runs 3 + 3 + 6 ticks, the longest, and the others are padded to it.
    assert_eq!(len, 12 * 1920);
    // first_start is tick 1: user 1 begins 2 ticks in, user 3 begins 3 ticks in.
    assert!(out[0].pcm[..2 * 1920].iter().all(|&s| s == 0));
    assert!(out[0].pcm[2 * 1920..4 * 1920].iter().all(|&s| s == 1));
    assert!(out[1].pcm[..1920].iter().all(|&s| s == 2));
    assert!(out[2].pcm[..3 * 1920].iter().all(|&s| s == 0));
    assert!(out[2].pcm[3 * 1920..6 * 1920].iter().all(|&s| s == 3));
}

#[test]
fn alignment_is_repeatable() {
    let mut reg = registry(RecorderConfig::defaults());
    announce(&mut reg, 1, 1, 0);
    announce(&mut reg, 2, 2, 0);
    tick(&mut reg, vec![speech(1, 5)], 0);
    tick(&mut reg, vec![speech(2, 6)], 0);
    tick(&mut reg, vec![speech(1, 7), speech(2, 8)], 0);
    let first = reg.save_recording(GUILD).unwrap();
    let second = reg.save_recording(GUILD).unwrap();
    assert_eq!(first.len(), second.len());
    for (a, b) in first.iter().zip(second.iter()) {
        assert_eq!(a.user_id, b.user_id);
        assert_eq!(a.pcm, b.pcm);
    }
}

#[test]
fn empty_snapshot_is_no_data() {
    assert!(matches!(align_snapshot(&vec![], 0), Err(e) if e.is_no_data()));
}

#[test]
fn speaking_edge_closes_the_segment() {
    let mut rec = GuildRecorder::new(1, RecorderConfig::defaults());
    rec.handle_speaking_state(10, Some(1), 0);
    rec.handle_tick(&vec![speech(10, 1)], 0);
    rec.handle_speaking_edge(10, true);
    assert_eq!(rec.segments_of(10).unwrap()[0].end_tick, None);
    rec.handle_speaking_edge(10, false);
    assert_eq!(rec.segments_of(10).unwrap()[0].end_tick, Some(1));
}

#[test]
fn clipping_drops_ticks_before_the_cutoff() {
    let segs = vec![segment(2, Some(4), 1, 2), segment(10, None, 2, 5)];
    let c = clip_segments(&segs, 12);
    assert_eq!(c.len(), 1);
    assert_eq!(c[0].start_tick, 12);
    assert_eq!(c[0].samples.len(), 3 * 1920);
}

#[test]
fn track_file_names() {
    assert_eq!(track_file_name(Some("alice"), 7), "alice.mp3");
    assert_eq!(track_file_name(Some("a/b\\c"), 7), "abc.mp3");
    assert_eq!(track_file_name(None, 123), "123.mp3");
    let long = "a".repeat(300);
    let name = track_file_name(Some(&long), 9);
    assert!(name.ends_with(".mp3"));
    assert_eq!(name.len(), 255 + 4);
    assert_eq!(track_file_name(Some(".."), 6), "6.mp3");
    let dots = ".".repeat(300);
    assert_eq!(track_file_name(Some(&dots), 8), "8.mp3");
    assert_eq!(track_file_name(Some("mr @ home."), 1), "mr @ home..mp3");
}

#[test]
fn folders_and_paths() {
    assert_eq!(snapshot_folder(3, 1700000000), "data/recorder/3/1700000000");
    assert_eq!(recording_file_path(3, 17, "../x/y.mp3"), "data/recorder/3/17/..xy.mp3");
    assert_eq!(mix_file_path(3, "12.mp3"), "data/mixes/3/12.mp3");
    assert_eq!(get_full_sound_path("/abs/file.mp3"), "/abs/file.mp3");
    assert_eq!(decimal_string(0), "0");
    assert_eq!(decimal_string(u64::MAX), "18446744073709551615");
}

#[test]
fn timestamps_of_folder_names() {
    assert_eq!(parse_timestamp("1700000000"), Some(1700000000));
    assert_eq!(parse_timestamp("+12"), Some(12));
    assert_eq!(parse_timestamp("18446744073709551615"), Some(u64::MAX));
    assert_eq!(parse_timestamp("18446744073709551616"), None);
    assert_eq!(parse_timestamp(""), None);
    assert_eq!(parse_timestamp("+"), None);
    assert_eq!(parse_timestamp("12a"), None);
    assert_eq!(parse_timestamp("-1"), None);
}

#[test]
fn codec_arguments_and_bytes() {
    assert_eq!(
        encode_args("out/a.mp3"),
        vec!["-f", "s16le", "-ar", "48000", "-ac", "2", "-i", "pipe:", "out/a.mp3"]
    );
    let args = mix_args(&vec!["x.mp3".to_string(), "y.mp3".to_string()], "F", "o.mp3");
    assert_eq!(args, vec!["-i", "x.mp3", "-i", "y.mp3", "-filter_complex", "F", "-ac", "2", "o.mp3"]);
    assert_eq!(pcm_le_bytes(&vec![1, -2, 0x1234]), vec![1, 0, 0xfe, 0xff, 0x34, 0x12]);
}

#[test]
fn window_configuration() {
    let c = RecorderConfig::with_window(None);
    assert_eq!(c.recording_window_seconds, 60);
    assert_eq!(c.window_ticks(), 3000);
    assert_eq!(RecorderConfig::with_window(Some(2)).window_ticks(), 100);
    assert_eq!(RecorderConfig::defaults().mix_ttl_seconds, 300);
}

#[test]
fn speaking_keeps_earlier_segments() {
    let mut rec = GuildRecorder::new(1, RecorderConfig::with_window(Some(0)));
    rec.handle_speaking_state(1, Some(1), 0);
    rec.handle_tick(&vec![TickEntry { ssrc: 1, pcm: Some(vec![5]) }], 0);
    rec.handle_speaking_edge(1, false);
    rec.handle_tick(&vec![TickEntry { ssrc: 1, pcm: Some(vec![6]) }], 0);
    let segs = rec.segments_of(1).unwrap();
    assert_eq!(segs.len(), 2);
    assert_eq!((segs[0].start_tick, segs[0].end_tick, segs[0].samples.clone()), (1, Some(1), vec![5]));
    assert_eq!((segs[1].start_tick, segs[1].end_tick, segs[1].samples.clone()), (2, None, vec![6]));
}

#[test]
fn open_segment_ends_at_the_tick_counter() {
    let mut reg = registry(RecorderConfig::defaults());
    announce(&mut reg, 1, 1, 0);
    tick(&mut reg, vec![speech(1, 4)], 0);
    tick(&mut reg, vec![TickEntry { ssrc: 1, pcm: None }], 0);
    tick(&mut reg, vec![TickEntry { ssrc: 1, pcm: None }], 0);
    let tracks = reg.save_recording(GUILD).unwrap();
    // The open segment starts at tick 1 and holds one frame; the timeline runs to tick 3.
    assert_eq!(tracks[0].pcm.len(), 2 * 1920);
    assert!(tracks[0].pcm[..1920].iter().all(|&s| s == 4));
    assert!(tracks[0].pcm[1920..].iter().all(|&s| s == 0));
}

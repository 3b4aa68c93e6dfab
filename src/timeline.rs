//! The tick timeline: every duration in the recorder is counted in 20 ms voice frames.
use vstd::prelude::*;

verus! {

/// Sample rate of the decoded voice stream, in samples per second and channel.
pub const SAMPLE_RATE: u64 = 48000;

/// Number of interleaved channels in the decoded voice stream.
pub const CHANNELS: u64 = 2;

/// Samples per channel carried by one voice frame (20 ms).
pub const SAMPLES_PER_TICK_PER_CHANNEL: u64 = 960;

/// Interleaved samples carried by one voice frame.
pub const SAMPLES_PER_TICK: u64 = SAMPLES_PER_TICK_PER_CHANNEL * CHANNELS;

/// Voice frames per second.
pub const TICKS_PER_SECOND: u64 = 50;

/// Default depth of the rolling buffer, in seconds.
pub const DEFAULT_RECORDING_WINDOW_SECONDS: u64 = 60;

/// Default time after the last voice activity at which a speaker is forgotten, in seconds.
pub const DEFAULT_USER_IDLE_SECONDS: u64 = 3600;

/// Default interval at which a speaker's collector wakes up, in seconds.
pub const DEFAULT_USER_GC_PERIOD_SECONDS: u64 = 7200;

/// Default lifetime of a mix, in seconds.
pub const DEFAULT_MIX_TTL_SECONDS: u64 = 300;

/// Largest recording window that can be expressed in ticks.
pub const MAX_RECORDING_WINDOW_SECONDS: u64 = 368934881474191032;

/// Number of ticks needed to hold `samples` interleaved samples (rounded up).
pub open spec fn ticks_for(samples: int) -> int {
    (samples + SAMPLES_PER_TICK as int - 1) / SAMPLES_PER_TICK as int
}

/// The first tick that is still inside a window of `window_ticks` ending at `now`.
pub open spec fn window_cutoff(now: u64, window_ticks: u64) -> u64 {
    if now > window_ticks {
        (now - window_ticks) as u64
    } else {
        0
    }
}

/// Configuration of the recording engine, in seconds.
#[derive(Clone, Copy, Debug, PartialEq, Eq)]
pub struct RecorderConfig {
    /// Depth of the rolling buffer.
    pub recording_window_seconds: u64,
    /// Time without voice activity after which a speaker is removed.
    pub user_idle_seconds: u64,
    /// Interval at which a speaker's collector checks for idleness.
    pub user_gc_period_seconds: u64,
    /// Lifetime of a mix file.
    pub mix_ttl_seconds: u64,
}

impl RecorderConfig {
    /// Whether the window can be expressed in ticks.
    pub open spec fn wf(&self) -> bool {
        self.recording_window_seconds <= MAX_RECORDING_WINDOW_SECONDS
    }

    /// Depth of the rolling buffer in ticks.
    pub open spec fn window_ticks_spec(&self) -> int {
        self.recording_window_seconds * TICKS_PER_SECOND as int
    }

    /// The configuration with every value at its default.
    pub fn defaults() -> (r: Self)
        ensures
            r.wf(),
            r.recording_window_seconds == DEFAULT_RECORDING_WINDOW_SECONDS,
            r.user_idle_seconds == DEFAULT_USER_IDLE_SECONDS,
            r.user_gc_period_seconds == DEFAULT_USER_GC_PERIOD_SECONDS,
            r.mix_ttl_seconds == DEFAULT_MIX_TTL_SECONDS,
    {
        RecorderConfig {
            recording_window_seconds: DEFAULT_RECORDING_WINDOW_SECONDS,
            user_idle_seconds: DEFAULT_USER_IDLE_SECONDS,
            user_gc_period_seconds: DEFAULT_USER_GC_PERIOD_SECONDS,
            mix_ttl_seconds: DEFAULT_MIX_TTL_SECONDS,
        }
    }

    /// The default configuration with another recording window, as read from the environment.
    pub fn with_window(window: Option<u64>) -> (r: Self)
        ensures
            r.wf(),
            r.recording_window_seconds == match window {
                Some(w) => if w <= MAX_RECORDING_WINDOW_SECONDS {
                    w
                } else {
                    MAX_RECORDING_WINDOW_SECONDS
                },
                None => DEFAULT_RECORDING_WINDOW_SECONDS,
            },
            r.user_idle_seconds == DEFAULT_USER_IDLE_SECONDS,
            r.user_gc_period_seconds == DEFAULT_USER_GC_PERIOD_SECONDS,
            r.mix_ttl_seconds == DEFAULT_MIX_TTL_SECONDS,
    {
        let mut r = Self::defaults();
        match window {
            Some(w) => {
                r.recording_window_seconds = if w <= MAX_RECORDING_WINDOW_SECONDS {
                    w
                } else {
                    MAX_RECORDING_WINDOW_SECONDS
                };
            },
            None => {},
        }
        r
    }

    /// Depth of the rolling buffer in ticks.
    pub fn window_ticks(&self) -> (r: u64)
        requires
            self.wf(),
        ensures
            r == self.window_ticks_spec(),
    {
        self.recording_window_seconds * TICKS_PER_SECOND
    }
}

/// The first tick inside a window of `window_ticks` ending at `now`.
pub fn cutoff_tick(now: u64, window_ticks: u64) -> (r: u64)
    ensures
        r == window_cutoff(now, window_ticks),
{
    if now > window_ticks {
        now - window_ticks
    } else {
        0
    }
}

/// Number of interleaved samples in `nanos` nanoseconds of audio, rounded to the nearest sample.
pub fn nanos_to_samples(nanos: u128) -> (r: usize)
    requires
        (nanos * (SAMPLE_RATE * CHANNELS) as u128 + 500000000) / 1000000000 <= usize::MAX,
    ensures
        r == (nanos * (SAMPLE_RATE * CHANNELS) as int + 500000000) / 1000000000,
{
    assert(nanos * 96000 <= u128::MAX - 500000000) by (nonlinear_arith)
        requires
            (nanos * 96000 + 500000000) / 1000000000 <= usize::MAX,
            usize::MAX <= u64::MAX,
    ;
    ((nanos * 96000 + 500000000) / 1000000000) as usize
}

} // verus!

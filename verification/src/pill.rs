use vstd::prelude::*;
use std::collections::VecDeque;

verus! {

/// What the recording pill shows.
#[derive(Debug, Clone, Copy, PartialEq, Eq, Structural)]
pub enum Phase {
    Record,
    Transcribing,
    MicOn,
}

/// The number under which a phase is stored (0, 1, 2).
pub open spec fn phase_code(p: Phase) -> u8 {
    match p {
        Phase::Record => 0,
        Phase::Transcribing => 1,
        Phase::MicOn => 2,
    }
}

impl Phase {
    /// The number under which this phase is stored.
    pub fn to_u8(self) -> (r: u8)
        ensures
            r == phase_code(self),
    {
        match self {
            Phase::Record => 0,
            Phase::Transcribing => 1,
            Phase::MicOn => 2,
        }
    }

    /// The phase stored as `v`; anything unknown reads as `Record`.
    pub fn from_u8(v: u8) -> (r: Phase)
        ensures
            r == (if v == 1 {
                Phase::Transcribing
            } else if v == 2 {
                Phase::MicOn
            } else {
                Phase::Record
            }),
    {
        match v {
            1 => Phase::Transcribing,
            2 => Phase::MicOn,
            _ => Phase::Record,
        }
    }
}

/// Reading back the stored number of a phase gives the phase.
pub proof fn lemma_phase_round_trip(p: Phase)
    ensures
        (if phase_code(p) == 1 {
            Phase::Transcribing
        } else if phase_code(p) == 2 {
            Phase::MicOn
        } else {
            Phase::Record
        }) == p,
{
}

/// An RGBA colour.
pub type Rgba = (u8, u8, u8, u8);

/// Card fill and edge colour of the pill in `phase`: a half-transparent black
/// card, with a red edge while recording, a blue one while transcribing and a
/// faint white one while the microphone is open.
pub open spec fn theme_of(phase: Phase) -> (Rgba, Rgba) {
    match phase {
        Phase::Record => ((0, 0, 0, 128), (255, 107, 107, 255)),
        Phase::Transcribing => ((0, 0, 0, 128), (90, 169, 230, 255)),
        Phase::MicOn => ((0, 0, 0, 128), (255, 255, 255, 64)),
    }
}

/// Card fill and edge colour of the pill in `phase`.
pub fn phase_theme(phase: Phase) -> (r: (Rgba, Rgba))
    ensures
        r == theme_of(phase),
{
    match phase {
        Phase::Record => ((0, 0, 0, 128), (255, 107, 107, 255)),
        Phase::Transcribing => ((0, 0, 0, 128), (90, 169, 230, 255)),
        Phase::MicOn => ((0, 0, 0, 128), (255, 255, 255, 64)),
    }
}

/// Whether the pill shows a level meter: in `Record` and `MicOn`, when there
/// is a recording to meter.
pub fn is_metered(phase: Phase, has_meter: bool) -> (r: bool)
    ensures
        r == ((phase == Phase::Record || phase == Phase::MicOn) && has_meter),
{
    (matches!(phase, Phase::Record) || matches!(phase, Phase::MicOn)) && has_meter
}

/// How long the pill waits before it calls a recording stalled: one second
/// after start, and 1.5 seconds without the file growing (in nanoseconds).
pub open spec fn grace_ns() -> u64 {
    1_000_000_000
}

pub open spec fn stall_ns() -> u64 {
    1_500_000_000
}

/// Watches a recording file grow. Times are nanoseconds on one monotonic clock.
pub struct MeterTracker {
    /// Largest file length seen so far.
    pub last_len: u64,
    /// When the file last grew.
    pub last_progress: u64,
}

impl MeterTracker {
    /// A tracker that has seen an empty file at time `now`.
    pub fn new(now: u64) -> (r: MeterTracker)
        ensures
            r.last_len == 0,
            r.last_progress == now,
    {
        MeterTracker { last_len: 0, last_progress: now }
    }

    /// Records that the file is `len` bytes long at time `now`, `elapsed`
    /// after the pill started; gives whether the recording has stalled.
    pub fn observe(&mut self, len: u64, now: u64, elapsed: u64) -> (stalled: bool)
        ensures
            final(self).last_len == (if len > old(self).last_len {
                len
            } else {
                old(self).last_len
            }),
            final(self).last_progress == (if len > old(self).last_len {
                now
            } else {
                old(self).last_progress
            }),
            stalled == (elapsed > grace_ns() && now >= final(self).last_progress && now
                - final(self).last_progress > stall_ns()),
    {
        if len > self.last_len {
            self.last_len = len;
            self.last_progress = now;
        }
        elapsed > 1_000_000_000 && now >= self.last_progress && now - self.last_progress
            > 1_500_000_000
    }
}

/// Watches the microphone volume for the end of a recording: the volume has
/// to reach the recording level once before leaving it ends the recording.
pub struct RecordingLatch {
    pub armed: bool,
}

/// One reading of the latch: armed once the level was reached, and the
/// recording ends when an armed latch reads a volume off the level.
pub open spec fn latch_step(armed: bool, at_level: Option<bool>) -> (bool, bool) {
    (armed || at_level == Some(true), armed && at_level == Some(false))
}

/// Whether a new latch is armed after the readings `obs`.
pub open spec fn latch_armed(obs: Seq<Option<bool>>) -> bool
    decreases obs.len(),
{
    if obs.len() == 0 {
        false
    } else {
        latch_step(latch_armed(obs.drop_last()), obs.last()).0
    }
}

proof fn lemma_latch_armed(obs: Seq<Option<bool>>)
    ensures
        latch_armed(obs) <==> exists|i: int| 0 <= i < obs.len() && obs[i] == Some(true),
    decreases obs.len(),
{
    if obs.len() > 0 {
        let pre = obs.drop_last();
        lemma_latch_armed(pre);
        if latch_armed(pre) {
            let i = choose|i: int| 0 <= i < pre.len() && pre[i] == Some(true);
            assert(obs[i] == Some(true));
        }
        if exists|i: int| 0 <= i < obs.len() && obs[i] == Some(true) {
            let i = choose|i: int| 0 <= i < obs.len() && obs[i] == Some(true);
            if i < obs.len() - 1 {
                assert(pre[i] == Some(true));
            }
        }
    }
}

/// The recording ends at a reading exactly when that reading is off the
/// level and an earlier reading reached it: a new latch fed the readings
/// `obs` reports the end at the last one if and only if so.
pub proof fn lemma_latch_ends_after_level(obs: Seq<Option<bool>>)
    requires
        obs.len() > 0,
    ensures
        latch_step(latch_armed(obs.drop_last()), obs.last()).1 <==> (obs.last() == Some(false)
            && exists|i: int| 0 <= i < obs.len() - 1 && obs[i] == Some(true)),
{
    let pre = obs.drop_last();
    lemma_latch_armed(pre);
    if exists|i: int| 0 <= i < obs.len() - 1 && obs[i] == Some(true) {
        let i = choose|i: int| 0 <= i < obs.len() - 1 && obs[i] == Some(true);
        assert(pre[i] == Some(true));
    }
    if latch_armed(pre) {
        let i = choose|i: int| 0 <= i < pre.len() && pre[i] == Some(true);
        assert(obs[i] == Some(true));
    }
}

impl RecordingLatch {
    pub fn new() -> (r: RecordingLatch)
        ensures
            !r.armed,
    {
        RecordingLatch { armed: false }
    }

    /// Takes one volume reading: `None` when it could not be read, else
    /// whether the volume was at the recording level. Gives whether the
    /// recording has ended.
    pub fn observe(&mut self, at_level: Option<bool>) -> (ended: bool)
        ensures
            (final(self).armed, ended) == latch_step(old(self).armed, at_level),
    {
        match at_level {
            Some(true) => {
                self.armed = true;
                false
            },
            Some(false) => self.armed,
            None => false,
        }
    }
}

/// Why a dictation recording stopped.
#[derive(Debug, Clone, Copy, PartialEq, Eq, Structural)]
pub enum Stop {
    /// Released, timed out or told to finish: transcribe what was recorded.
    Transcribe,
    /// Interrupted or terminated: throw the recording away.
    Abort,
}

/// What to do with a finished dictation recording.
#[derive(Debug, Clone, Copy, PartialEq, Eq, Structural)]
pub enum AfterRecording {
    /// Remove the recording and exit with status 130.
    Abort,
    /// The recording file is missing or empty: fail.
    Missing,
    /// Under `MIN_WAV` bytes, an accidental tap: remove it and stop quietly.
    TooShort,
    /// Send it for transcription.
    Transcribe,
}

/// Recordings shorter than this (about 5 ms of audio) are accidental taps.
pub const MIN_WAV: u64 = 1024;

/// Decides what follows a dictation recording of `len` bytes (0 when the file
/// is missing) that stopped for `stop`.
pub fn after_recording(stop: Stop, len: u64) -> (r: AfterRecording)
    ensures
        r == (if stop == Stop::Abort {
            AfterRecording::Abort
        } else if len == 0 {
            AfterRecording::Missing
        } else if len < MIN_WAV {
            AfterRecording::TooShort
        } else {
            AfterRecording::Transcribe
        }),
{
    if matches!(stop, Stop::Abort) {
        AfterRecording::Abort
    } else if len == 0 {
        AfterRecording::Missing
    } else if len < MIN_WAV {
        AfterRecording::TooShort
    } else {
        AfterRecording::Transcribe
    }
}


/// How many level readings the pill keeps.
pub const BARS: usize = 60;

/// How many of the newest readings the push-to-talk badge shows.
pub const PTT_BARS: usize = 23;

/// Appends the reading `v` to the history `levels`, then drops the oldest
/// readings until at most `cap` are left.
pub fn push_level<T>(levels: &mut VecDeque<T>, v: T, cap: usize)
    ensures
        final(levels)@ == {
            let all = old(levels)@.push(v);
            if all.len() > cap {
                all.skip(all.len() - cap)
            } else {
                all
            }
        },
{
    let ghost start = levels@;
    levels.push_back(v);
    let ghost all = levels@;
    assert(all == start.push(v));
    while levels.len() > cap
        invariant
            all.len() >= levels@.len(),
            levels@.len() >= cap || levels@.len() == all.len(),
            levels@ == all.skip(all.len() - levels@.len()),
        decreases levels@.len(),
    {
        levels.pop_front();
        assert(levels@ =~= all.skip(all.len() - levels@.len()));
    }
    assert(all.skip(0) =~= all);
}

/// The colour of the level bars: grey while the recording is stalled, else white.
pub fn bar_rgb(stalled: bool) -> (r: (u8, u8, u8))
    ensures
        r == (if stalled {
            (153u8, 153u8, 153u8)
        } else {
            (255u8, 255u8, 255u8)
        }),
{
    if stalled {
        (153, 153, 153)
    } else {
        (255, 255, 255)
    }
}

/// Which of the `len` stored readings the pill draws, as (first index,
/// count): the push-to-talk badge the newest `PTT_BARS`, the dictation pill
/// the oldest `BARS`.
pub fn shown_levels(phase: Phase, len: usize) -> (r: (usize, usize))
    ensures
        r == (if phase == Phase::MicOn {
            if len > PTT_BARS {
                ((len - PTT_BARS) as usize, PTT_BARS)
            } else {
                (0usize, len)
            }
        } else if len > BARS {
            (0usize, BARS)
        } else {
            (0usize, len)
        }),
{
    if matches!(phase, Phase::MicOn) {
        if len > PTT_BARS {
            (len - PTT_BARS, PTT_BARS)
        } else {
            (0, len)
        }
    } else if len > BARS {
        (0, BARS)
    } else {
        (0, len)
    }
}

} // verus!

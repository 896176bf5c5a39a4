//! The utterance assembler: a tick-driven state machine (Idle / Speaking)
//! that merges micro-chunks into utterances using speech and silence timers.

use vstd::prelude::*;
use crate::audio::{calculate_rms, is_isqrt, mean_square};

verus! {

/// Samples per millisecond at the target rate.
pub const SAMPLES_PER_MS: usize = 16;

/// Shortest utterance that is dispatched, in milliseconds.
pub const MIN_SPEECH_MS: u64 = 3000;

/// Silence after the last speech that ends an utterance, in milliseconds.
pub const SILENCE_TIMEOUT_MS: u64 = 2000;

/// Longest utterance, in milliseconds: it is emitted once this much has passed.
pub const MAX_BATCH_MS: u64 = 15000;

/// `MIN_SPEECH_MS` worth of samples.
pub const MIN_SPEECH_SAMPLES: usize = 48000;

/// `MAX_BATCH_MS` worth of samples: the bound on the buffer.
pub const MAX_BATCH_SAMPLES: usize = 240000;

/// RMS level (PCM units) above which a tick's audio counts as speech.
pub const SPEECH_THRESHOLD: u32 = 32;

/// Lower RMS level above which an utterance already under way counts as
/// still talking.
pub const STILL_TALKING_THRESHOLD: u32 = 16;

/// Milliseconds from `from` to `now`; zero if `now` is earlier.
pub open spec fn elapsed(from: u64, now: u64) -> int {
    if now >= from { now - from } else { 0 }
}

/// The utterance begun at `start`, with speech last heard at `last`, is due
/// at `now`: long enough and followed by enough silence, or at its maximum.
pub open spec fn emit_due(start: u64, last: u64, now: u64) -> bool {
    (elapsed(start, now) >= MIN_SPEECH_MS && elapsed(last, now) >= SILENCE_TIMEOUT_MS)
        || elapsed(start, now) >= MAX_BATCH_MS
}

/// The newest `MAX_BATCH_SAMPLES` samples of `s`.
pub open spec fn trimmed(s: Seq<i16>) -> Seq<i16> {
    if s.len() > MAX_BATCH_SAMPLES {
        s.subrange(s.len() - MAX_BATCH_SAMPLES, s.len() as int)
    } else {
        s
    }
}

/// What one tick led to.
pub enum TickOutcome {
    /// Nothing to hand on.
    Waiting,
    /// A dispatch is outstanding; the tick's audio was not taken.
    Busy,
    /// A complete utterance to dispatch.
    Dispatch(Vec<i16>),
    /// An utterance ended shorter than the minimum and was dropped.
    Discarded,
}

/// State of the utterance assembler.
pub struct UtteranceAssembler {
    pub buffer: Vec<i16>,
    pub speaking: bool,
    pub speech_start: Option<u64>,
    pub last_speech: Option<u64>,
    /// A dispatched utterance has not been answered yet.
    pub processing: bool,
    /// RMS level of the last tick's audio.
    pub last_level: u32,
}

/// The assembler's state as values: buffer, speaking, the two timers
/// (zero while idle) and whether a dispatch is outstanding.
pub struct AssemblerModel {
    pub buffer: Seq<i16>,
    pub speaking: bool,
    pub start: u64,
    pub last: u64,
    pub processing: bool,
}

/// What one tick of the model led to.
pub enum StepOutcome {
    Waiting,
    Busy,
    Dispatched(Seq<i16>),
    Discarded,
}

/// One tick of the model at `now` with audio `inc` whose RMS level is
/// `level` (ignored when `inc` is empty).
pub open spec fn step(s: AssemblerModel, now: u64, inc: Seq<i16>, level: u32) -> (AssemblerModel, StepOutcome) {
    if s.processing {
        (AssemblerModel { buffer: trimmed(s.buffer + inc), ..s }, StepOutcome::Busy)
    } else {
        let heard = inc.len() > 0;
        let speech = heard && level > SPEECH_THRESHOLD;
        let speaking = s.speaking || speech;
        let start = if speech && !s.speaking { now } else { s.start };
        let last = if speech || (heard && level > STILL_TALKING_THRESHOLD && s.speaking) { now } else { s.last };
        let buf = if speaking { s.buffer + inc } else { s.buffer };
        let due = speaking && emit_due(start, last, now) && buf.len() > 0;
        if due && buf.len() >= MIN_SPEECH_SAMPLES {
            (
                AssemblerModel { buffer: Seq::empty(), speaking: false, start: 0, last: 0, processing: true },
                StepOutcome::Dispatched(buf),
            )
        } else if due {
            (
                AssemblerModel { buffer: Seq::empty(), speaking: false, start: 0, last: 0, processing: false },
                StepOutcome::Discarded,
            )
        } else {
            (
                AssemblerModel {
                    buffer: trimmed(buf),
                    speaking,
                    start: if speaking { start } else { 0 },
                    last: if speaking { last } else { 0 },
                    processing: false,
                },
                StepOutcome::Waiting,
            )
        }
    }
}

/// The model outcome that an executable outcome stands for.
pub open spec fn outcome_model(r: TickOutcome) -> StepOutcome {
    match r {
        TickOutcome::Waiting => StepOutcome::Waiting,
        TickOutcome::Busy => StepOutcome::Busy,
        TickOutcome::Dispatch(a) => StepOutcome::Dispatched(a@),
        TickOutcome::Discarded => StepOutcome::Discarded,
    }
}

impl UtteranceAssembler {
    /// The state as values.
    pub open spec fn model(&self) -> AssemblerModel {
        AssemblerModel {
            buffer: self.buffer@,
            speaking: self.speaking,
            start: match self.speech_start { Some(t) => t, None => 0 },
            last: match self.last_speech { Some(t) => t, None => 0 },
            processing: self.processing,
        }
    }

    /// Timers are set exactly while speaking, and the buffer never exceeds
    /// its bound.
    pub open spec fn wf(&self) -> bool {
        &&& self.speaking <==> self.speech_start.is_some()
        &&& self.speaking <==> self.last_speech.is_some()
        &&& self.buffer@.len() <= MAX_BATCH_SAMPLES
    }

    /// An idle assembler with an empty buffer.
    pub fn new() -> (r: UtteranceAssembler)
        ensures
            r.wf(),
            !r.speaking,
            !r.processing,
            r.buffer@.len() == 0,
            r.last_level == 0,
    {
        UtteranceAssembler {
            buffer: Vec::new(),
            speaking: false,
            speech_start: None,
            last_speech: None,
            processing: false,
            last_level: 0,
        }
    }

    /// Marks the outstanding dispatch as answered.
    pub fn finish_dispatch(&mut self)
        requires
            old(self).wf(),
        ensures
            final(self).wf(),
            !final(self).processing,
            final(self).buffer@ == old(self).buffer@,
            final(self).speaking == old(self).speaking,
            final(self).speech_start == old(self).speech_start,
            final(self).last_speech == old(self).last_speech,
    {
        self.processing = false;
    }

    fn append(&mut self, incoming: &Vec<i16>)
        ensures
            final(self).buffer@ == old(self).buffer@ + incoming@,
            final(self).speaking == old(self).speaking,
            final(self).speech_start == old(self).speech_start,
            final(self).last_speech == old(self).last_speech,
            final(self).processing == old(self).processing,
            final(self).last_level == old(self).last_level,
    {
        let mut i: usize = 0;
        while i < incoming.len()
            invariant
                i <= incoming@.len(),
                self.buffer@ == old(self).buffer@ + incoming@.subrange(0, i as int),
                self.speaking == old(self).speaking,
                self.speech_start == old(self).speech_start,
                self.last_speech == old(self).last_speech,
                self.processing == old(self).processing,
                self.last_level == old(self).last_level,
            decreases incoming@.len() - i,
        {
            self.buffer.push(incoming[i]);
            assert(incoming@.subrange(0, i + 1) == incoming@.subrange(0, i as int).push(incoming@[i as int]));
            i += 1;
        }
        assert(incoming@.subrange(0, incoming@.len() as int) == incoming@);
    }

    fn trim(&mut self)
        ensures
            final(self).buffer@ == trimmed(old(self).buffer@),
            final(self).speaking == old(self).speaking,
            final(self).speech_start == old(self).speech_start,
            final(self).last_speech == old(self).last_speech,
            final(self).processing == old(self).processing,
            final(self).last_level == old(self).last_level,
    {
        let len = self.buffer.len();
        if len > MAX_BATCH_SAMPLES {
            let cut = len - MAX_BATCH_SAMPLES;
            let mut kept: Vec<i16> = Vec::new();
            let mut k: usize = cut;
            while k < len
                invariant
                    cut <= k <= len,
                    len == self.buffer@.len(),
                    kept@ == self.buffer@.subrange(cut as int, k as int),
                decreases len - k,
            {
                kept.push(self.buffer[k]);
                assert(self.buffer@.subrange(cut as int, k + 1)
                    == self.buffer@.subrange(cut as int, k as int).push(self.buffer@[k as int]));
                k += 1;
            }
            self.buffer = kept;
        }
    }

    fn reset(&mut self)
        ensures
            final(self).buffer@.len() == 0,
            !final(self).speaking,
            final(self).speech_start.is_none(),
            final(self).last_speech.is_none(),
            final(self).processing == old(self).processing,
            final(self).last_level == old(self).last_level,
    {
        self.buffer = Vec::new();
        self.speaking = false;
        self.speech_start = None;
        self.last_speech = None;
    }

    /// One tick at time `now_ms` with the audio that arrived since the last
    /// tick. While a dispatch is outstanding the audio only joins the buffer
    /// (cut to its newest `MAX_BATCH_SAMPLES`). Otherwise the
    /// level of any new audio is measured, speech starts or refreshes the
    /// timers, audio joins the buffer while speaking, and the emit rule is
    /// evaluated once (also on a tick without new audio): a due utterance of at least
    /// `MIN_SPEECH_SAMPLES` is dispatched, a shorter one discarded. Then the
    /// buffer is cut to its newest `MAX_BATCH_SAMPLES`.
    pub fn tick(&mut self, now_ms: u64, incoming: Vec<i16>) -> (r: TickOutcome)
        requires
            old(self).wf(),
        ensures
            final(self).wf(),
            (final(self).model(), outcome_model(r)) == step(old(self).model(), now_ms, incoming@, final(self).last_level),
            r matches TickOutcome::Dispatch(a) ==> a@.len() >= MIN_SPEECH_SAMPLES,
            r matches TickOutcome::Dispatch(_) ==> !old(self).processing && final(self).processing,
            old(self).processing ==> {
                &&& r matches TickOutcome::Busy
                &&& final(self).buffer@ == trimmed(old(self).buffer@ + incoming@)
                &&& final(self).processing
                &&& final(self).speaking == old(self).speaking
                &&& final(self).speech_start == old(self).speech_start
                &&& final(self).last_speech == old(self).last_speech
                &&& final(self).last_level == old(self).last_level
            },
            !old(self).processing ==> ({
                let heard = incoming@.len() > 0;
                let level = final(self).last_level;
                let speech = heard && level > SPEECH_THRESHOLD;
                let speaking = old(self).speaking || speech;
                let start = if speech && !old(self).speaking { now_ms } else { old(self).speech_start->0 };
                let last = if speech || (heard && level > STILL_TALKING_THRESHOLD && old(self).speaking) {
                    now_ms
                } else {
                    old(self).last_speech->0
                };
                let buf = if speaking { old(self).buffer@ + incoming@ } else { old(self).buffer@ };
                let due = speaking && emit_due(start, last, now_ms) && buf.len() > 0;
                &&& heard ==> is_isqrt(level as int, mean_square(incoming@))
                &&& !heard ==> level == old(self).last_level
                &&& due && buf.len() >= MIN_SPEECH_SAMPLES ==> {
                    &&& r matches TickOutcome::Dispatch(a) && a@ == buf
                    &&& final(self).processing
                    &&& !final(self).speaking && final(self).buffer@.len() == 0
                }
                &&& due && buf.len() < MIN_SPEECH_SAMPLES ==> {
                    &&& r matches TickOutcome::Discarded
                    &&& !final(self).processing
                    &&& !final(self).speaking && final(self).buffer@.len() == 0
                }
                &&& !due ==> {
                    &&& r matches TickOutcome::Waiting
                    &&& !final(self).processing
                    &&& final(self).speaking == speaking
                    &&& speaking ==> final(self).speech_start == Some(start)
                        && final(self).last_speech == Some(last)
                    &&& final(self).buffer@ == trimmed(buf)
                }
            }),
    {
        if self.processing {
            self.append(&incoming);
            self.trim();
            return TickOutcome::Busy;
        }
        let heard = incoming.len() > 0;
        let level = if heard { calculate_rms(incoming.as_slice()) } else { self.last_level };
        self.last_level = level;
        if heard && level > SPEECH_THRESHOLD {
            if !self.speaking {
                self.speaking = true;
                self.speech_start = Some(now_ms);
            }
            self.last_speech = Some(now_ms);
        } else if heard && level > STILL_TALKING_THRESHOLD && self.speaking {
            self.last_speech = Some(now_ms);
        }
        if self.speaking {
            self.append(&incoming);
        }
        if self.speaking && self.buffer.len() > 0 {
            let start = match self.speech_start { Some(s) => s, None => now_ms };
            let last = match self.last_speech { Some(s) => s, None => now_ms };
            let duration = if now_ms >= start { now_ms - start } else { 0 };
            let silence = if now_ms >= last { now_ms - last } else { 0 };
            let due = (duration >= MIN_SPEECH_MS && silence >= SILENCE_TIMEOUT_MS) || duration >= MAX_BATCH_MS;
            if due {
                if self.buffer.len() >= MIN_SPEECH_SAMPLES {
                    let mut audio: Vec<i16> = Vec::new();
                    core::mem::swap(&mut audio, &mut self.buffer);
                    self.reset();
                    self.processing = true;
                    assert(self.buffer@ =~= Seq::<i16>::empty());
                    return TickOutcome::Dispatch(audio);
                } else {
                    self.reset();
                    assert(self.buffer@ =~= Seq::<i16>::empty());
                    return TickOutcome::Discarded;
                }
            }
        }
        self.trim();
        TickOutcome::Waiting
    }
}

/// An idle model: nothing buffered, no timers, no dispatch outstanding.
pub open spec fn idle_model() -> AssemblerModel {
    AssemblerModel { buffer: Seq::empty(), speaking: false, start: 0, last: 0, processing: false }
}

/// The first `k` chunks, joined in order.
pub open spec fn joined_chunks(incs: Seq<Seq<i16>>, k: nat) -> Seq<i16>
    decreases k,
{
    if k == 0 {
        Seq::empty()
    } else {
        joined_chunks(incs, (k - 1) as nat) + incs[k - 1]
    }
}

/// The model and the outcomes after the first `k` ticks of a run in which
/// tick `i` comes at `100 i` ms with audio `incs[i]` of level `levels[i]`.
pub open spec fn run_ticks(s: AssemblerModel, incs: Seq<Seq<i16>>, levels: Seq<u32>, k: nat) -> (AssemblerModel, Seq<StepOutcome>)
    decreases k,
{
    if k == 0 {
        (s, Seq::empty())
    } else {
        let prev = run_ticks(s, incs, levels, (k - 1) as nat);
        let next = step(prev.0, (100 * (k - 1)) as u64, incs[k - 1], levels[k - 1]);
        (next.0, prev.1.push(next.1))
    }
}

/// The conditions of a run of `n` ticks of speech followed by silence:
/// 100 ms ticks of 1600 samples (16 kHz), the first `n` above the speech
/// threshold, the rest at most the still-talking threshold.
pub open spec fn speech_then_silence(incs: Seq<Seq<i16>>, levels: Seq<u32>, n: nat, total: nat) -> bool {
    &&& 30 <= n <= 130
    &&& total >= n + 20
    &&& incs.len() == total
    &&& levels.len() == total
    &&& forall|i: int| 0 <= i < total ==> (#[trigger] incs[i]).len() == 1600
    &&& forall|i: int| 0 <= i < n ==> (#[trigger] levels[i]) > SPEECH_THRESHOLD
    &&& forall|i: int| n <= i < total ==> (#[trigger] levels[i]) <= STILL_TALKING_THRESHOLD
}

proof fn lemma_joined_len(incs: Seq<Seq<i16>>, k: nat)
    requires
        k <= incs.len(),
        forall|i: int| 0 <= i < k ==> (#[trigger] incs[i]).len() == 1600,
    ensures
        joined_chunks(incs, k).len() == 1600 * k,
    decreases k,
{
    if k > 0 {
        lemma_joined_len(incs, (k - 1) as nat);
    }
}

proof fn lemma_run_state(incs: Seq<Seq<i16>>, levels: Seq<u32>, n: nat, total: nat, k: nat)
    requires
        speech_then_silence(incs, levels, n, total),
        k <= total,
    ensures
        run_ticks(idle_model(), incs, levels, k).1.len() == k,
        1 <= k <= n + 19 ==> run_ticks(idle_model(), incs, levels, k).0 == (AssemblerModel {
            buffer: joined_chunks(incs, k),
            speaking: true,
            start: 0,
            last: (100 * ((if k <= n { k } else { n }) - 1)) as u64,
            processing: false,
        }),
        k >= n + 20 ==> run_ticks(idle_model(), incs, levels, k).0.processing,
        forall|i: int| 0 <= i < k ==> ((#[trigger] run_ticks(idle_model(), incs, levels, k).1[i]) is Dispatched <==> i == n + 19),
        k >= n + 20 ==> run_ticks(idle_model(), incs, levels, k).1[n + 19int] == StepOutcome::Dispatched(joined_chunks(incs, n + 20)),
    decreases k,
{
    if k > 0 {
        lemma_run_state(incs, levels, n, total, (k - 1) as nat);
        lemma_joined_len(incs, k);
        let prev = run_ticks(idle_model(), incs, levels, (k - 1) as nat);
        let cur = run_ticks(idle_model(), incs, levels, k);
        assert(cur.1 == prev.1.push(step(prev.0, (100 * (k - 1)) as u64, incs[k - 1], levels[k - 1]).1));
        assert(joined_chunks(incs, k) == joined_chunks(incs, (k - 1) as nat) + incs[k - 1]);
        if k == 1 {
            assert(prev.0 == idle_model());
            assert(Seq::<i16>::empty() + incs[0] =~= incs[0]);
            assert(joined_chunks(incs, 0) == Seq::<i16>::empty());
        }
        assert forall|i: int| 0 <= i < k implies ((#[trigger] cur.1[i]) is Dispatched <==> i == n + 19) by {
            if i < k - 1 {
                assert(cur.1[i] == prev.1[i]);
            }
        }
        if k >= n + 21 {
            assert(cur.1[n + 19int] == prev.1[n + 19int]);
        }
    }
}

/// One utterance of at least 3 s of speech followed by at least 2 s of
/// silence, in 100 ms ticks at 16 kHz, gives exactly one dispatch: at the
/// tick where the silence reaches 2 s, carrying every chunk from speech
/// onset on, in order, which is the utterance's span in samples plus one
/// tick's audio. Later silence dispatches nothing more.
pub proof fn lemma_one_utterance(incs: Seq<Seq<i16>>, levels: Seq<u32>, n: nat, total: nat)
    requires
        speech_then_silence(incs, levels, n, total),
    ensures
        run_ticks(idle_model(), incs, levels, total).1.len() == total,
        forall|i: int| 0 <= i < total ==> ((#[trigger] run_ticks(idle_model(), incs, levels, total).1[i]) is Dispatched <==> i == n + 19),
        run_ticks(idle_model(), incs, levels, total).1[n + 19int] == StepOutcome::Dispatched(joined_chunks(incs, n + 20)),
        joined_chunks(incs, n + 20).len() == 16 * (100 * (n + 19)) + 1600,
{
    lemma_run_state(incs, levels, n, total, total);
    lemma_joined_len(incs, n + 20);
}

} // verus!

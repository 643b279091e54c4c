use vstd::prelude::*;

verus! {

/// Samples per voice activity frame: 20 ms at the recognizer's 16 kHz.
pub const SAMPLES_PER_FRAME: usize = 320;

/// Samples of audio kept from before speech starts: four frames.
pub const VAD_LOOKBACK_SAMPLES: usize = 1280;

/// How many milliseconds of microphone audio the passthrough queue holds.
pub const MAX_MIC_BUFFER_MS: u64 = 500;

/// The last `max` items of `s`, or all of them when there are fewer.
pub open spec fn keep_last<T>(s: Seq<T>, max: nat) -> Seq<T> {
    if s.len() > max {
        s.skip(s.len() - max)
    } else {
        s
    }
}

/// A queue of samples that keeps only the newest ones.
pub struct SampleQueue<T> {
    queue: Vec<T>,
    max_samples: usize,
}

impl<T: Copy> SampleQueue<T> {
    /// The samples, oldest first.
    pub closed spec fn samples(&self) -> Seq<T> {
        self.queue@
    }

    /// How many samples the queue keeps at most.
    pub closed spec fn capacity(&self) -> nat {
        self.max_samples as nat
    }

    /// Whether the queue holds no more than its capacity, which is positive.
    pub closed spec fn well_formed(&self) -> bool {
        self.max_samples > 0 && self.queue@.len() <= self.max_samples
    }

    /// An empty queue keeping at most `max_samples` samples, and at least one.
    pub fn new(max_samples: usize) -> (r: Self)
        ensures
            r.well_formed(),
            r.samples() == Seq::<T>::empty(),
            r.capacity() == if max_samples == 0 {
                1
            } else {
                max_samples as nat
            },
    {
        let max = if max_samples == 0 {
            1
        } else {
            max_samples
        };
        SampleQueue { queue: Vec::new(), max_samples: max }
    }

    /// Appends `samples`, dropping the oldest ones beyond the capacity.
    pub fn push_samples(&mut self, samples: &[T])
        requires
            old(self).well_formed(),
        ensures
            final(self).well_formed(),
            final(self).capacity() == old(self).capacity(),
            final(self).samples() == keep_last(old(self).samples() + samples@, old(self).capacity()),
    {
        if samples.len() == 0 {
            assert(self.queue@ + samples@ =~= self.queue@);
            return;
        }
        let max = self.max_samples;
        let ghost all = self.queue@ + samples@;
        if samples.len() >= max {
            let mut q: Vec<T> = Vec::new();
            let start = samples.len() - max;
            let mut i = start;
            while i < samples.len()
                invariant
                    start <= i <= samples@.len(),
                    q@ == samples@.subrange(start as int, i as int),
                decreases samples@.len() - i,
            {
                q.push(samples[i]);
                i += 1;
            }
            assert(all.skip(all.len() - max) =~= samples@.subrange(start as int, samples@.len() as int));
            self.queue = q;
            return;
        }
        let room = max - samples.len();
        let overflow = if self.queue.len() > room {
            self.queue.len() - room
        } else {
            0
        };
        let mut q: Vec<T> = Vec::new();
        let mut i = overflow;
        let n = self.queue.len();
        while i < n
            invariant
                n == self.queue@.len(),
                overflow <= n,
                overflow <= i <= n,
                q@ == self.queue@.subrange(overflow as int, i as int),
            decreases n - i,
        {
            q.push(self.queue[i]);
            i += 1;
        }
        let mut j: usize = 0;
        while j < samples.len()
            invariant
                q@ == self.queue@.subrange(overflow as int, n as int) + samples@.subrange(0, j as int),
                j <= samples@.len(),
            decreases samples@.len() - j,
        {
            q.push(samples[j]);
            j += 1;
        }
        assert(samples@.subrange(0, samples@.len() as int) == samples@);
        assert(keep_last(all, max as nat) =~= self.queue@.subrange(overflow as int, n as int)
            + samples@);
        self.queue = q;
    }

    /// Takes the oldest sample, if any.
    pub fn pop_front(&mut self) -> (r: Option<T>)
        requires
            old(self).well_formed(),
        ensures
            final(self).well_formed(),
            final(self).capacity() == old(self).capacity(),
            old(self).samples().len() == 0 ==> r is None && final(self).samples() == old(self).samples(),
            old(self).samples().len() > 0 ==> r == Some(old(self).samples()[0]) && final(self).samples()
                == old(self).samples().drop_first(),
    {
        if self.queue.len() == 0 {
            return None;
        }
        let first = self.queue.remove(0);
        Some(first)
    }

    /// The number of samples held.
    pub fn len(&self) -> (r: usize)
        ensures
            r == self.samples().len(),
    {
        self.queue.len()
    }
}

/// The capacity of the microphone passthrough queue at `sample_rate`: half
/// a second of samples, and at least one.
pub fn passthrough_capacity(sample_rate: u32) -> (r: usize)
    ensures
        r as int == if (sample_rate as int * 500) / 1000 == 0 {
            1
        } else {
            (sample_rate as int * 500) / 1000
        },
{
    let samples = (sample_rate as u64 * MAX_MIC_BUFFER_MS) / 1000;
    assert(samples <= u32::MAX);
    let s = samples as usize;
    if s == 0 {
        1
    } else {
        s
    }
}

/// The full chunks at the front of a buffer of samples, in order, and what
/// remains after them.
pub fn split_ready_chunks<T: Copy>(buffer: &mut Vec<T>, samples_per_chunk: usize) -> (chunks: Vec<
    Vec<T>,
>)
    requires
        samples_per_chunk > 0,
    ensures
        final(buffer)@.len() < samples_per_chunk,
        forall|i: int| 0 <= i < chunks@.len() ==> (#[trigger] chunks@[i])@ == old(buffer)@.subrange(
            i * samples_per_chunk,
            (i + 1) * samples_per_chunk,
        ),
        chunks@.len() * samples_per_chunk + final(buffer)@.len() == old(buffer)@.len(),
        final(buffer)@ == old(buffer)@.skip(chunks@.len() * samples_per_chunk),
{
    let ghost orig = buffer@;
    let n = buffer.len();
    let mut chunks: Vec<Vec<T>> = Vec::new();
    let mut start: usize = 0;
    assert(chunks@.len() * samples_per_chunk == 0) by (nonlinear_arith)
        requires
            chunks@.len() == 0,
    ;
    while n - start >= samples_per_chunk
        invariant
            n == orig.len(),
            buffer@ == orig,
            samples_per_chunk > 0,
            start <= n,
            start == chunks@.len() * samples_per_chunk,
            forall|i: int| 0 <= i < chunks@.len() ==> (#[trigger] chunks@[i])@ == orig.subrange(
                i * samples_per_chunk,
                (i + 1) * samples_per_chunk,
            ),
        decreases n - start,
    {
        let mut chunk: Vec<T> = Vec::new();
        let end = start + samples_per_chunk;
        let mut i = start;
        while i < end
            invariant
                start <= i <= end,
                end <= n,
                n == orig.len(),
                buffer@ == orig,
                chunk@ == orig.subrange(start as int, i as int),
            decreases end - i,
        {
            chunk.push(buffer[i]);
            i += 1;
        }
        let ghost k = chunks@.len();
        chunks.push(chunk);
        proof {
            assert((k + 1) * samples_per_chunk == k * samples_per_chunk + samples_per_chunk) by (
                nonlinear_arith);
        }
        start = end;
    }
    let mut rest: Vec<T> = Vec::new();
    let mut i = start;
    while i < n
        invariant
            start <= i <= n,
            n == orig.len(),
            buffer@ == orig,
            rest@ == orig.subrange(start as int, i as int),
        decreases n - i,
    {
        rest.push(buffer[i]);
        i += 1;
    }
    *buffer = rest;
    chunks
}


/// The speech state of the recognizer: whether the user is speaking, when
/// the current silence began, and whether an utterance is complete.
#[derive(Clone, Copy, Debug, PartialEq, Eq, Structural)]
pub struct SpeechState {
    pub is_speaking: bool,
    /// The time, in milliseconds, at which the current silence began.
    pub silence_start: Option<u64>,
    /// An utterance ended and awaits its final result.
    pub is_finalized: bool,
}

/// Milliseconds from `start` to `now`, zero when `now` is earlier.
pub open spec fn elapsed(start: u64, now: u64) -> nat {
    if now >= start {
        (now - start) as nat
    } else {
        0
    }
}

/// The speech state after one observation at time `now`: speech marks the
/// user as speaking; silence while speaking starts the silence timer, and
/// once the silence has lasted longer than `limit` milliseconds the
/// utterance is complete.
pub open spec fn speech_update(s: SpeechState, is_speech: bool, now: u64, limit: u64) -> SpeechState {
    if is_speech {
        SpeechState { is_speaking: true, silence_start: None, ..s }
    } else if s.is_speaking {
        match s.silence_start {
            Some(start) => if elapsed(start, now) > limit {
                SpeechState { is_speaking: false, silence_start: None, is_finalized: true }
            } else {
                s
            },
            None => SpeechState { silence_start: Some(now), ..s },
        }
    } else {
        s
    }
}

/// The speech state and the counts of consecutive active and inactive
/// frames after a run of frame verdicts: more than three active frames in a
/// row count as speech, more than five inactive ones as silence.
pub open spec fn detect_fold(s: SpeechState, frames: Seq<bool>, now: u64, limit: u64) -> (
    SpeechState,
    nat,
    nat,
)
    decreases frames.len(),
{
    if frames.len() == 0 {
        (s, 0, 0)
    } else {
        let (s0, a0, n0) = detect_fold(s, frames.drop_last(), now, limit);
        let a1: nat = if frames.last() {
            a0 + 1
        } else {
            0
        };
        let n1: nat = if frames.last() {
            0
        } else {
            n0 + 1
        };
        let s1 = if a1 > 3 {
            speech_update(s0, true, now, limit)
        } else {
            s0
        };
        let s2 = if n1 > 5 {
            speech_update(s1, false, now, limit)
        } else {
            s1
        };
        (s2, a1, n1)
    }
}

/// Voice activity detection and the audio kept from before speech starts.
pub struct SpeechDetector {
    is_ptt: bool,
    vad_silence_duration: u64,
    state: SpeechState,
    audio_cache: Vec<i16>,
    max_cache_samples: usize,
}

impl SpeechDetector {
    /// Push-to-talk mode: the key, not the detector, decides when the user
    /// speaks.
    pub closed spec fn ptt_mode(&self) -> bool {
        self.is_ptt
    }

    /// How long a silence ends an utterance, in milliseconds.
    pub closed spec fn silence_limit(&self) -> u64 {
        self.vad_silence_duration
    }

    /// The current speech state.
    pub closed spec fn state_view(&self) -> SpeechState {
        self.state
    }

    /// The audio kept from before speech started.
    pub closed spec fn cache_view(&self) -> Seq<i16> {
        self.audio_cache@
    }

    /// How many samples of audio are kept at most.
    pub closed spec fn cache_capacity(&self) -> nat {
        self.max_cache_samples as nat
    }

    /// A detector that is not speaking, keeping one chunk of
    /// `chunk_samples` samples and four frames of audio from before speech.
    pub fn new(is_ptt: bool, vad_silence_duration: u64, chunk_samples: usize) -> (r: Self)
        requires
            chunk_samples + VAD_LOOKBACK_SAMPLES <= usize::MAX,
        ensures
            r.ptt_mode() == is_ptt,
            r.silence_limit() == vad_silence_duration,
            r.state_view() == (SpeechState { is_speaking: false, silence_start: None, is_finalized: false }),
            r.cache_view() == Seq::<i16>::empty(),
            r.cache_capacity() == chunk_samples + VAD_LOOKBACK_SAMPLES,
    {
        SpeechDetector {
            is_ptt,
            vad_silence_duration,
            state: SpeechState { is_speaking: false, silence_start: None, is_finalized: false },
            audio_cache: Vec::new(),
            max_cache_samples: chunk_samples + VAD_LOOKBACK_SAMPLES,
        }
    }

    /// The current speech state.
    pub fn state(&self) -> (r: SpeechState)
        ensures
            r == self.state_view(),
    {
        self.state
    }

    /// Records one observation, speech or silence, made at `now`.
    pub fn update_speech_state(&mut self, is_speech: bool, now: u64)
        ensures
            final(self).state_view() == speech_update(
                old(self).state_view(),
                is_speech,
                now,
                old(self).silence_limit(),
            ),
            final(self).cache_view() == old(self).cache_view(),
            final(self).cache_capacity() == old(self).cache_capacity(),
            final(self).ptt_mode() == old(self).ptt_mode(),
            final(self).silence_limit() == old(self).silence_limit(),
    {
        if is_speech {
            self.state.silence_start = None;
            self.state.is_speaking = true;
        } else if self.state.is_speaking {
            match self.state.silence_start {
                Some(start) => {
                    let gap = if now >= start {
                        now - start
                    } else {
                        0
                    };
                    if gap > self.vad_silence_duration {
                        self.state.is_speaking = false;
                        self.state.silence_start = None;
                        self.state.is_finalized = true;
                    }
                },
                None => {
                    self.state.silence_start = Some(now);
                },
            }
        }
    }

    /// Feeds the voice activity verdicts of the frames of one chunk, taken
    /// at `now`; in push-to-talk mode nothing changes.
    pub fn detect_speech(&mut self, frames: &[bool], now: u64)
        ensures
            final(self).state_view() == if old(self).ptt_mode() {
                old(self).state_view()
            } else {
                detect_fold(old(self).state_view(), frames@, now, old(self).silence_limit()).0
            },
            final(self).cache_view() == old(self).cache_view(),
            final(self).cache_capacity() == old(self).cache_capacity(),
            final(self).ptt_mode() == old(self).ptt_mode(),
            final(self).silence_limit() == old(self).silence_limit(),
    {
        if self.is_ptt {
            return;
        }
        let ghost s0 = self.state;
        let mut active: usize = 0;
        let mut inactive: usize = 0;
        let n = frames.len();
        let mut i: usize = 0;
        while i < n
            invariant
                n == frames@.len(),
                i <= n,
                active <= i,
                inactive <= i,
                !self.is_ptt,
                self.vad_silence_duration == old(self).silence_limit(),
                self.audio_cache@ == old(self).audio_cache@,
                self.max_cache_samples == old(self).max_cache_samples,
                detect_fold(s0, frames@.take(i as int), now, self.vad_silence_duration) == (
                    self.state,
                    active as nat,
                    inactive as nat,
                ),
            decreases n - i,
        {
            assert(frames@.take(i as int + 1).drop_last() == frames@.take(i as int));
            if frames[i] {
                active = active + 1;
                inactive = 0;
            } else {
                active = 0;
                inactive = inactive + 1;
            }
            if active > 3 {
                self.update_speech_state(true, now);
            }
            if inactive > 5 {
                self.update_speech_state(false, now);
            }
            i += 1;
        }
        assert(frames@.take(n as int) == frames@);
    }

    /// Hands in a chunk of audio: while the user speaks, returns the kept
    /// audio, which the recognizer takes before the chunk, and keeps
    /// nothing; otherwise keeps the chunk, dropping the oldest samples
    /// beyond the capacity, and returns nothing.
    pub fn accept_chunk(&mut self, chunk: &[i16]) -> (r: Option<Vec<i16>>)
        ensures
            final(self).state_view() == old(self).state_view(),
            final(self).cache_capacity() == old(self).cache_capacity(),
            final(self).ptt_mode() == old(self).ptt_mode(),
            final(self).silence_limit() == old(self).silence_limit(),
            old(self).state_view().is_speaking ==> (r matches Some(v) && v@ == old(self).cache_view()
                && final(self).cache_view() == Seq::<i16>::empty()),
            !old(self).state_view().is_speaking ==> r is None && final(self).cache_view() == keep_last(
                old(self).cache_view() + chunk@,
                old(self).cache_capacity(),
            ),
    {
        if self.state.is_speaking {
            let mut taken: Vec<i16> = Vec::new();
            std::mem::swap(&mut taken, &mut self.audio_cache);
            return Some(taken);
        }
        let max = self.max_cache_samples;
        let ghost all = self.audio_cache@ + chunk@;
        let mut joined: Vec<i16> = Vec::new();
        let n = self.audio_cache.len();
        let mut i: usize = 0;
        while i < n
            invariant
                n == self.audio_cache@.len(),
                i <= n,
                joined@ == self.audio_cache@.take(i as int),
            decreases n - i,
        {
            joined.push(self.audio_cache[i]);
            assert(self.audio_cache@.take(i as int + 1) == self.audio_cache@.take(i as int).push(
                self.audio_cache@[i as int],
            ));
            i += 1;
        }
        assert(self.audio_cache@.take(n as int) == self.audio_cache@);
        let m = chunk.len();
        let mut j: usize = 0;
        while j < m
            invariant
                m == chunk@.len(),
                j <= m,
                joined@ == self.audio_cache@ + chunk@.take(j as int),
            decreases m - j,
        {
            joined.push(chunk[j]);
            assert(chunk@.take(j as int + 1) == chunk@.take(j as int).push(chunk@[j as int]));
            j += 1;
        }
        assert(chunk@.take(m as int) == chunk@);
        assert(joined@ == all);
        if joined.len() > max {
            let overflow = joined.len() - max;
            let mut kept: Vec<i16> = Vec::new();
            let mut k = overflow;
            while k < joined.len()
                invariant
                    overflow <= k <= joined@.len(),
                    kept@ == joined@.subrange(overflow as int, k as int),
                decreases joined@.len() - k,
            {
                kept.push(joined[k]);
                k += 1;
            }
            assert(kept@ =~= all.skip(all.len() - max));
            self.audio_cache = kept;
        } else {
            self.audio_cache = joined;
        }
        None
    }

    /// Whether an utterance is complete; if so, the detector starts over
    /// and the caller takes the final result.
    pub fn finalize(&mut self) -> (done: bool)
        ensures
            done == old(self).state_view().is_finalized,
            done ==> final(self).state_view() == (SpeechState {
                is_speaking: false,
                silence_start: None,
                is_finalized: false,
            }) && final(self).cache_view() == Seq::<i16>::empty(),
            !done ==> final(self).state_view() == old(self).state_view() && final(self).cache_view()
                == old(self).cache_view(),
            final(self).cache_capacity() == old(self).cache_capacity(),
            final(self).ptt_mode() == old(self).ptt_mode(),
            final(self).silence_limit() == old(self).silence_limit(),
    {
        if !self.state.is_finalized {
            return false;
        }
        self.reset();
        true
    }

    /// Forgets the speech state and the kept audio.
    pub fn reset(&mut self)
        ensures
            final(self).state_view() == (SpeechState {
                is_speaking: false,
                silence_start: None,
                is_finalized: false,
            }),
            final(self).cache_view() == Seq::<i16>::empty(),
            final(self).cache_capacity() == old(self).cache_capacity(),
            final(self).ptt_mode() == old(self).ptt_mode(),
            final(self).silence_limit() == old(self).silence_limit(),
    {
        self.state = SpeechState { is_speaking: false, silence_start: None, is_finalized: false };
        self.audio_cache = Vec::new();
    }
}

/// What the push-to-talk key does to the speech state: the key's state is
/// whether the user speaks, and releasing it completes the utterance.
pub open spec fn push_to_talk(s: SpeechState, speaking: bool) -> SpeechState {
    SpeechState {
        is_speaking: speaking,
        is_finalized: if speaking {
            s.is_finalized
        } else {
            true
        },
        ..s
    }
}

/// The push-to-talk handle of a recognizer.
#[derive(Clone, Copy, Debug)]
pub struct AudioSpeechController {
    /// Whether the handle belongs to a recognizer.
    pub attached: bool,
}

impl AudioSpeechController {
    /// Sets whether the user speaks; releasing the key completes the
    /// utterance. A handle that belongs to no recognizer does nothing.
    pub fn set_is_speaking(&self, detector: &mut SpeechDetector, speaking: bool)
        ensures
            final(detector).state_view() == if self.attached {
                push_to_talk(old(detector).state_view(), speaking)
            } else {
                old(detector).state_view()
            },
            final(detector).cache_view() == old(detector).cache_view(),
            final(detector).cache_capacity() == old(detector).cache_capacity(),
            final(detector).ptt_mode() == old(detector).ptt_mode(),
            final(detector).silence_limit() == old(detector).silence_limit(),
    {
        if self.attached {
            detector.state.is_speaking = speaking;
            if !speaking {
                detector.state.is_finalized = true;
            }
        }
    }
}


/// While the user speaks, a silence observed twice, the second time more
/// than `limit` milliseconds after the first, completes the utterance.
pub proof fn lemma_silence_completes_utterance(s: SpeechState, t1: u64, t2: u64, limit: u64)
    requires
        s.is_speaking,
        s.silence_start is None,
        t1 <= t2,
        t2 - t1 > limit,
    ensures
        ({
            let after = speech_update(speech_update(s, false, t1, limit), false, t2, limit);
            &&& after.is_finalized
            &&& !after.is_speaking
            &&& after.silence_start is None
        }),
{
}

/// Speech observed in between restarts the silence timer, so an utterance
/// is not completed by silences that speech separates.
pub proof fn lemma_speech_restarts_silence(s: SpeechState, t1: u64, t2: u64, t3: u64, limit: u64)
    requires
        s.is_speaking,
        !s.is_finalized,
        s.silence_start is None,
        t2 <= t3,
        t3 - t2 <= limit,
    ensures
        ({
            let a = speech_update(s, false, t1, limit);
            let b = speech_update(a, true, t2, limit);
            let c = speech_update(b, false, t2, limit);
            let d = speech_update(c, false, t3, limit);
            &&& !d.is_finalized
            &&& d.is_speaking
        }),
{
}

/// Four active frames in a row at the end of a chunk mark the user as
/// speaking.
pub proof fn lemma_active_run_speaks(s: SpeechState, frames: Seq<bool>, now: u64, limit: u64)
    requires
        frames.len() >= 4,
        frames[frames.len() - 1],
        frames[frames.len() - 2],
        frames[frames.len() - 3],
        frames[frames.len() - 4],
    ensures
        detect_fold(s, frames, now, limit).0.is_speaking,
        detect_fold(s, frames, now, limit).0.silence_start is None,
{
    let f1 = frames.drop_last();
    let f2 = f1.drop_last();
    let f3 = f2.drop_last();
    assert(f1.last() == frames[frames.len() - 2]);
    assert(f2.last() == frames[frames.len() - 3]);
    assert(f3.last() == frames[frames.len() - 4]);
    let r3 = detect_fold(s, f3, now, limit);
    assert(r3.1 >= 1);
    let r2 = detect_fold(s, f2, now, limit);
    assert(r2.1 >= 2);
    let r1 = detect_fold(s, f1, now, limit);
    assert(r1.1 >= 3);
}

} // verus!

//! Audio capture decisions: the capture flag, framing constants, silence
//! based speech segmentation, capture device selection, sample encoding and
//! the configuration check that precedes a capture.
use vstd::prelude::*;
use vstd::string::StringExecFns;
use crate::config::AudioSource;
use crate::text::{contains, contains_chars, to_chars};

verus! {

/// Rate, in samples per second, that the capture pipeline assumes.
pub const SAMPLE_RATE: u32 = 16000;

/// Length of one analysis frame, in milliseconds.
pub const FRAME_DURATION_MS: usize = 30;

/// Silence, in milliseconds, after which a speech segment is closed.
pub const SILENCE_THRESHOLD_MS: u64 = 1500;

/// Shortest span, in milliseconds, from the start of speech that a closed
/// segment must cover. On a clock that never goes back this test rejects no
/// segment: speech starts no later than the last voiced frame, and the
/// silence that closes a segment already lasts `SILENCE_THRESHOLD_MS`, which
/// is longer.
pub const MIN_SPEECH_DURATION_MS: u64 = 500;

/// Number of samples in one analysis frame.
pub fn frame_samples() -> (n: usize)
    ensures
        n == SAMPLE_RATE * FRAME_DURATION_MS / 1000,
        n == 480,
{
    (SAMPLE_RATE as usize) * FRAME_DURATION_MS / 1000
}

/// Capacity, in samples, of the buffer between the audio callback and the
/// capture loop: two seconds of audio.
pub fn capture_buffer_capacity() -> (n: usize)
    ensures
        n == SAMPLE_RATE * 2,
{
    (SAMPLE_RATE as usize) * 2
}

/// Whether a capture is running; the capture loop stops once it is cleared.
pub struct AudioCapture {
    is_running: bool,
}

/// The capture flag after one write to it: a write sets the flag to the
/// value written, whatever it held (`true` for `start`, `false` for `stop`).
pub open spec fn flag_write(flag: bool, value: bool) -> bool {
    value
}

/// The capture flag after a sequence of writes to it, from `initial`, each
/// taken by `flag_write`.
pub open spec fn flag_after(initial: bool, writes: Seq<bool>) -> bool
    decreases writes.len(),
{
    if writes.len() == 0 {
        initial
    } else {
        flag_after(flag_write(initial, writes[0]), writes.drop_first())
    }
}

impl View for AudioCapture {
    type V = bool;

    /// Whether the capture runs.
    closed spec fn view(&self) -> bool {
        self.is_running
    }
}

impl AudioCapture {
    /// A capture that is not running.
    pub fn new() -> (c: AudioCapture)
        ensures
            c@ == false,
    {
        AudioCapture { is_running: false }
    }

    /// Marks the capture as running.
    pub fn start(&mut self)
        ensures
            final(self)@ == flag_write(old(self)@, true),
    {
        self.is_running = true;
    }

    /// Asks the capture to stop.
    pub fn stop(&mut self)
        ensures
            final(self)@ == flag_write(old(self)@, false),
    {
        self.is_running = false;
    }

    /// Whether the capture runs.
    pub fn is_running(&self) -> (b: bool)
        ensures
            b == self@,
    {
        self.is_running
    }
}

/// Law: a capture runs exactly when the last write to its flag (by `start`
/// or `stop`) was a `start`; with no write, it keeps the state it had, which
/// for a capture from `new` is not running.
pub proof fn law_capture_flag_last_write_wins(c: AudioCapture, writes: Seq<bool>)
    ensures
        flag_after(c@, writes) == if writes.len() == 0 {
            c@
        } else {
            writes.last()
        },
{
    lemma_flag_after_last(c@, writes);
}

proof fn lemma_flag_after_last(initial: bool, writes: Seq<bool>)
    ensures
        flag_after(initial, writes) == if writes.len() == 0 {
            initial
        } else {
            writes.last()
        },
    decreases writes.len(),
{
    if writes.len() > 0 {
        lemma_flag_after_last(flag_write(initial, writes[0]), writes.drop_first());
        if writes.len() > 1 {
            assert(writes.drop_first().last() == writes.last());
        }
    }
}

/// Milliseconds from `from` to `to`, or zero when `to` is earlier.
pub open spec fn elapsed_ms(from: u64, to: u64) -> u64 {
    if to >= from {
        (to - from) as u64
    } else {
        0
    }
}

/// Law: where speech began no later than the last voiced frame, a silence
/// long enough to close the segment also leaves the speech long enough, so
/// the minimum-speech test never decides on its own.
pub proof fn law_min_speech_follows_from_silence(start_ms: u64, last_ms: u64, now_ms: u64)
    requires
        start_ms <= last_ms,
    ensures
        elapsed_ms(last_ms, now_ms) >= SILENCE_THRESHOLD_MS ==> elapsed_ms(start_ms, now_ms)
            >= MIN_SPEECH_DURATION_MS,
{
}

/// State of the segmenter: whether speech is going on, the samples held
/// for the current segment, when voice was last heard and when the current
/// speech began (milliseconds on the capture clock).
pub type SegmenterView<T> = (bool, Seq<T>, u64, u64);

/// One step of the segmenter on a frame, as the capture loop takes it: the
/// next state and the segment closed by this frame, if any.
pub open spec fn segment_step<T>(s: SegmenterView<T>, frame: Seq<T>, is_voice: bool, now_ms: u64) -> (
    SegmenterView<T>,
    Option<Seq<T>>,
) {
    let (speaking, buffer, last_ms, start_ms) = s;
    if is_voice {
        ((true, buffer + frame, now_ms, if speaking { start_ms } else { now_ms }), None)
    } else if speaking {
        let all = buffer + frame;
        if elapsed_ms(last_ms, now_ms) >= SILENCE_THRESHOLD_MS && elapsed_ms(start_ms, now_ms)
            >= MIN_SPEECH_DURATION_MS {
            ((false, Seq::empty(), last_ms, start_ms), Some(all))
        } else {
            ((true, all, last_ms, start_ms), None)
        }
    } else {
        (s, None)
    }
}

/// The samples of a frame that the segmenter keeps: all of them while
/// voice is heard or speech is going on, none otherwise.
pub open spec fn kept_samples<T>(s: SegmenterView<T>, frame: Seq<T>, is_voice: bool) -> Seq<T> {
    if is_voice || s.0 {
        frame
    } else {
        Seq::empty()
    }
}

/// The samples of an optional segment.
pub open spec fn segment_samples<T>(seg: Option<Seq<T>>) -> Seq<T> {
    match seg {
        Some(v) => v,
        None => Seq::empty(),
    }
}

/// The segmenter's invariant: no samples are held outside of speech.
pub open spec fn segmenter_wf<T>(s: SegmenterView<T>) -> bool {
    !s.0 ==> s.1.len() == 0
}

/// Splits captured audio into speech segments: frames are collected from
/// the first voiced frame on, and the segment is closed once silence has
/// lasted long enough and the speech long enough.
pub struct SpeechSegmenter<T> {
    is_speaking: bool,
    speech_buffer: Vec<T>,
    last_speech_ms: u64,
    speech_start_ms: u64,
}

impl<T> View for SpeechSegmenter<T> {
    type V = SegmenterView<T>;

    closed spec fn view(&self) -> SegmenterView<T> {
        (self.is_speaking, self.speech_buffer@, self.last_speech_ms, self.speech_start_ms)
    }
}

impl<T> SpeechSegmenter<T> {
    /// A segmenter that has heard nothing, started at `now_ms`.
    pub fn new(now_ms: u64) -> (s: SpeechSegmenter<T>)
        ensures
            s@ == (false, Seq::<T>::empty(), now_ms, now_ms),
            segmenter_wf(s@),
    {
        SpeechSegmenter {
            is_speaking: false,
            speech_buffer: Vec::new(),
            last_speech_ms: now_ms,
            speech_start_ms: now_ms,
        }
    }

    /// Whether speech is going on.
    pub fn is_speaking(&self) -> (b: bool)
        ensures
            b == self@.0,
    {
        self.is_speaking
    }

    /// Takes one analysed frame at time `now_ms` and returns the segment it
    /// closes, if any.
    pub fn on_frame(&mut self, frame: Vec<T>, is_voice: bool, now_ms: u64) -> (seg: Option<Vec<T>>)
        ensures
            final(self)@ == segment_step(old(self)@, frame@, is_voice, now_ms).0,
            (match seg {
                Some(v) => Some(v@),
                None => None,
            }) == segment_step(old(self)@, frame@, is_voice, now_ms).1,
            segmenter_wf(old(self)@) ==> segmenter_wf(final(self)@),
            (!is_voice && old(self)@.0 && now_ms >= old(self)@.2 + 1500 && now_ms >= old(self)@.3
                + 500) ==> {
                &&& seg is Some
                &&& seg->0@ == old(self)@.1 + frame@
                &&& !final(self)@.0
                &&& final(self)@.1.len() == 0
            },
    {
        let mut frame = frame;
        if is_voice {
            if !self.is_speaking {
                self.is_speaking = true;
                self.speech_start_ms = now_ms;
            }
            self.last_speech_ms = now_ms;
            self.speech_buffer.append(&mut frame);
            None
        } else if self.is_speaking {
            self.speech_buffer.append(&mut frame);
            let silence: u64 = now_ms.saturating_sub(self.last_speech_ms);
            let speech: u64 = now_ms.saturating_sub(self.speech_start_ms);
            if silence >= SILENCE_THRESHOLD_MS && speech >= MIN_SPEECH_DURATION_MS {
                let mut segment: Vec<T> = Vec::new();
                std::mem::swap(&mut segment, &mut self.speech_buffer);
                self.is_speaking = false;
                Some(segment)
            } else {
                None
            }
        } else {
            None
        }
    }
}

/// Law: a step keeps every sample it takes, once and in order: the closed
/// segment followed by what is held afterwards is what was held before
/// followed by the samples kept from the frame. It also keeps the invariant
/// that nothing is held outside of speech.
pub proof fn law_segment_step_conserves_samples<T>(
    s: SegmenterView<T>,
    frame: Seq<T>,
    is_voice: bool,
    now_ms: u64,
)
    ensures
        segment_samples(segment_step(s, frame, is_voice, now_ms).1) + segment_step(
            s,
            frame,
            is_voice,
            now_ms,
        ).0.1 == s.1 + kept_samples(s, frame, is_voice),
        segmenter_wf(s) ==> segmenter_wf(segment_step(s, frame, is_voice, now_ms).0),
{
    let r = segment_step(s, frame, is_voice, now_ms);
    if is_voice {
    } else if s.0 {
        assert(segment_samples(r.1) + r.0.1 =~= s.1 + frame);
    } else {
        assert(segment_samples(r.1) + r.0.1 =~= s.1 + kept_samples(s, frame, is_voice));
    }
}

/// Law: a segment is closed only by a silent frame, after at least the
/// silence threshold since the last voiced frame and at least the minimum
/// duration since speech began; a voiced frame never closes one.
pub proof fn law_segment_closes_only_after_silence<T>(
    s: SegmenterView<T>,
    frame: Seq<T>,
    is_voice: bool,
    now_ms: u64,
)
    ensures
        segment_step(s, frame, is_voice, now_ms).1 is Some ==> {
            &&& !is_voice
            &&& s.0
            &&& elapsed_ms(s.2, now_ms) >= SILENCE_THRESHOLD_MS
            &&& elapsed_ms(s.3, now_ms) >= MIN_SPEECH_DURATION_MS
        },
{
}

/// Law: while speech is going on, a silent frame closes the segment exactly
/// when at least 1500 ms have passed since the last voiced frame and at
/// least 500 ms since speech began; the segment it closes is everything held
/// followed by the frame, and speech is then over. Otherwise the frame is
/// added to what is held and speech goes on.
pub proof fn law_silence_closes_segment<T>(s: SegmenterView<T>, frame: Seq<T>, now_ms: u64)
    requires
        s.0,
    ensures
        segment_step(s, frame, false, now_ms).1 is Some <==> (now_ms >= s.2 + 1500 && now_ms
            >= s.3 + 500),
        (now_ms >= s.2 + 1500 && now_ms >= s.3 + 500) ==> {
            &&& segment_step(s, frame, false, now_ms).1 == Some(s.1 + frame)
            &&& !segment_step(s, frame, false, now_ms).0.0
            &&& segment_step(s, frame, false, now_ms).0.1.len() == 0
        },
        !(now_ms >= s.2 + 1500 && now_ms >= s.3 + 500) ==> {
            &&& segment_step(s, frame, false, now_ms).0.0
            &&& segment_step(s, frame, false, now_ms).0.1 == s.1 + frame
        },
{
}

/// Runs the segmenter over a sequence of frames `(samples, is_voice,
/// now_ms)`: the final state and the concatenated samples of every closed
/// segment.
pub open spec fn segment_run<T>(s: SegmenterView<T>, frames: Seq<(Seq<T>, bool, u64)>) -> (
    SegmenterView<T>,
    Seq<T>,
)
    decreases frames.len(),
{
    if frames.len() == 0 {
        (s, Seq::empty())
    } else {
        let (f, v, t) = frames[0];
        let r = segment_step(s, f, v, t);
        let rest = segment_run(r.0, frames.drop_first());
        (rest.0, segment_samples(r.1) + rest.1)
    }
}

/// The samples that a run keeps from its frames, in order.
pub open spec fn kept_run<T>(s: SegmenterView<T>, frames: Seq<(Seq<T>, bool, u64)>) -> Seq<T>
    decreases frames.len(),
{
    if frames.len() == 0 {
        Seq::empty()
    } else {
        let (f, v, t) = frames[0];
        kept_samples(s, f, v) + kept_run(segment_step(s, f, v, t).0, frames.drop_first())
    }
}

/// Law: over any run, no kept sample is lost or repeated: the samples of
/// all closed segments followed by what is still held equal what was held
/// at the start followed by every kept sample, in order.
pub proof fn law_segment_run_conserves_samples<T>(
    s: SegmenterView<T>,
    frames: Seq<(Seq<T>, bool, u64)>,
)
    ensures
        segment_run(s, frames).1 + segment_run(s, frames).0.1 == s.1 + kept_run(s, frames),
        segmenter_wf(s) ==> segmenter_wf(segment_run(s, frames).0),
    decreases frames.len(),
{
    if frames.len() > 0 {
        let (f, v, t) = frames[0];
        let r = segment_step(s, f, v, t);
        law_segment_step_conserves_samples(s, f, v, t);
        law_segment_run_conserves_samples(r.0, frames.drop_first());
        let rest = segment_run(r.0, frames.drop_first());
        assert(segment_run(s, frames).1 + segment_run(s, frames).0.1 =~= segment_samples(r.1) + (
        rest.1 + rest.0.1));
        assert(s.1 + kept_run(s, frames) =~= (s.1 + kept_samples(s, f, v)) + kept_run(
            r.0,
            frames.drop_first(),
        ));
    }
}

/// The segments that a run closes, each on its own, in order.
pub open spec fn segment_run_segments<T>(s: SegmenterView<T>, frames: Seq<(Seq<T>, bool, u64)>) -> Seq<
    Seq<T>,
>
    decreases frames.len(),
{
    if frames.len() == 0 {
        Seq::empty()
    } else {
        let (f, v, t) = frames[0];
        let r = segment_step(s, f, v, t);
        let first = match r.1 {
            Some(seg) => seq![seg],
            None => Seq::<Seq<T>>::empty(),
        };
        first + segment_run_segments(r.0, frames.drop_first())
    }
}

/// A segment made of whole frames of `frame_len` samples, whose first frame
/// is `w` or one of the voiced frames of `frames`.
pub open spec fn whole_frames_from_speech<T>(
    seg: Seq<T>,
    frame_len: nat,
    frames: Seq<(Seq<T>, bool, u64)>,
) -> bool {
    &&& (seg.len() as int) % (frame_len as int) == 0
    &&& seg.len() >= frame_len
    &&& exists|i: int| 0 <= i < frames.len() && #[trigger] frames[i].1 && frames[i].0 == seg.take(frame_len as int)
}

proof fn lemma_mod_add(a: int, f: int)
    requires
        f > 0,
        a >= 0,
        a % f == 0,
    ensures
        (a + f) % f == 0,
{
    assert((a + f) % f == 0) by (nonlinear_arith)
        requires
            f > 0,
            a >= 0,
            a % f == 0,
    ;
}

proof fn lemma_segments_whole<T>(
    s: SegmenterView<T>,
    frames: Seq<(Seq<T>, bool, u64)>,
    frame_len: nat,
    w: Seq<T>,
)
    requires
        frame_len > 0,
        forall|i: int| 0 <= i < frames.len() ==> (#[trigger] frames[i]).0.len() == frame_len,
        segmenter_wf(s),
        (s.1.len() as int) % (frame_len as int) == 0,
        s.0 ==> s.1.len() >= frame_len && s.1.take(frame_len as int) == w,
    ensures
        forall|k: int|
            0 <= k < segment_run_segments(s, frames).len() ==> {
                let seg = #[trigger] segment_run_segments(s, frames)[k];
                &&& (seg.len() as int) % (frame_len as int) == 0
                &&& seg.len() >= frame_len
                &&& (seg.take(frame_len as int) == w || exists|i: int|
                    0 <= i < frames.len() && #[trigger] frames[i].1 && frames[i].0 == seg.take(
                        frame_len as int,
                    ))
            },
    decreases frames.len(),
{
    if frames.len() > 0 {
        let fl = frame_len as int;
        let (f, v, t) = frames[0];
        assert(f.len() == frame_len);
        let r = segment_step(s, f, v, t);
        let rest = frames.drop_first();
        assert forall|i: int| 0 <= i < rest.len() implies (#[trigger] rest[i]).0.len() == frame_len by {
            assert(rest[i] == frames[i + 1]);
        }
        law_segment_step_conserves_samples(s, f, v, t);
        let w2 = if v && !s.0 { f } else { w };
        if s.0 || v {
            lemma_mod_add(s.1.len() as int, fl);
            assert((s.1 + f).len() == s.1.len() + fl);
        }
        if s.0 {
            assert((s.1 + f).take(fl) =~= s.1.take(fl));
        } else if v {
            assert(s.1 =~= Seq::<T>::empty());
            assert((s.1 + f) =~= f);
            assert(f.take(fl) =~= f);
        }
        if r.0.0 {
            assert(r.0.1 == s.1 + f);
        } else {
            assert(r.0.1.len() == 0);
        }
        lemma_segments_whole(r.0, rest, frame_len, w2);
        let first = match r.1 {
            Some(seg) => seq![seg],
            None => Seq::<Seq<T>>::empty(),
        };
        let later = segment_run_segments(r.0, rest);
        assert(segment_run_segments(s, frames) == first + later);
        assert forall|k: int| 0 <= k < segment_run_segments(s, frames).len() implies {
            let seg = #[trigger] segment_run_segments(s, frames)[k];
            &&& (seg.len() as int) % fl == 0
            &&& seg.len() >= frame_len
            &&& (seg.take(fl) == w || exists|i: int|
                0 <= i < frames.len() && #[trigger] frames[i].1 && frames[i].0 == seg.take(fl))
        } by {
            let seg = segment_run_segments(s, frames)[k];
            if k < first.len() {
                assert(seg == s.1 + f);
            } else {
                assert(seg == later[k - first.len()]);
                if seg.take(fl) == w2 {
                    if v && !s.0 {
                        assert(frames[0].1 && frames[0].0 == seg.take(fl));
                    }
                } else if seg.take(fl) != w {
                    let i = choose|i: int|
                        0 <= i < rest.len() && #[trigger] rest[i].1 && rest[i].0 == seg.take(fl);
                    assert(frames[i + 1] == rest[i]);
                    assert(frames[i + 1].1 && frames[i + 1].0 == seg.take(fl));
                }
            }
        }
    }
}

/// Law: when every frame has `frame_len > 0` samples, each segment closed by
/// a run from a fresh segmenter is made of whole frames, at least one, and
/// begins with a frame judged to be voice.
pub proof fn law_segments_are_whole_frames_from_speech<T>(
    frames: Seq<(Seq<T>, bool, u64)>,
    frame_len: nat,
    start_ms: u64,
)
    requires
        frame_len > 0,
        forall|i: int| 0 <= i < frames.len() ==> (#[trigger] frames[i]).0.len() == frame_len,
    ensures
        forall|k: int|
            0 <= k < segment_run_segments((false, Seq::<T>::empty(), start_ms, start_ms), frames).len()
                ==> whole_frames_from_speech(
                #[trigger] segment_run_segments(
                    (false, Seq::<T>::empty(), start_ms, start_ms),
                    frames,
                )[k],
                frame_len,
                frames,
            ),
{
    let s: SegmenterView<T> = (false, Seq::<T>::empty(), start_ms, start_ms);
    let w = Seq::<T>::empty();
    assert(0int % (frame_len as int) == 0);
    lemma_segments_whole(s, frames, frame_len, w);
    assert forall|k: int| 0 <= k < segment_run_segments(s, frames).len() implies whole_frames_from_speech(
        #[trigger] segment_run_segments(s, frames)[k],
        frame_len,
        frames,
    ) by {
        let seg = segment_run_segments(s, frames)[k];
        assert(seg.take(frame_len as int).len() == frame_len);
        assert(seg.take(frame_len as int) != w);
    }
}

/// Little-endian bytes of a 16-bit value.
pub open spec fn le16(v: u16) -> Seq<u8> {
    seq![(v % 256) as u8, (v / 256) as u8]
}

/// Little-endian bytes of a 32-bit value.
pub open spec fn le32(v: u32) -> Seq<u8> {
    seq![(v % 256) as u8, ((v / 256) % 256) as u8, ((v / 65536) % 256) as u8, (v / 16777216) as u8]
}

/// The samples as 16-bit little-endian PCM bytes.
pub open spec fn pcm16_le(samples: Seq<i16>) -> Seq<u8>
    decreases samples.len(),
{
    if samples.len() == 0 {
        Seq::empty()
    } else {
        pcm16_le(samples.drop_last()) + le16(samples.last() as u16)
    }
}

proof fn lemma_pcm16_len(samples: Seq<i16>)
    ensures
        pcm16_le(samples).len() == 2 * samples.len(),
    decreases samples.len(),
{
    if samples.len() > 0 {
        lemma_pcm16_len(samples.drop_last());
    }
}

/// Law: in the PCM encoding, sample `i` occupies bytes `2i` and `2i + 1`,
/// low byte first, as two's complement.
pub proof fn law_pcm16_layout(samples: Seq<i16>, i: int)
    requires
        0 <= i < samples.len(),
    ensures
        pcm16_le(samples).len() == 2 * samples.len(),
        pcm16_le(samples).subrange(2 * i, 2 * i + 2) == le16(samples[i] as u16),
    decreases samples.len(),
{
    lemma_pcm16_len(samples);
    let init = samples.drop_last();
    lemma_pcm16_len(init);
    if i < samples.len() - 1 {
        law_pcm16_layout(init, i);
        assert(pcm16_le(samples).subrange(2 * i, 2 * i + 2) =~= pcm16_le(init).subrange(
            2 * i,
            2 * i + 2,
        ));
    } else {
        assert(pcm16_le(samples).subrange(2 * i, 2 * i + 2) =~= le16(samples[i] as u16));
    }
}

/// Appends the little-endian bytes of `v`.
pub fn push_le16(out: &mut Vec<u8>, v: u16)
    ensures
        final(out)@ == old(out)@ + le16(v),
{
    out.push((v % 256) as u8);
    out.push((v / 256) as u8);
    assert(final(out)@ =~= old(out)@ + le16(v));
}

/// Appends the little-endian bytes of `v`.
pub fn push_le32(out: &mut Vec<u8>, v: u32)
    ensures
        final(out)@ == old(out)@ + le32(v),
{
    out.push((v % 256) as u8);
    out.push(((v / 256) % 256) as u8);
    out.push(((v / 65536) % 256) as u8);
    out.push((v / 16777216) as u8);
    assert(final(out)@ =~= old(out)@ + le32(v));
}

/// Encodes samples as 16-bit little-endian PCM bytes, two per sample.
pub fn pcm16_le_bytes(samples: &[i16]) -> (bytes: Vec<u8>)
    ensures
        bytes@ == pcm16_le(samples@),
        bytes@.len() == 2 * samples@.len(),
{
    let mut out: Vec<u8> = Vec::new();
    let mut k: usize = 0;
    while k < samples.len()
        invariant
            k <= samples@.len(),
            out@ == pcm16_le(samples@.take(k as int)),
            out@.len() == 2 * k,
        decreases samples@.len() - k,
    {
        let s: i16 = samples[k];
        push_le16(&mut out, s as u16);
        assert(samples@.take(k + 1).drop_last() =~= samples@.take(k as int));
        k = k + 1;
    }
    assert(samples@.take(k as int) =~= samples@);
    out
}


/// The result of `str::to_lowercase` on a string: its Unicode lowercase
/// mapping, in which a character may map to several and a capital sigma maps
/// by its context (final or not).
pub uninterp spec fn lowercase(s: Seq<char>) -> Seq<char>;

/// Wraps `str::to_lowercase`; its result is named `lowercase`.
#[verifier::external_body]
fn to_lowercase(s: &str) -> (r: String)
    ensures
        r@ == lowercase(s@),
{
    s.to_lowercase()
}

/// A device name, lowercased, that marks a device capturing what the system
/// plays: a stereo mix, a virtual cable, or the BlackHole virtual sound card
/// that macOS needs for it.
pub open spec fn is_system_capture_name(name: Seq<char>) -> bool {
    let n = lowercase(name);
    ||| contains(n, "stereo mix"@)
    ||| contains(n, "立体声混音"@)
    ||| contains(n, "cable"@)
    ||| contains(n, "virtual"@)
    ||| contains(n, "blackhole"@)
}

/// Law: a name marks system capture exactly when its lowercase form contains
/// "stereo mix", "立体声混音", "cable", "virtual" or "blackhole"; a name that
/// contains none of them, such as one that only says "audio" or
/// "microphone", does not.
pub proof fn law_system_capture_markers(name: Seq<char>)
    ensures
        is_system_capture_name(name) <==> {
            ||| contains(lowercase(name), "stereo mix"@)
            ||| contains(lowercase(name), "立体声混音"@)
            ||| contains(lowercase(name), "cable"@)
            ||| contains(lowercase(name), "virtual"@)
            ||| contains(lowercase(name), "blackhole"@)
        },
{
}

/// The device at `i` has a readable name that marks system capture.
pub open spec fn is_system_capture_device(names: Seq<Option<String>>, i: int) -> bool {
    names[i] matches Some(n) && is_system_capture_name(n@)
}

/// Whether `name` marks a device capturing what the system plays.
pub fn is_system_capture(name: &str) -> (b: bool)
    ensures
        b == is_system_capture_name(name@),
        b <==> {
            ||| contains(lowercase(name@), "stereo mix"@)
            ||| contains(lowercase(name@), "立体声混音"@)
            ||| contains(lowercase(name@), "cable"@)
            ||| contains(lowercase(name@), "virtual"@)
            ||| contains(lowercase(name@), "blackhole"@)
        },
{
    let lower = to_chars(to_lowercase(name).as_str());
    contains_chars(&lower, &to_chars("stereo mix")) || contains_chars(&lower, &to_chars("立体声混音"))
        || contains_chars(&lower, &to_chars("cable")) || contains_chars(&lower, &to_chars("virtual"))
        || contains_chars(&lower, &to_chars("blackhole"))
}

/// The first input device, by position, whose name marks system capture;
/// `names[i]` is `None` where a device's name could not be read.
pub fn select_system_device(names: &Vec<Option<String>>) -> (r: Option<usize>)
    ensures
        match r {
            Some(i) => i < names@.len() && is_system_capture_device(names@, i as int) && forall|
                j: int,
            | 0 <= j < i ==> !is_system_capture_device(names@, j),
            None => forall|j: int| 0 <= j < names@.len() ==> !is_system_capture_device(names@, j),
        },
{
    let mut i: usize = 0;
    while i < names.len()
        invariant
            i <= names@.len(),
            forall|j: int| 0 <= j < i ==> !is_system_capture_device(names@, j),
        decreases names@.len() - i,
    {
        match &names[i] {
            Some(n) => {
                if is_system_capture(n.as_str()) {
                    return Some(i);
                }
            },
            None => {},
        }
        i = i + 1;
    }
    None
}

/// How a capture source is called in diagnostics.
pub fn source_label(source: AudioSource) -> (s: &'static str)
    ensures
        s@ == (match source {
            AudioSource::Microphone => "麦克风"@,
            AudioSource::System => "系统音频"@,
        }),
{
    match source {
        AudioSource::Microphone => "麦克风",
        AudioSource::System => "系统音频",
    }
}

/// The message that refuses a capture when a service key is missing.
pub open spec fn missing_config_message(deepgram_missing: bool, llm_missing: bool) -> Seq<char> {
    "缺少必要配置: "@ + if deepgram_missing && llm_missing {
        "Deepgram API Key, LLM API Key"@
    } else if deepgram_missing {
        "Deepgram API Key"@
    } else {
        "LLM API Key"@
    }
}

/// Checks that both service keys are configured before a capture starts;
/// on a missing key, the message that names every missing one.
pub fn check_api_keys(deepgram_key: &str, llm_key: &str) -> (r: Result<(), String>)
    ensures
        r is Ok <==> deepgram_key@.len() > 0 && llm_key@.len() > 0,
        r matches Err(m) ==> m@ == missing_config_message(
            deepgram_key@.len() == 0,
            llm_key@.len() == 0,
        ),
{
    let dg_missing = deepgram_key.is_empty();
    let llm_missing = llm_key.is_empty();
    if !dg_missing && !llm_missing {
        return Ok(());
    }
    let msg = String::from_str("缺少必要配置: ");
    let msg = if dg_missing && llm_missing {
        msg.concat("Deepgram API Key, LLM API Key")
    } else if dg_missing {
        msg.concat("Deepgram API Key")
    } else {
        msg.concat("LLM API Key")
    };
    Err(msg)
}

} // verus!

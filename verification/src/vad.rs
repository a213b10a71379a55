//! Voice activity detection through `webrtc_vad`.
use vstd::prelude::*;
use webrtc_vad::{SampleRate, Vad, VadMode};

verus! {

/// `webrtc_vad::Vad`: an opaque detector instance that keeps internal state
/// between frames.
#[verifier::external_type_specification]
#[verifier::external_body]
pub struct ExVad(Vad);

/// How strictly a detector reports speech.
#[derive(Clone, Copy, PartialEq, Eq, Structural, Debug)]
pub enum VadAggressiveness {
    Quality,
    LowBitrate,
    Aggressive,
    VeryAggressive,
}

/// Sample rates a detector accepts.
#[derive(Clone, Copy, PartialEq, Eq, Structural, Debug)]
pub enum VadSampleRate {
    Rate8kHz,
    Rate16kHz,
    Rate32kHz,
    Rate48kHz,
}

/// Samples per millisecond at a rate.
pub open spec fn samples_per_ms(rate: VadSampleRate) -> int {
    match rate {
        VadSampleRate::Rate8kHz => 8,
        VadSampleRate::Rate16kHz => 16,
        VadSampleRate::Rate32kHz => 32,
        VadSampleRate::Rate48kHz => 48,
    }
}

/// A frame length, in samples, that a detector reading at `rate` accepts:
/// 10, 20 or 30 ms of samples.
pub open spec fn frame_len_at(rate: VadSampleRate, n: int) -> bool {
    let k = samples_per_ms(rate);
    n == 10 * k || n == 20 * k || n == 30 * k
}

/// The answer of a `webrtc_vad` instance made with `rate` and `mode` on the
/// last of `frames`, after it has accepted all the frames before it, in
/// order: whether that frame holds voice.
pub uninterp spec fn vad_voice(rate: VadSampleRate, mode: VadAggressiveness, frames: Seq<Seq<i16>>) -> bool;

/// A voice activity detector, with the sample rate and the mode its
/// instance was made with and the frames it has accepted so far. Every
/// detector is made by `vad_new_detector`, which records the rate and mode it
/// hands to the instance; nothing changes them afterwards, and only
/// `vad_is_voice_segment` adds to the frames.
pub struct VoiceDetector {
    vad: Vad,
    rate: VadSampleRate,
    mode: VadAggressiveness,
    fed: Ghost<Seq<Seq<i16>>>,
}

impl VoiceDetector {
    /// The rate the detector reads frames at.
    pub closed spec fn sample_rate(&self) -> VadSampleRate {
        self.rate
    }

    /// The mode the detector runs in.
    pub closed spec fn aggressiveness(&self) -> VadAggressiveness {
        self.mode
    }

    /// The frames the detector has accepted, oldest first.
    pub closed spec fn fed(&self) -> Seq<Seq<i16>> {
        self.fed@
    }
}

/// Wraps `webrtc_vad::Vad::new_with_rate_and_mode`, which makes an instance
/// reading at `rate` in `mode`; every listed rate and mode is accepted, and
/// it panics only on an allocation failure. The detector records both, and
/// has accepted no frame yet.
#[verifier::external_body]
fn vad_new_detector(rate: VadSampleRate, mode: VadAggressiveness) -> (d: VoiceDetector)
    ensures
        d.sample_rate() == rate,
        d.aggressiveness() == mode,
        d.fed() == Seq::<Seq<i16>>::empty(),
{
    let r = match rate {
        VadSampleRate::Rate8kHz => SampleRate::Rate8kHz,
        VadSampleRate::Rate16kHz => SampleRate::Rate16kHz,
        VadSampleRate::Rate32kHz => SampleRate::Rate32kHz,
        VadSampleRate::Rate48kHz => SampleRate::Rate48kHz,
    };
    let m = match mode {
        VadAggressiveness::Quality => VadMode::Quality,
        VadAggressiveness::LowBitrate => VadMode::LowBitrate,
        VadAggressiveness::Aggressive => VadMode::Aggressive,
        VadAggressiveness::VeryAggressive => VadMode::VeryAggressive,
    };
    VoiceDetector { vad: Vad::new_with_rate_and_mode(r, m), rate, mode, fed: Ghost(Seq::empty()) }
}

/// Wraps `webrtc_vad::Vad::is_voice_segment` on the detector's instance:
/// `Err(())` exactly for a frame length that the instance's rate does not
/// accept (10, 20 or 30 ms of samples; libfvad's `valid_length`), which
/// leaves the instance as it was; otherwise the instance takes the frame in
/// and answers whether it holds voice, an answer fixed by its rate, its mode
/// and the frames it has taken in (`vad_voice`). The call indexes the first
/// sample, so an empty frame is left out. Rate and mode do not change.
#[verifier::external_body]
fn vad_is_voice_segment(d: &mut VoiceDetector, frame: &[i16]) -> (r: Result<bool, ()>)
    requires
        frame@.len() > 0,
    ensures
        final(d).sample_rate() == old(d).sample_rate(),
        final(d).aggressiveness() == old(d).aggressiveness(),
        r is Err <==> !frame_len_at(old(d).sample_rate(), frame@.len() as int),
        r is Ok ==> r == Ok::<bool, ()>(
            vad_voice(old(d).sample_rate(), old(d).aggressiveness(), old(d).fed().push(frame@)),
        ),
        final(d).fed() == if r is Ok {
            old(d).fed().push(frame@)
        } else {
            old(d).fed()
        },
{
    let r = d.vad.is_voice_segment(frame);
    match r {
        Ok(_) => d.fed = Ghost(d.fed@.push(frame@)),
        Err(_) => {},
    }
    r
}

/// The voice decision for a detector's answer: a rejected frame counts as
/// silence.
pub fn voice_decision(answer: Result<bool, ()>) -> (b: bool)
    ensures
        b == (answer == Ok::<bool, ()>(true)),
{
    match answer {
        Ok(v) => v,
        Err(()) => false,
    }
}

impl VoiceDetector {
    /// A detector in quality mode that reads frames at the 16 kHz rate of
    /// the capture pipeline, so that its 30 ms frames of 480 samples are
    /// judged.
    pub fn new() -> (d: VoiceDetector)
        ensures
            d.sample_rate() == VadSampleRate::Rate16kHz,
            d.aggressiveness() == VadAggressiveness::Quality,
            d.fed() == Seq::<Seq<i16>>::empty(),
    {
        vad_new_detector(VadSampleRate::Rate16kHz, VadAggressiveness::Quality)
    }

    /// The detector's answer for a frame: refused exactly when its length is
    /// not 10, 20 or 30 ms at the detector's rate, leaving the detector as it
    /// was; otherwise the frame is taken in and the answer is whether it holds
    /// voice, after the frames taken in before it.
    pub fn judge(&mut self, frame: &[i16]) -> (r: Result<bool, ()>)
        requires
            frame@.len() > 0,
        ensures
            final(self).sample_rate() == old(self).sample_rate(),
            final(self).aggressiveness() == old(self).aggressiveness(),
            r is Err <==> !frame_len_at(old(self).sample_rate(), frame@.len() as int),
            r is Ok ==> r == Ok::<bool, ()>(
                vad_voice(
                    old(self).sample_rate(),
                    old(self).aggressiveness(),
                    old(self).fed().push(frame@),
                ),
            ),
            final(self).fed() == if r is Ok {
                old(self).fed().push(frame@)
            } else {
                old(self).fed()
            },
    {
        vad_is_voice_segment(self, frame)
    }

    /// Whether the frame holds voice: `voice_decision` on the detector's
    /// answer, so a frame whose length the detector refuses is silence and
    /// is not taken in.
    pub fn is_voice(&mut self, frame: &[i16]) -> (b: bool)
        requires
            frame@.len() > 0,
        ensures
            final(self).sample_rate() == old(self).sample_rate(),
            final(self).aggressiveness() == old(self).aggressiveness(),
            b == (frame_len_at(old(self).sample_rate(), frame@.len() as int) && vad_voice(
                old(self).sample_rate(),
                old(self).aggressiveness(),
                old(self).fed().push(frame@),
            )),
            final(self).fed() == if frame_len_at(old(self).sample_rate(), frame@.len() as int) {
                old(self).fed().push(frame@)
            } else {
                old(self).fed()
            },
    {
        voice_decision(self.judge(frame))
    }
}

} // verus!

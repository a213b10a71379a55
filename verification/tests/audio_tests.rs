use ghostprompt::audio::{
    capture_buffer_capacity, check_api_keys, frame_samples, is_system_capture, pcm16_le_bytes,
    select_system_device, source_label, AudioCapture, SpeechSegmenter,
};
use ghostprompt::config::AudioSource;
use ghostprompt::vad::{voice_decision, VoiceDetector};

#[test]
fn capture_flag() {
    let mut c = AudioCapture::new();
    assert!(!c.is_running());
    c.start();
    assert!(c.is_running());
    c.stop();
    assert!(!c.is_running());
}

#[test]
fn capture_flag_follows_last_write() {
    let mut c = AudioCapture::new();
    c.stop();
    assert!(!c.is_running());
    c.start();
    c.start();
    assert!(c.is_running());
    assert!(c.is_running());
    c.stop();
    c.start();
    assert!(c.is_running());
}

#[test]
fn segments_are_whole_frames_beginning_with_voice() {
    let mut s: SpeechSegmenter<u32> = SpeechSegmenter::new(0);
    let mut voiced_frames: Vec<Vec<u32>> = Vec::new();
    let mut count = 0;
    for k in 0..300u32 {
        let voiced = k % 100 < 20 || k % 100 == 25;
        let frame: Vec<u32> = (0..4).map(|j| k * 10 + j).collect();
        if voiced {
            voiced_frames.push(frame.clone());
        }
        if let Some(seg) = s.on_frame(frame, voiced, (k as u64) * 30) {
            count += 1;
            assert!(seg.len() >= 4 && seg.len() % 4 == 0);
            assert!(voiced_frames.contains(&seg[..4].to_vec()));
        }
    }
    assert!(count > 0);
}

#[test]
fn framing_constants() {
    assert_eq!(frame_samples(), 480);
    assert_eq!(capture_buffer_capacity(), 32000);
}

#[test]
fn segment_closed_after_silence() {
    let mut s: SpeechSegmenter<i32> = SpeechSegmenter::new(0);
    assert_eq!(s.on_frame(vec![9], false, 30), None);
    assert!(!s.is_speaking());
    assert_eq!(s.on_frame(vec![1, 2], true, 100), None);
    assert!(s.is_speaking());
    assert_eq!(s.on_frame(vec![3], true, 400), None);
    assert_eq!(s.on_frame(vec![4], false, 1000), None);
    assert_eq!(s.on_frame(vec![5], false, 1899), None);
    assert_eq!(s.on_frame(vec![6], false, 1900), Some(vec![1, 2, 3, 4, 5, 6]));
    assert!(!s.is_speaking());
    assert_eq!(s.on_frame(vec![7], false, 5000), None);
}

#[test]
fn short_speech_waits_for_minimum_duration() {
    let mut s: SpeechSegmenter<i32> = SpeechSegmenter::new(10_000);
    assert_eq!(s.on_frame(vec![1], true, 10_000), None);
    // silence long enough, speech long enough: start 10000, now 11500
    assert_eq!(s.on_frame(vec![2], false, 11_499), None);
    assert_eq!(s.on_frame(vec![3], false, 11_500), Some(vec![1, 2, 3]));
}

#[test]
fn clock_going_backwards_counts_as_no_time() {
    let mut s: SpeechSegmenter<i32> = SpeechSegmenter::new(5000);
    assert_eq!(s.on_frame(vec![1], true, 5000), None);
    assert_eq!(s.on_frame(vec![2], false, 100), None);
    assert!(s.is_speaking());
}

#[test]
fn segments_conserve_samples() {
    let mut s: SpeechSegmenter<u32> = SpeechSegmenter::new(0);
    let mut kept: Vec<u32> = Vec::new();
    let mut emitted: Vec<u32> = Vec::new();
    for k in 0..200u32 {
        let voiced = (k / 40) % 2 == 0;
        let was_speaking = s.is_speaking();
        let frame = vec![k, k + 1000];
        if voiced || was_speaking {
            kept.extend_from_slice(&frame);
        }
        if let Some(seg) = s.on_frame(frame, voiced, (k as u64) * 50) {
            emitted.extend(seg);
        }
    }
    assert!(!emitted.is_empty());
    assert_eq!(&kept[..emitted.len()], &emitted[..]);
}

#[test]
fn pcm_bytes_little_endian() {
    assert_eq!(pcm16_le_bytes(&[1, -1, 0x1234, i16::MIN]), vec![1, 0, 0xff, 0xff, 0x34, 0x12, 0, 0x80]);
    assert_eq!(pcm16_le_bytes(&[]), Vec::<u8>::new());
}

#[test]
fn system_capture_names() {
    assert!(is_system_capture("Stereo Mix (Realtek High Definition Audio)"));
    assert!(is_system_capture("CABLE Output (VB-Audio Virtual Cable)"));
    assert!(is_system_capture("立体声混音 (Realtek)"));
    assert!(is_system_capture("VIRTUAL speaker"));
    assert!(is_system_capture("BlackHole 2ch"));
    assert!(!is_system_capture("Microphone (USB)"));
}

#[test]
fn first_system_device_is_chosen() {
    let names = vec![
        Some("Microphone".to_string()),
        None,
        Some("Line In".to_string()),
        Some("CABLE Output".to_string()),
        Some("Stereo Mix".to_string()),
    ];
    assert_eq!(select_system_device(&names), Some(3));
    assert_eq!(select_system_device(&vec![Some("Mic".to_string()), None]), None);
    assert_eq!(select_system_device(&vec![]), None);
    assert_eq!(
        select_system_device(&vec![Some("MacBook Pro Microphone".to_string()), Some("BlackHole 2ch".to_string())]),
        Some(1)
    );
}

#[test]
fn source_labels() {
    assert_eq!(source_label(AudioSource::Microphone), "麦克风");
    assert_eq!(source_label(AudioSource::System), "系统音频");
}

#[test]
fn api_key_check() {
    assert_eq!(check_api_keys("a", "b"), Ok(()));
    assert_eq!(check_api_keys("", "b"), Err("缺少必要配置: Deepgram API Key".to_string()));
    assert_eq!(check_api_keys("a", ""), Err("缺少必要配置: LLM API Key".to_string()));
    assert_eq!(
        check_api_keys("", ""),
        Err("缺少必要配置: Deepgram API Key, LLM API Key".to_string())
    );
}

#[test]
fn silence_is_not_voice() {
    // a pipeline frame is judged, and a tone-like signal does not panic
    let mut t = VoiceDetector::new();
    let tone: Vec<i16> = (0..480).map(|i| if (i / 20) % 2 == 0 { 8000 } else { -8000 }).collect();
    for _ in 0..20 {
        let _ = t.is_voice(&tone);
    }
    let mut d = VoiceDetector::new();
    assert!(!d.is_voice(&vec![0i16; 160]));
    assert!(!d.is_voice(&vec![0i16; 480]));
    // no supported rate takes 100 samples as a frame
    assert!(!d.is_voice(&vec![1000i16; 100]));
}

#[test]
fn rejected_frames_count_as_silence() {
    assert!(voice_decision(Ok(true)));
    assert!(!voice_decision(Ok(false)));
    assert!(!voice_decision(Err(())));
}

#[test]
fn pipeline_frames_can_be_judged_voice() {
    // a loud, speech-band signal in 480-sample frames is reported as voice
    // at some frame, which a detector rejecting the frame length never does
    let mut d = VoiceDetector::new();
    let mut seed: u32 = 12345;
    let mut found = false;
    for f in 0..100 {
        let frame: Vec<i16> = (0..480)
            .map(|i| {
                seed = seed.wrapping_mul(1103515245).wrapping_add(12345);
                let noise = ((seed >> 16) as i32 % 2000) - 1000;
                let t = (f * 480 + i) as f64 / 16000.0;
                let v = 9000.0 * (2.0 * std::f64::consts::PI * 220.0 * t).sin()
                    + 5000.0 * (2.0 * std::f64::consts::PI * 660.0 * t).sin();
                (v as i32 + noise) as i16
            })
            .collect();
        if d.is_voice(&frame) {
            found = true;
        }
    }
    assert!(found);
}

#[test]
fn frames_of_10_20_30_ms_at_16khz_are_judged() {
    let mut d = VoiceDetector::new();
    assert!(d.judge(&vec![0i16; 160]).is_ok());
    assert!(d.judge(&vec![0i16; 320]).is_ok());
    assert_eq!(d.judge(&vec![0i16; 480]), Ok(false));
    assert_eq!(d.judge(&vec![0i16; frame_samples()]), Ok(false));
}

#[test]
fn frames_of_other_lengths_are_refused() {
    let mut d = VoiceDetector::new();
    assert_eq!(d.judge(&vec![0i16; 240]), Err(()));
    assert_eq!(d.judge(&vec![0i16; 100]), Err(()));
    assert_eq!(d.judge(&vec![0i16; 960]), Err(()));
}

use ghostprompt::stt::{pick_transcript, STTClient, SttError};

#[test]
fn wav_header_layout() {
    let c = STTClient::new("k");
    let wav = c.pcm_to_wav(&[1, 2, 3, 4]);
    let mut expected: Vec<u8> = Vec::new();
    expected.extend_from_slice(b"RIFF");
    expected.extend_from_slice(&40u32.to_le_bytes());
    expected.extend_from_slice(b"WAVEfmt ");
    expected.extend_from_slice(&16u32.to_le_bytes());
    expected.extend_from_slice(&1u16.to_le_bytes());
    expected.extend_from_slice(&1u16.to_le_bytes());
    expected.extend_from_slice(&16000u32.to_le_bytes());
    expected.extend_from_slice(&32000u32.to_le_bytes());
    expected.extend_from_slice(&2u16.to_le_bytes());
    expected.extend_from_slice(&16u16.to_le_bytes());
    expected.extend_from_slice(b"data");
    expected.extend_from_slice(&4u32.to_le_bytes());
    expected.extend_from_slice(&[1, 2, 3, 4]);
    assert_eq!(wav, expected);
}

#[test]
fn wav_sizes_match_payload() {
    let c = STTClient::new("k");
    let pcm: Vec<u8> = (0..1000u32).map(|i| (i % 251) as u8).collect();
    let wav = c.pcm_to_wav(&pcm);
    assert_eq!(wav.len(), 1044);
    assert_eq!(u32::from_le_bytes([wav[4], wav[5], wav[6], wav[7]]), 1036);
    assert_eq!(u32::from_le_bytes([wav[40], wav[41], wav[42], wav[43]]), 1000);
    assert_eq!(&wav[44..], &pcm[..]);
}

#[test]
fn empty_pcm_gives_bare_header() {
    let wav = STTClient::new("k").pcm_to_wav(&[]);
    assert_eq!(wav.len(), 44);
    assert_eq!(&wav[0..4], b"RIFF");
    assert_eq!(u32::from_le_bytes([wav[4], wav[5], wav[6], wav[7]]), 36);
}

#[test]
fn transcription_refused_without_key() {
    let c = STTClient::new("");
    match c.prepare_transcription(&[0, 0]) {
        Err(e) => {
            assert_eq!(e, SttError::MissingApiKey);
            assert_eq!(e.message(), "Deepgram API key not configured");
        }
        Ok(_) => panic!("a request without a key"),
    }
}

#[test]
fn transcription_request_fields() {
    let c = STTClient::new("secret");
    assert_eq!(c.api_key, "secret");
    let q = c.prepare_transcription(&[7, 8]).ok().unwrap();
    assert_eq!(q.url, "https://api.deepgram.com/v1/listen?model=nova-2&language=zh&punctuate=true");
    assert_eq!(q.authorization, "Token secret");
    assert_eq!(q.content_type, "audio/wav");
    assert_eq!(q.body, c.pcm_to_wav(&[7, 8]));
}

#[test]
fn transcript_selection() {
    assert_eq!(pick_transcript(None), "");
    assert_eq!(pick_transcript(Some(vec![])), "");
    assert_eq!(pick_transcript(Some(vec![vec![]])), "");
    assert_eq!(
        pick_transcript(Some(vec![
            vec!["你好".to_string(), "你号".to_string()],
            vec!["other".to_string()]
        ])),
        "你好"
    );
}

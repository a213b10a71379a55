//! Speech-to-text requests: WAV framing of captured PCM and the request to
//! the transcription service.
use vstd::prelude::*;
use vstd::string::StringExecFns;
use crate::audio::{le16, le32, push_le16, push_le32};

verus! {

/// Sample rate written into the WAV header, in Hz.
pub const WAV_SAMPLE_RATE: u32 = 16000;

/// Channels written into the WAV header.
pub const WAV_CHANNELS: u16 = 1;

/// Bits per sample written into the WAV header.
pub const WAV_BITS_PER_SAMPLE: u16 = 16;

/// The bytes of four ASCII characters.
pub open spec fn tag(a: char, b: char, c: char, d: char) -> Seq<u8> {
    seq![a as u8, b as u8, c as u8, d as u8]
}

/// Appends the bytes of four ASCII characters.
fn push_tag(out: &mut Vec<u8>, a: char, b: char, c: char, d: char)
    requires
        (a as u32) < 128,
        (b as u32) < 128,
        (c as u32) < 128,
        (d as u32) < 128,
    ensures
        final(out)@ == old(out)@ + tag(a, b, c, d),
{
    out.push(a as u8);
    out.push(b as u8);
    out.push(c as u8);
    out.push(d as u8);
    assert(final(out)@ =~= old(out)@ + tag(a, b, c, d));
}

/// The 44-byte header of a mono 16-bit 16 kHz PCM WAV file whose data chunk
/// holds `data_len` bytes.
pub open spec fn wav_header(data_len: u32) -> Seq<u8> {
    tag('R', 'I', 'F', 'F') + le32((36 + data_len) as u32) + tag('W', 'A', 'V', 'E') + tag(
        'f',
        'm',
        't',
        ' ',
    ) + le32(16) + le16(1) + le16(WAV_CHANNELS) + le32(WAV_SAMPLE_RATE) + le32(
        (WAV_SAMPLE_RATE * WAV_CHANNELS * (WAV_BITS_PER_SAMPLE / 8)) as u32,
    ) + le16((WAV_CHANNELS * (WAV_BITS_PER_SAMPLE / 8)) as u16) + le16(WAV_BITS_PER_SAMPLE) + tag(
        'd',
        'a',
        't',
        'a',
    ) + le32(data_len)
}

/// The WAV file that carries `pcm` as its data chunk.
pub open spec fn wav_file(pcm: Seq<u8>) -> Seq<u8> {
    wav_header(pcm.len() as u32) + pcm
}

/// The value of four little-endian bytes.
pub open spec fn read_le32(b: Seq<u8>) -> int {
    b[0] + 256 * b[1] + 65536 * b[2] + 16777216 * b[3]
}

proof fn lemma_le32_roundtrip(v: u32)
    ensures
        read_le32(le32(v)) == v,
        le32(v).len() == 4,
{
    let b = le32(v);
    assert(b[0] == v % 256);
    assert(b[1] == (v / 256) % 256);
    assert(b[2] == (v / 65536) % 256);
    assert(b[3] == v / 16777216);
    assert(v == v % 256 + 256 * ((v / 256) % 256) + 65536 * ((v / 65536) % 256) + 16777216 * (v
        / 16777216)) by (nonlinear_arith);
}

/// Law: the sizes that a WAV header declares agree with the file: the RIFF
/// chunk size (bytes 4..8) is the file length less 8, the data chunk size
/// (bytes 40..44) is the number of PCM bytes, and the PCM bytes follow the
/// header unchanged.
pub proof fn law_wav_sizes_match(pcm: Seq<u8>)
    requires
        pcm.len() + 44 <= u32::MAX,
    ensures
        wav_file(pcm).len() == pcm.len() + 44,
        read_le32(wav_file(pcm).subrange(4, 8)) == wav_file(pcm).len() - 8,
        read_le32(wav_file(pcm).subrange(40, 44)) == pcm.len(),
        wav_file(pcm).skip(44) == pcm,
{
    let n: u32 = pcm.len() as u32;
    lemma_le32_roundtrip((36 + n) as u32);
    lemma_le32_roundtrip(n);
    let w = wav_file(pcm);
    assert(w.subrange(4, 8) =~= le32((36 + n) as u32));
    assert(w.subrange(40, 44) =~= le32(n));
    assert(w.skip(44) =~= pcm);
}

/// Why a transcription cannot be requested.
#[derive(Clone, Copy, PartialEq, Eq, Structural, Debug)]
pub enum SttError {
    /// No key for the transcription service is configured.
    MissingApiKey,
}

impl SttError {
    /// The message that describes the error.
    pub fn message(&self) -> (s: String)
        ensures
            s@ == "Deepgram API key not configured"@,
    {
        String::from_str("Deepgram API key not configured")
    }
}

/// The request that asks the transcription service for a transcript.
pub struct TranscriptionRequest {
    pub url: String,
    /// Value of the `Authorization` header.
    pub authorization: String,
    /// Value of the `Content-Type` header.
    pub content_type: String,
    /// The WAV file to transcribe.
    pub body: Vec<u8>,
}

/// The transcription endpoint with its query: model, language, punctuation.
pub open spec fn transcription_url() -> Seq<char> {
    "https://api.deepgram.com/v1/listen?model=nova-2&language=zh&punctuate=true"@
}

/// A client of the transcription service.
pub struct STTClient {
    pub api_key: String,
}

impl STTClient {
    /// A client that authenticates with `api_key`.
    pub fn new(api_key: &str) -> (c: STTClient)
        ensures
            c.api_key@ == api_key@,
    {
        STTClient { api_key: String::from_str(api_key) }
    }

    /// Frames 16-bit mono 16 kHz PCM bytes as a WAV file.
    pub fn pcm_to_wav(&self, pcm_data: &[u8]) -> (wav: Vec<u8>)
        requires
            pcm_data@.len() + 44 <= u32::MAX,
        ensures
            wav@ == wav_file(pcm_data@),
    {
        let sample_rate: u32 = WAV_SAMPLE_RATE;
        let channels: u16 = WAV_CHANNELS;
        let bits_per_sample: u16 = WAV_BITS_PER_SAMPLE;
        let byte_rate: u32 = sample_rate * (channels as u32) * ((bits_per_sample as u32) / 8);
        let block_align: u16 = channels * (bits_per_sample / 8);
        let data_len: u32 = pcm_data.len() as u32;
        let file_len: u32 = 36 + data_len;
        let mut wav: Vec<u8> = Vec::with_capacity((44 + data_len) as usize);
        push_tag(&mut wav, 'R', 'I', 'F', 'F');
        push_le32(&mut wav, file_len);
        push_tag(&mut wav, 'W', 'A', 'V', 'E');
        push_tag(&mut wav, 'f', 'm', 't', ' ');
        push_le32(&mut wav, 16);
        push_le16(&mut wav, 1);
        push_le16(&mut wav, channels);
        push_le32(&mut wav, sample_rate);
        push_le32(&mut wav, byte_rate);
        push_le16(&mut wav, block_align);
        push_le16(&mut wav, bits_per_sample);
        push_tag(&mut wav, 'd', 'a', 't', 'a');
        push_le32(&mut wav, data_len);
        assert(wav@ =~= wav_header(data_len));
        let ghost header = wav@;
        let mut k: usize = 0;
        while k < pcm_data.len()
            invariant
                k <= pcm_data@.len(),
                wav@ == header + pcm_data@.take(k as int),
            decreases pcm_data@.len() - k,
        {
            wav.push(pcm_data[k]);
            k = k + 1;
            assert(wav@ =~= header + pcm_data@.take(k as int));
        }
        assert(pcm_data@.take(k as int) =~= pcm_data@);
        wav
    }

    /// The transcription request for captured PCM bytes, refused when no key
    /// is configured.
    pub fn prepare_transcription(&self, audio_data: &[u8]) -> (r: Result<
        TranscriptionRequest,
        SttError,
    >)
        requires
            audio_data@.len() + 44 <= u32::MAX,
        ensures
            r is Err <==> self.api_key@.len() == 0,
            r matches Err(e) ==> e == SttError::MissingApiKey,
            r matches Ok(q) ==> {
                &&& q.url@ == transcription_url()
                &&& q.authorization@ == "Token "@ + self.api_key@
                &&& q.content_type@ == "audio/wav"@
                &&& q.body@ == wav_file(audio_data@)
            },
    {
        if self.api_key.as_str().is_empty() {
            return Err(SttError::MissingApiKey);
        }
        let body = self.pcm_to_wav(audio_data);
        Ok(
            TranscriptionRequest {
                url: String::from_str(
                    "https://api.deepgram.com/v1/listen?model=nova-2&language=zh&punctuate=true",
                ),
                authorization: String::from_str("Token ").concat(self.api_key.as_str()),
                content_type: String::from_str("audio/wav"),
                body,
            },
        )
    }
}

/// The transcript of a transcription response: the first alternative of
/// the first channel, or the empty text. `channels` holds, per channel, the
/// transcripts of its alternatives; it is `None` when the response has no
/// results.
pub fn pick_transcript(channels: Option<Vec<Vec<String>>>) -> (t: String)
    ensures
        t@ == (match channels {
            Some(c) => if c@.len() > 0 && c@[0]@.len() > 0 {
                c@[0]@[0]@
            } else {
                Seq::<char>::empty()
            },
            None => Seq::<char>::empty(),
        }),
{
    match channels {
        Some(c) => {
            if c.len() > 0 && c[0].len() > 0 {
                c[0][0].clone()
            } else {
                String::new()
            }
        },
        None => String::new(),
    }
}

} // verus!

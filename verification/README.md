# ghostprompt (verified core)

The logic of a desktop live-caption and interview assistant, written in
Verus and proved against its specifications:

- `src/audio.rs` — the capture flag, framing constants, the silence-based
  speech segmenter with its conservation laws, capture device selection,
  16-bit PCM encoding and the configuration check that precedes a capture.
- `src/vad.rs` — the voice activity detector (`webrtc-vad`).
- `src/stt.rs` — WAV framing of PCM and the transcription request.
- `src/llm.rs` — the chat completion request and token selection.
- `src/sse.rs` — the incremental Server-Sent-Events decoder, with the laws
  that chunk boundaries do not matter (for text, and for valid UTF-8 bytes
  even when a chunk ends inside a character) and that `[DONE]` is never
  forwarded.
- `src/config.rs` — configuration, defaults and the effective system prompt.
- `src/text.rs` — character-level helpers (Unicode whitespace, trimming,
  substring search).

`app/` holds the desktop program around it: audio devices, the sample ring
buffer, HTTP, JSON, the configuration file and the window.

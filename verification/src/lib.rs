//! Core logic of a live captioning assistant: speech segmentation, audio
//! framing, a Server-Sent-Events decoder for streamed completions, request
//! preparation for the speech-to-text and chat services, and configuration.

pub mod audio;
pub mod config;
pub mod llm;
pub mod sse;
pub mod stt;
pub mod text;
pub mod vad;


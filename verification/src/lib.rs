//! Core of a real-time speech-to-caption engine: the voice-activity
//! segmenter that turns a scored sample stream into speech segments, the
//! CTC decoding that turns argmax frames into timestamped tokens, the
//! two-phase configuration hand-off with its apply plan, and the model
//! downloader's resume and progress-throttling rules.
//!
//! Everything floating-point — capture, resampling, the feature frontend,
//! the transformer forward pass, the activity scores themselves — runs
//! outside this crate; its results enter here as plain values, and every
//! decision taken on them is verified.

pub mod ctc;
pub mod decoder;
pub mod download;
pub mod encoder;
pub mod notify;
pub mod runtime;
pub mod service;
pub mod sync;
pub mod vad;

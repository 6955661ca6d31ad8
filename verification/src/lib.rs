//! The verified core of a speech-to-text assistant: API requests and
//! answer streams, the streaming tag filter, Base64 and sealed keys, prompt
//! templates, providers, rate limiting and the WAV layout.
pub mod api;
pub mod audio;
pub mod base64;
pub mod commands;
pub mod dpapi;
pub mod ffmpeg;
pub mod log;
pub mod prompt;
pub mod provider;
pub mod rate_limiter;
pub mod sse;
pub mod tag_filter;
pub mod text;

pub use commands::{ApiParams, AppConfig, ProviderInfo};

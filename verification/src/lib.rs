//! The decisions behind on-device dictation with Apple's Speech framework.
//!
//! The crate holds everything about a transcription that can be decided from plain values: which
//! transcript to keep, how long to wait for one, how audio samples become 16-bit PCM, which
//! question to put to the framework next and what each refusal means. Talking to the framework,
//! the file system and the clock is left to the caller.
//!
//! A caller runs a [`job::Job`] and, within it, a [`session::Session`]: both name the next thing
//! to do and take in what came of it.

pub mod authorization;
pub mod context;
pub mod files;
pub mod job;
pub mod locale;
pub mod recognition;
pub mod rounding;
pub mod samples;
pub mod session;
pub mod session_laws;
pub mod text;
pub mod timeout;
pub mod transcript;

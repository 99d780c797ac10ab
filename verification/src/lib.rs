//! Verified core of a push-to-talk dictation tool.
pub mod text;
pub mod capture;
pub mod wav;
pub mod transcribe;
pub mod history;
pub mod session;
pub mod typing;
pub mod diagnostics;

//! Cleanup of dictated transcripts and the session that decides when to apply it.
pub mod chars;
pub mod normalizer;
pub mod session;

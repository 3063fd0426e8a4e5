//! Reconstruction of structured game records from textual transcripts of a
//! turn-based negotiation protocol: line preprocessing, participant registry,
//! line classification, and a phase/event assembler that accumulates unit and
//! ownership state into one record per transcript.

pub mod assemble;
pub mod classify;
pub mod imap;
pub mod laws;
pub mod preprocess;
pub mod record;
pub mod registry;
pub mod strutil;

//! Core of a quick-reference overlay: fuzzy matching and ranking of cheat
//! sheet entries, a process-aware search index, and the resolution rules that
//! decide which sheet is shown for the foreground application.
//!
//! The library is pure: it works on an in-memory, session-local sheet store
//! and on plain values handed in by the shell around it. Loading sheets and
//! preferences from disk, window handling and process observation are that
//! shell's work.

pub mod index;
pub mod rank;
pub mod resolve;
pub mod score;
pub mod sheets;
pub mod text;

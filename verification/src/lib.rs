//! A small library behind two command-line text utilities: an echo that
//! joins its arguments with spaces, and a bounded reader that emits the
//! first N lines or N bytes of each of several input sources.
//!
//! All the logic lives here as verified functions over plain values:
//! argument validation, the bounded line and byte readers, and the
//! rendering of a whole multi-source run with its per-source headers and
//! error reports. Opening files, reading them and printing is left to the
//! thin binary around the library.

pub mod config;
pub mod echo;
pub mod head;
pub mod render;

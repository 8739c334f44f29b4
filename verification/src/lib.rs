//! Core engine of a terminal typing trainer.
//!
//! A fixed target phrase is compared, character by character, against the
//! sentence a user reconstructs from a chronological log of key events.
//! Everything here is pure: the terminal host appends events and renders
//! whatever these functions return.

pub mod render;
pub mod sentences;
pub mod session;
pub mod splitter;
pub mod text;
pub mod types;

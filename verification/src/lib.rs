//! Terminal cursor control through ANSI escape sequences.
//!
//! [`cursor`] holds the movement and visibility commands and renders each to
//! its escape sequence. [`detect`] recognises the terminal's answer to a
//! cursor position query in a stream of raw input bytes. [`decimal`] is the
//! decimal notation that both share, and [`laws`] proves what holds of the
//! reader on every input.

pub mod cursor;
pub mod decimal;
pub mod detect;
pub mod laws;

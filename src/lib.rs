//! Stream state machine for an interactive viewer of line-delimited JSON logs.
//!
//! The library keeps a bounded history of raw records, interprets keystrokes
//! through a two-mode automaton, derives the set of JSON object keys seen in the
//! history, and formats single records for display. Terminal output is described
//! by a queue of [`console::ConsoleCommand`] values that a driver replays.
pub mod console;
pub mod text;
pub mod key_set;
pub mod json;
pub mod line_generator;
pub mod stream_state;
pub mod laws;

//! Activation engine for a hotkey-driven line emitter.
//!
//! The library holds the verified core of a small utility that walks through a
//! word list one line per hotkey press: the fixed-width cursor record that
//! persists progress across restarts, the line source with skip and wraparound,
//! the activation state machine that the platform event loop drives, and the
//! pure parts of the two output sinks (keystroke injection and clipboard
//! placement). Platform calls themselves live outside the library.

pub mod cursor;
pub mod engine;
pub mod lines;
pub mod sink;

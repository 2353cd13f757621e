//! Everything that knows what freebuff's TUI looks like (prompt detection,
//! output extraction, approval prompts), kept in one place so that a TUI
//! change is a one-module fix.

pub mod chats;
pub mod driver;
pub mod log;
pub mod screen;
pub mod transcript;

use vstd::prelude::*;

verus! {

/// Command to exit freebuff cleanly.
pub const EXIT_COMMAND: &'static str = "/exit";

/// Key to cancel generation (Escape).
pub const CANCEL_KEY: &'static str = "\x1b";

} // verus!

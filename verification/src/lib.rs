//! bufflink: an Agent Client Protocol bridge for the freebuff coding agent.
//!
//! The verified library holds the protocol framing, the ACP message model,
//! the freebuff screen classifier, the transcript and log parsers, and the
//! decision logic of the driver. Process, terminal and async plumbing live
//! in the `app/` crate.

pub mod acp;
pub mod freebuff;
pub mod json;
pub mod pty;
pub mod text;

use vstd::prelude::*;

verus! {

} // verus!

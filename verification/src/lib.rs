//! Fixed-capacity read and write buffering over an abstract byte-stream
//! capability.
//!
//! Two independent wrappers batch transfers through an internal fixed-size
//! byte buffer: `BufferedRead` amortizes small reads, `BufferedWrite`
//! accumulates small writes. Each wraps one value of a caller-chosen stream
//! type implementing the stream traits in `stream`.

use vstd::prelude::*;

mod laws;
mod mem;
mod reader;
mod stream;
mod writer;

pub use laws::accepted_of;
pub use laws::committed_after;
pub use laws::concat_of;
pub use laws::lemma_refusals_change_nothing;
pub use laws::lemma_retry_delivers_once;
pub use laws::lemma_round_trip;
pub use laws::WriteOutcome;
pub use mem::Duplex;
pub use mem::MemError;
pub use mem::ScriptedSink;
pub use mem::VecSink;
pub use mem::VecSource;
pub use reader::BufferedRead;
pub use stream::Read;
pub use stream::Write;
pub use writer::BufferedWrite;

verus! {

/// Refusal returned when direct access to the underlying stream would
/// silently discard buffered bytes. It carries no payload: it is a refusal,
/// not a fault.
#[derive(Debug, PartialEq, Eq, Structural)]
pub struct BypassError;

} // verus!

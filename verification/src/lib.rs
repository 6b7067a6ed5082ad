//! Staleness-detection core for a blockchain indexing monitor.
//!
//! The library compares two independently fetched block heights — the
//! network head reported by a node provider and the indexed head persisted
//! by an indexing pipeline — and decides whether the indexer has fallen
//! unacceptably far behind. It holds the data model (256-bit heights and
//! their codecs), the response-parsing rules, the pure staleness evaluator,
//! and the per-tick decision; the surrounding process does the I/O.

pub mod alert;
pub mod codec;
pub mod cursor;
pub mod errors;
pub mod evaluate;
pub mod head;
pub mod height;
pub mod tick;

pub use alert::Incident;
pub use errors::FetchError;
pub use evaluate::EvaluationOutcome;
pub use height::Height;
pub use tick::TickDecision;

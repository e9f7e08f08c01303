//! A single-threaded, readiness-driven TCP client core.
//!
//! The verified library holds everything that can be stated and proved as
//! plain logic: the line-oriented protocol state machine, the outbound byte
//! queue with its partial-write accounting, the classification of read
//! results, the per-connection resumption step, and the table of connection
//! slots. The surrounding binary performs the actual socket I/O and feeds
//! the outcomes of each operation to the library as plain values.

pub mod driver;
pub mod protocol;
pub mod session;
pub mod state;
pub mod table;

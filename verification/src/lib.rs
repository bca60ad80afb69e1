//! A counter held in a single ledger account: the record's byte layout,
//! the two transitions that create and advance it, the encoding of the
//! requests that ask for them, and a small in-memory ledger to drive them.

pub mod address;
pub mod counter;
pub mod error;
pub mod harness;
pub mod history;
pub mod instruction;
pub mod ledger;
pub mod processor;

pub use address::Address;
pub use counter::Counter;
pub use error::CounterError;
pub use instruction::{Increment, Initialize};
pub use processor::{id, increment, initialize, process_instruction};

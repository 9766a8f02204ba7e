//! Settlement core of a cross-chain bridge: a light client that tracks a
//! foreign chain's block headers with a rolling confirmation window, and a
//! persistent FIFO ledger of pending asset-withdrawal applications whose
//! funds stay locked until the bridged chain confirms or rejects them.

pub mod types;
pub mod assets;
pub mod records;
pub mod process;
pub mod header;
pub mod header_laws;
pub mod records_laws;
pub mod vote_weight;
pub mod validators;

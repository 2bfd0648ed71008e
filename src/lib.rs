//! Core of a Tangle node: the binary codec, the message and milestone model,
//! the milestone-anchored UTXO ledger, snapshot import, the tangle state and
//! the decisions of the gossip layer, each with its contract.

pub mod codec;
pub mod text;
pub mod ids;
pub mod milestone;
pub mod table;
pub mod ledger;
pub mod snapshot;
pub mod snapshot_file;
pub mod tangle;
pub mod ms_tangle;
pub mod network;
pub mod payload;
pub mod gossip;

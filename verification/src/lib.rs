//! Core logic of a cross-chain block oracle: the epoch-message compression and
//! binary-encoding engine, and the decisions of the oracle's polling loop.

pub mod varint;
pub mod messages;
pub mod encoding;
pub mod subgraph_state;
pub mod merkle;
pub mod compressor;
pub mod config;
pub mod epoch_tracker;
pub mod freshness;
pub mod error_handling;
pub mod hex_format;
pub mod chain_id;
pub mod networks_diff;
pub mod oracle;
pub mod decoding;

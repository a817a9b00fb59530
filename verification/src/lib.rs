//! Ethereum JSON-RPC on top of a Substrate chain: the receipt index, the receipt extraction and
//! the decisions of the server around them, as verified code.

pub mod block_cache;
pub mod cli;
pub mod client;
pub mod consistency;
pub mod crypto;
pub mod database;
pub mod error;
pub mod evm;
pub mod hex_format;
pub mod log_filter;
pub mod native_client;
pub mod primitives;
pub mod receipt_extractor;
pub mod receipt_provider;
pub mod records;
pub mod rpc;
pub mod scale;
pub mod sql;
pub mod substrate_client;
pub mod subxt_client;
pub mod text;

//! Verified core logic of the SxT chain's pallets and node helpers.
//!
//! Every pallet's on-chain state is modelled here as plain data, and each
//! extrinsic or hook is a function from state and inputs to the next state
//! and its outcome.  Work that needs the chain runtime, HTTP or storage I/O
//! is left to the caller, which hands in its results.

pub mod attestation;
pub mod chain_spec;
pub mod cli;
pub mod commitments;
pub mod end_row_insert_simulation;
pub mod forwarder;
pub mod http_client;
pub mod parsing;
pub mod indexing;
pub mod indexing_migrations;
pub mod keystore;
pub mod mock_indexer;
pub mod offchain_indexing;
pub mod vecmap;
pub mod weights;
pub mod permissions;
pub mod proto;
pub mod staking_steps;
pub mod types;

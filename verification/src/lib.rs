//! A client and mirror for the PLC identity registry used by the AT Protocol.
//!
//! Each identity (a `did:plc:...`) is defined by an append-only, hash-chained
//! log of signed operations. This crate holds the verified core: the DAG-CBOR
//! codec and CID computation over operations, the operation data model, the
//! audit-log validator with its nullification protocol, and the normalized
//! mirror store with its reassembly guarantee.

pub mod api;
pub mod audit;
pub mod codec;
pub mod crypto;
pub mod data;
pub mod error;
pub mod op;
pub mod resolve;
pub mod store;

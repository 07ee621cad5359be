//! Serverless peer-to-peer messenger core.
//!
//! Each participant is reachable through an anonymizing overlay hidden
//! service; the textual service address doubles as the peer's long-term
//! cryptographic identity.  This crate holds the verified core: the address
//! codec, the hybrid-encryption and signing layer, the wire protocol with its
//! canonical JSON form, the contact and message store model, the offline
//! staging format, and the dispatch engine that ties them together.
//!
//! Process supervision, sockets and the distributed-hash-table client live
//! outside the library; they exchange plain values with it.

pub mod address;
pub mod base32;
pub mod config;
pub mod crypto;
pub mod engine;
pub mod logview;
pub mod message;
pub mod peer;
pub mod snf;
pub mod storage;
pub mod transport;
mod trusted;
pub mod util;
pub mod wire;

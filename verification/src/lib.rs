//! Bundle encoding and reconstruction for a tangle-style ledger.
//!
//! Messages published to the ledger are carried by bundles: ordered groups of
//! fixed-width transactions that share an address, a tag and a bundle hash.
//! This crate provides the encoder that splits an outgoing payload into such a
//! bundle, the reconstructor that groups fetched transactions back into
//! bundles and reassembles each payload, and the small value types and
//! helpers (payload packing, seed generation, message indexing) that the
//! surrounding transport layer needs.

pub mod transaction;

pub mod order;

pub mod encode;

pub mod reconstruct;

pub mod transport;

pub mod payload;

pub mod packet;

pub mod random;

pub mod msg_index;

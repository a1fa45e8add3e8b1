//! A small authenticated ledger service speaking a compact binary protocol
//! over a message-based transport.
//!
//! The crate is organised around the life of a datagram: [`codec`] gives
//! the wire primitives (big-endian integers, length-prefixed UTF-8
//! strings, decimal text), [`ext`] exposes them as buffer extension
//! traits, [`protocol`] defines the request and response packet layouts,
//! [`ledger`] holds the account store with its balance invariant,
//! [`session`] drives the per-connection state machine over all of these,
//! [`client`] builds requests and reads replies on the peer side, and
//! [`network`] models the connection actor's error budget and the
//! server's peer registry.  The transport itself and all rendering stay
//! outside the crate.

pub mod codec;
pub mod ext;
pub mod ledger;
pub mod protocol;
pub mod session;
pub mod client;
pub mod network;

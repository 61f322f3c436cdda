//! Core of an IMAP session layer over an object-oriented mail store:
//! LIST/LSUB resolution over a mailbox namespace, and SEARCH/SORT
//! compilation into a postfix filter plan over an index store, with
//! document-id to (seqnum, uid) mapping and a per-mailbox saved search.

pub mod bitmap;
pub mod bytes;
pub mod compile;
pub mod filter;
pub mod list;
pub mod mailbox;
pub mod namespace;
pub mod pattern;
pub mod search;
pub mod store;
pub mod text;
pub mod websocket;

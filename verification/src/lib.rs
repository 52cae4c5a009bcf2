//! The transfer core of a peer-to-peer file distribution node.
//!
//! A node advertises the files it seeds, finds out which of a file's declared
//! peers serve it right now, cuts the file into fixed-size pieces, asks the
//! peers for pieces, and puts the delivered pieces together again.
//!
//! This crate holds what such a node decides: the piece arithmetic, the byte
//! layout of payloads, the probing and scheduling rules, the two session state
//! machines and the router between them. It opens no socket and no file; the
//! program around it performs what the crate decides and reports what happened.
//!
//! Every function carries a contract over mathematical values, and the
//! properties that span several functions are stated as proof functions next
//! to them.

pub mod hash;
pub mod packet;
pub mod piece;
pub mod probe;
pub mod receive;
pub mod router;
pub mod schedule;
pub mod send;
pub mod text;
pub mod torrent;
pub mod transport;
pub mod wire;

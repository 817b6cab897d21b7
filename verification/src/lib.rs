//! A minimal QUIC endpoint: the packet and frame codecs, the keys of each
//! encryption level, and the state machine of one connection, which drives a
//! TLS 1.3 handshake through CRYPTO frames.
//!
//! The library takes datagrams as byte strings and returns datagrams as
//! byte strings; sockets are the caller's.  Every function states what it
//! returns over the wire forms and views that the modules define, and is
//! verified against that statement.  The `bytes`, `rand`, `ring`, `rustls`
//! and `rcgen` crates do the work that is theirs; what is relied upon of each
//! is stated where it is called.

pub mod buffer;
pub mod connection;
pub mod crypto;
pub mod frame;
pub mod handshake;
pub mod ingest;
pub mod manager;
pub mod packet;
pub mod stream;
pub mod tls;
pub mod varint;

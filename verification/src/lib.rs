//! A last-writer-wins tag service: the tag store, the request parser, the
//! router and the admission rule of its worker pool.
//!
//! Every item here is sequential and free of I/O. A server shares a
//! [`store::TagStore`] behind a lock, reads lines and bodies from its sockets,
//! and writes out the bytes that a [`request::Request`] has gathered.

pub mod cell;
pub mod fields;
pub mod grammar;
pub mod pool;
pub mod request;
pub mod response;
pub mod router;
pub mod server;
pub mod status;
pub mod store;
pub mod table;
pub mod tags;
pub mod text;

//! A local mirror of a federated package-metadata index for an
//! embedded-microcontroller software-pack ecosystem.
//!
//! The library holds the verified core of the mirror: construction of the
//! descriptor and archive URIs, the idempotent descriptor store, the redirect
//! policy of the HTTP fetcher, the vendor-index fan-out, the bounded
//! concurrent download pipeline with its atomic-materialization protocol, and
//! the pollable job handle. The surrounding process (threads, sockets, the
//! file system, the SQLite database) drives these state machines and performs
//! the actions they decide on.

pub mod config;
pub mod download;
pub mod dstore;
pub mod error;
pub mod job;
pub mod redirect;
pub mod refs;
pub mod uri;
pub mod vidx;

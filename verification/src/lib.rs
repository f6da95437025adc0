//! The decisions of an authentication daemon, with the sockets left out.
//!
//! The daemon sits between the programs that start sessions and the sources
//! that know who people are. Everything it decides is here as a function from
//! plain values to plain values: which source is asked, what a source is
//! allowed to assert, which groups and privileges a token ends up with, what a
//! caller is told when no answer could be had. What the daemon *does* (accept
//! connections, read the registry, ask the kernel for a token) lives outside
//! and hands its findings in.

pub mod attest;
pub mod change;
pub mod claim;
pub mod conversation;
pub mod derive;
pub mod domain;
pub mod home;
pub mod ident;
pub mod identity;
pub mod limits;
pub mod logon;
pub mod peer;
pub mod policy;
pub mod psi;
pub mod registry;
pub mod relay;
pub mod resolve;
pub mod select;
pub mod service_sid;
pub mod sid;
pub mod source;
pub mod text;
pub mod unix_id;
pub mod well_known;

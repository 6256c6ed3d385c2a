//! The indexer's pure logic: how it names the registry's storage entries,
//! how it decodes them, and how it answers each read.

pub mod config;
pub mod domain;
pub mod error;
pub mod gallery;
pub mod laws;
pub mod rpc;
pub mod scval;
pub mod strkey;
pub mod text;
pub mod xdr;

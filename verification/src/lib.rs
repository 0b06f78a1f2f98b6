//! Decision logic of a binary-options research and execution system: bounded history
//! acquisition, lineage of published generations, feature builds, dataset imports, and the
//! live runtime's leases, journal, receipts and claims.
//!
//! Every function here works on plain values. Files, sockets, threads, clocks and the broker
//! stay with the program around this library.

pub mod config;
pub mod dataset;
pub mod digest;
pub mod text;
pub mod market;
pub mod search;
pub mod store;
pub mod table;
pub mod features;
pub mod fetch;
pub mod import;
pub mod inspect;
pub mod lineage;
pub mod live;

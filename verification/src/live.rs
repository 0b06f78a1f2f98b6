//! The live runtime's decisions: one ordered owner of features, execution and journal, leases
//! and durable dispatch claims, recovery after a restart, and the compatibility receipt.

pub mod acting;
pub mod archive;
pub mod authorization;
pub mod claims;
pub mod control;
pub mod deployment;
pub mod dispatch;
pub mod due;
pub mod entries;
pub mod finance;
pub mod ingress;
pub mod journal;
pub mod laws;
pub mod lease;
pub mod market;
pub mod observing;
pub mod opening;
pub mod owner;
pub mod receipt;
pub mod reconcile;
pub mod restoring;
pub mod rows;
pub mod shutdown;
pub mod startup;
pub mod statement;
pub mod steps;
pub mod workers;

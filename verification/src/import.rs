//! Importing datasets: which files a declared inventory holds, what they must agree on, and what
//! is published of them.

pub mod bars;
pub mod collection;
pub mod daily;
pub mod laws;
pub mod paths;
pub mod publish;

//! Feature generations: their tables, the plan that a generation applies, how fitting and
//! encoding share memory, and when a completed generation is reused.

pub mod fit;
pub mod generation;
pub mod laws;
pub mod parallel;
pub mod plan;
pub mod reuse;
pub mod table;

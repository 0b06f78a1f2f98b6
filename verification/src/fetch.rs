//! Bounded history acquisition: backward paging from a fixed end, explicit imported seeds,
//! overlap comparison, coverage, and the decisions between one broker request and the next.

pub mod acquire;
pub mod bounds;
pub mod coverage;
pub mod laws;
pub mod page;
pub mod plan;
pub mod prior;
pub mod progress;
pub mod publish;
pub mod rows;
pub mod settle;

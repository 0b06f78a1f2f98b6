//! Daily continuation: verified ranges, migration records, day inventories, and the choice of
//! the newest generation. The ready manifest owns the complete closure; a descendant carries
//! existing days and changes only those with additional rows.

pub mod assemble;
pub mod catalog;
pub mod choice;
pub mod days;
pub mod descend;
pub mod document;
pub mod evidence;
pub mod json;
pub mod keeping;
pub mod laws;
pub mod lines;
pub mod migration;
pub mod occurrences;
pub mod ranges;
pub mod reclaim;
pub mod root;
pub mod rows;
pub mod select;
pub mod snapshots;
pub mod sources;
pub mod writing;

//! I/O cost estimates for joining two relational tables, and the choice of the
//! cheapest join method among block nested loop, indexed, sort-merge and hash join.

pub mod cost;
pub mod request;
pub mod schema;
pub mod selector;

//! Line-by-line comparison of the coverage that two test suites report for
//! the same source tree.

pub mod classify;
pub mod difference;
pub mod node;
pub mod path_map;
pub mod path_order;
pub mod reconcile;
pub mod report;
pub mod roots;
pub mod store;
pub mod text;
pub mod walk;

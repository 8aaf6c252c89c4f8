pub mod args;
pub mod catalog;
pub mod filename;
pub mod notes;
pub mod plan;
pub mod search;
pub mod sort;
pub mod stats;
pub mod tables;
pub mod text;

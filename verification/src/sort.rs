pub mod config;
pub mod group;
pub mod laws;
pub mod pipeline;
pub mod stages;
pub mod tree;

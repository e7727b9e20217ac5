pub mod text;
pub mod repo;
pub mod graph;
pub mod invocation;
pub mod git_utils;
pub mod jujutsu;
pub mod config;
pub mod stacks;
pub mod cli;
pub mod report;

//! Core logic of a command-line client for a partitioned document database:
//! a typed parameter model with validation and resolution, a query executor
//! that fans a query out over partition key ranges with pagination and cost
//! accounting, a step-reference resolver for multi-step stored queries, and a
//! dependency-aware pipeline scheduler with cycle detection.

#![allow(unused_imports)]

pub mod banner;
pub mod cli;
pub mod config;
pub mod executor;
pub mod graph;
pub mod num;
pub mod output;
pub mod params;
pub mod parse;
pub mod pipeline;
pub mod refs;
pub mod render;
pub mod stored_query;
pub mod text;
pub mod values;

use vstd::prelude::*;

pub mod text;
pub mod scan;
pub mod map;
pub mod prefixes;
pub mod query;
pub mod error;
pub mod config;
pub mod cli;
pub mod render;
pub mod json;

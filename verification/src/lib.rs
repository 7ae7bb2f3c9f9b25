use vstd::prelude::*;

pub mod args;
pub mod bindings;
pub mod cli;
pub mod cache;
pub mod errors;
pub mod init;
pub mod models;
pub mod paths;
pub mod refresh;
pub mod style;
pub mod text;
pub mod utils;

use vstd::prelude::*;

pub mod agent;
pub mod api;
pub mod config;
pub mod context;
pub mod install;
pub mod json;
pub mod llm;
pub mod log;
pub mod mcp;
pub mod memory;
pub mod persona;
pub mod prompt;
pub mod providers;
pub mod replies;
pub mod resource;
pub mod schedule;
pub mod secret;
pub mod stats;
pub mod stream;
pub mod task;
pub mod text;
pub mod tools;
pub mod tts;

verus! {

} // verus!

//! Core logic of a terminal client for the 5ch bulletin boards: reading the
//! board menu, thread lists and threads, searching, detecting follow-up
//! threads, keeping the reading history, and exporting threads.
use vstd::prelude::*;

pub mod browser;
pub mod errors;
pub mod export;
pub mod fetch;
pub mod foreign;
pub mod history;
pub mod json;
pub mod lock;
pub mod menu;
pub mod models;
pub mod nextthread;
pub mod parse;
pub mod search;
pub mod text;
pub mod threads;

verus! {
} // verus!

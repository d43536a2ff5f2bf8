//! Keyboard-driven pointer positioning for Wayland: hint grids, their labels,
//! the configuration file, and the decisions of the agent and overlay modes.
use vstd::prelude::*;

pub mod text;
pub mod json;
pub mod hint;
pub mod config;
pub mod render;
pub mod agent;
pub mod pointer;
pub mod input;
pub mod scanner;

verus! {

} // verus!

//! Combo navigation: a parser for authored combo scripts, a tap/hold
//! discrimination engine for key edges, and the step sequencer that
//! consumes its events.

use vstd::prelude::*;

pub mod combo;
pub mod config;
pub mod input;
pub mod state;

pub use state::{AppState, CurrentCommandInfo};

verus! {

} // verus!

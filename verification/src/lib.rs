//! Verified core of a PipeWire parametric equalizer: AutoEQ `.apo` parsing,
//! filter-chain module configuration, SPA-JSON rendering, key maps, filter
//! selection and the command line of the interactive editor.
use vstd::prelude::*;

pub mod actions;
pub mod apo;
pub mod apo_write;
pub mod autoeq;
pub mod command;
pub mod config_json;
pub mod describe;
pub mod dump;
pub mod editor;
pub mod eq;
pub mod filter_id;
pub mod keymap;
pub mod module;
pub mod number;
pub mod routing;
pub mod spa_json;
pub mod spa_read;
pub mod spa_round_trip;
pub mod text;

verus! {

} // verus!

//! A turn-based decision agent for a two-player potion-brewing contest.
//!
//! Each turn the agent is handed the recipes on offer, the spells it knows
//! and both inventories, and answers with one action: brew, cast, or rest.

pub mod base;
pub mod engine;
pub mod input;
pub mod player;
pub mod text;
pub mod vec;

//! Gameplay-simulation core of a top-down action game: inventory and
//! crafting, timed status effects, combat resolution and the grab/throw
//! interaction, each as verified functions over plain values.

pub mod bundle;
pub mod combat;
pub mod component;
pub mod in_game;
pub mod magic;
pub mod shape_mod;
pub mod synthesis;
pub mod tally;
pub mod timer;

//! Simulation core of a two-player ball-and-paddle game.
//!
//! Entities are plain identifiers. Their state lives in per-type component
//! tables owned by a [`store::World`]; a system selects the entities that hold
//! its aspect and updates their components once per tick, and the creations
//! and removals that it asks for wait until the tick is over. [`schedule`]
//! runs the systems in their order. Every scalar is a fixed-point number, see
//! [`fixed`]; a window, input and drawing are left to the caller, who hands
//! in one [`event::Event`] per tick and gets back what there is to draw.
//!
//! [`deferral`] and [`history`] hold what is proved of the store and of the
//! course of the game.

pub mod components;
pub mod contact;
pub mod debug;
pub mod deferral;
pub mod event;
pub mod fixed;
pub mod history;
pub mod playfield;
mod random;
pub mod schedule;
pub mod spawn;
pub mod store;
pub mod systems;
pub mod table;
mod vector;

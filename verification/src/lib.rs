//! Verified game logic: inventories, credits, trading, equipment slots,
//! factions, drops, and the decisions of the AI, weapons and input systems.

pub mod ai;
pub mod chunks;
pub mod collections;
pub mod error;
pub mod faction;
pub mod input;
pub mod items;
pub mod rng;
pub mod spawn;
pub mod spawner;
pub mod state;
pub mod store;
pub mod text;
pub mod universe;
pub mod weapons;

//! Items, inventories, credits and drops

pub mod assets;
pub mod credits;
pub mod drop;
pub mod equipment;
pub mod inventory;
pub mod item;

pub use assets::{ItemAssets, ItemLibrary};
pub use credits::{Credits, CreditsError};
pub use drop::{DropRate, Drops, DropsBuilder};
pub use equipment::EquipmentTypeId;
pub use inventory::Inventory;
pub use item::{Item, ItemCategory};

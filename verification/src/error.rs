//! Errors of game operations

use vstd::prelude::*;

use crate::items::CreditsError;

verus! {

/// The error `bevy` returns when a query cannot fetch an entity; it is only carried.
#[verifier::external_type_specification]
#[verifier::external_body]
pub struct ExQueryEntityError(bevy::ecs::query::QueryEntityError);

/// A catch-all error type for game event errors,
/// like inventory space requirement failures
#[derive(Debug)]
pub enum GameError {
    /// Inventory error
    InventoryError(InventoryError),
    /// Equipment error
    EquipmentError(EquipmentError),
    /// World event error
    WorldEventError(WorldEventError),
    /// Store error
    StoreError(StoreError),
}

/// World event error
#[derive(Debug, PartialEq, Eq)]
pub enum WorldEventError {
    /// Asset not found with a string key
    AssetNotFound(String),
}

/// Inventory error
#[derive(Debug, PartialEq, Eq)]
pub enum InventoryError {
    /// No space left in the inventory
    NoSpaceLeft {
        /// Space over the maximum
        overage: usize,
    },
    /// More items requested than this inventory contains
    InsufficientItems {
        /// Wanted to remove
        want_to_remove: usize,
        /// Number that exists in inventory
        exists: usize,
    },
    /// Attempted to equip an unequippable item
    Unequippable {
        /// Item name string
        item_name: String,
    },
    /// Unable to get the necessary `Inventory` or `Equipment` components of the provided entity
    Unqueriable,
    /// No item found with given handle
    ItemNotFound,
    /// Query entity error
    QueryEntityError(bevy::ecs::query::QueryEntityError),
}

/// Store error
#[derive(Debug, PartialEq, Eq)]
pub enum StoreError {
    /// Query entity error
    QueryEntityError(bevy::ecs::query::QueryEntityError),
    /// Credits error
    CreditsError(CreditsError),
    /// Inventory error
    InventoryError(InventoryError),
    /// Not enough items in inventory
    NotEnoughItems,
    /// Not enough credits
    NotEnoughCredits,
}

/// Equipment error
#[derive(Debug, PartialEq, Eq)]
pub enum EquipmentError {
    /// Query entity error
    QueryEntityError(bevy::ecs::query::QueryEntityError),
    /// Inventory error
    InventoryError(InventoryError),
    /// Slot not available (full or does not exist)
    SlotNotAvailable,
}

} // verus!

use qz::error::InventoryError;
use qz::items::inventory::item_asset_key;
use qz::items::{Inventory, Item, ItemAssets, ItemLibrary};

fn item(name: &str, size: usize, value: usize) -> Item {
    Item { name: name.to_string(), size, value, equipment: None }
}

#[test]
fn test_inventory_add_over() {
    let mut inv = Inventory::with_capacity(10);
    assert!(inv.add(0, 3, 1).is_ok());
    assert!(inv.add(0, 6, 1).is_ok());
    assert!(inv
        .add(0, 3, 1)
        .is_err_and(|x| x == InventoryError::NoSpaceLeft { overage: 2 }))
}

#[test]
fn add_accumulates_counts_and_space() {
    let mut inv = Inventory::with_capacity(20);
    assert_eq!(inv.add(7, 2, 3), Ok(()));
    assert_eq!(inv.add(7, 2, 2), Ok(()));
    assert_eq!(inv.add(8, 1, 4), Ok(()));
    assert_eq!(inv.count(7), 5);
    assert_eq!(inv.quantity(&8), 4);
    assert_eq!(inv.count(9), 0);
    assert_eq!(inv.space_occupied(), 14);
    assert_eq!(inv.space_remaining(), 6);
    assert_eq!(inv.capacity(), 20);
    assert!(!inv.is_empty());
}

#[test]
fn add_exactly_to_capacity_fits() {
    let mut inv = Inventory::with_capacity(12);
    assert_eq!(inv.add(1, 4, 3), Ok(()));
    assert_eq!(inv.space_remaining(), 0);
    assert_eq!(inv.add(1, 1, 1), Err(InventoryError::NoSpaceLeft { overage: 1 }));
    // a refused add changes nothing
    assert_eq!(inv.count(1), 3);
    assert_eq!(inv.space_occupied(), 12);
}

#[test]
fn remove_takes_items_and_space() {
    let mut inv = Inventory::with_capacity(30);
    inv.add(3, 2, 5).unwrap();
    assert_eq!(inv.remove(3, 2, 2), Ok(()));
    assert_eq!(inv.count(3), 3);
    assert_eq!(inv.space_occupied(), 6);
    assert_eq!(inv.remove(3, 2, 3), Ok(()));
    assert_eq!(inv.count(3), 0);
    assert!(inv.is_empty());
    assert_eq!(inv.space_occupied(), 0);
}

#[test]
fn remove_too_many_is_refused() {
    let mut inv = Inventory::with_capacity(30);
    inv.add(3, 2, 2).unwrap();
    assert_eq!(
        inv.remove(3, 2, 5),
        Err(InventoryError::InsufficientItems { want_to_remove: 5, exists: 2 })
    );
    assert_eq!(
        inv.remove(4, 2, 1),
        Err(InventoryError::InsufficientItems { want_to_remove: 1, exists: 0 })
    );
    assert_eq!(inv.count(3), 2);
    assert_eq!(inv.space_occupied(), 4);
}

#[test]
fn add_then_remove_restores_inventory() {
    let mut inv = Inventory::with_capacity(50);
    inv.add(1, 3, 2).unwrap();
    inv.add(2, 1, 7).unwrap();
    inv.add(1, 3, 4).unwrap();
    inv.remove(1, 3, 4).unwrap();
    assert_eq!(inv.count(1), 2);
    assert_eq!(inv.count(2), 7);
    assert_eq!(inv.space_occupied(), 13);
}

#[test]
fn default_and_max_capacity() {
    let inv = Inventory::default();
    assert_eq!(inv.capacity(), 64);
    assert_eq!(inv.space_occupied(), 0);
    assert!(inv.is_empty());
    let big = Inventory::max_capacity();
    assert_eq!(big.capacity(), usize::MAX);
    assert_eq!(big.space_remaining(), usize::MAX);
}

#[test]
fn with_uses_retrieved_size() {
    let ore = item("ore", 4, 10);
    let inv = Inventory::with_capacity(10).with(5, 2, Some(&ore)).unwrap();
    assert_eq!(inv.count(5), 2);
    assert_eq!(inv.space_occupied(), 8);
    let err = Inventory::with_capacity(10).with(5, 3, Some(&ore));
    assert_eq!(err.err(), Some(InventoryError::NoSpaceLeft { overage: 2 }));
    let missing = Inventory::with_capacity(10).with(5, 1, None);
    assert_eq!(missing.err(), Some(InventoryError::ItemNotFound));
}

#[test]
fn transfer_moves_items_between_inventories() {
    let ore = item("ore", 2, 10);
    let mut from = Inventory::with_capacity(20);
    let mut to = Inventory::with_capacity(20);
    from.add(5, 2, 4).unwrap();
    assert_eq!(from.transfer(5, &mut to, 3, Some(&ore)), Ok(3));
    assert_eq!(from.count(5), 1);
    assert_eq!(to.count(5), 3);
    assert_eq!(from.space_occupied(), 2);
    assert_eq!(to.space_occupied(), 6);
    assert_eq!(from.count(5) + to.count(5), 4);
}

#[test]
fn transfer_errors() {
    let ore = item("ore", 2, 10);
    let mut from = Inventory::with_capacity(20);
    let mut small = Inventory::with_capacity(3);
    from.add(5, 2, 4).unwrap();
    assert_eq!(from.transfer(5, &mut small, 2, None), Err(InventoryError::ItemNotFound));
    assert_eq!(
        from.transfer(5, &mut small, 2, Some(&ore)),
        Err(InventoryError::NoSpaceLeft { overage: 1 })
    );
    assert_eq!(from.count(5), 4);
    assert_eq!(small.space_occupied(), 0);
}

#[test]
fn transfer_without_enough_items_changes_nothing() {
    let ore = item("ore", 1, 10);
    let mut from = Inventory::with_capacity(20);
    let mut to = Inventory::with_capacity(20);
    from.add(5, 1, 1).unwrap();
    assert_eq!(
        from.transfer(5, &mut to, 2, Some(&ore)),
        Err(InventoryError::InsufficientItems { want_to_remove: 2, exists: 1 })
    );
    // a failed move changes neither inventory
    assert_eq!(from.count(5), 1);
    assert_eq!(to.count(5), 0);
    assert_eq!(to.space_occupied(), 0);
}

#[test]
fn transfer_all_merges_and_empties() {
    let mut from = Inventory::with_capacity(20);
    let mut to = Inventory::with_capacity(20);
    from.add(1, 2, 3).unwrap();
    from.add(2, 1, 1).unwrap();
    to.add(1, 2, 1).unwrap();
    assert_eq!(from.transfer_all(&mut to), Ok(()));
    assert!(from.is_empty());
    assert_eq!(from.space_occupied(), 0);
    assert_eq!(to.count(1), 4);
    assert_eq!(to.count(2), 1);
    assert_eq!(to.space_occupied(), 9);
}

#[test]
fn transfer_all_without_space_changes_nothing() {
    let mut from = Inventory::with_capacity(20);
    let mut to = Inventory::with_capacity(5);
    from.add(1, 2, 3).unwrap();
    to.add(2, 1, 2).unwrap();
    assert_eq!(from.transfer_all(&mut to), Err(InventoryError::NoSpaceLeft { overage: 3 }));
    assert_eq!(from.count(1), 3);
    assert_eq!(to.count(1), 0);
    assert_eq!(to.space_occupied(), 2);
}

#[test]
fn drain_hands_out_everything() {
    let mut inv = Inventory::with_capacity(20);
    inv.add(1, 2, 3).unwrap();
    inv.add(2, 1, 1).unwrap();
    let mut drained = inv.drain();
    drained.sort();
    assert_eq!(drained, vec![(1, 3), (2, 1)]);
    assert!(inv.is_empty());
    assert_eq!(inv.space_occupied(), 0);
    let mut listed = Inventory::with_capacity(5);
    listed.add(9, 1, 2).unwrap();
    assert_eq!(listed.iter(), vec![(9, 2)]);
}

#[test]
fn item_asset_key_wraps_name() {
    assert_eq!(item_asset_key(&"iron".to_string()), "items/iron.ron");
}

fn library() -> (ItemAssets, ItemLibrary) {
    let mut assets = ItemAssets::new();
    let mut lib = ItemLibrary::new();
    assets.insert(10, item("iron", 2, 5));
    assets.insert(11, item("gold", 3, 50));
    lib.insert("items/iron.ron".to_string(), 10);
    lib.insert("items/gold.ron".to_string(), 11);
    lib.insert("items/ghost.ron".to_string(), 12);
    (assets, lib)
}

#[test]
fn with_many_from_str_stocks_by_name() {
    let (assets, lib) = library();
    let entries = vec![("iron".to_string(), 3), ("gold".to_string(), 2)];
    let inv = Inventory::with_capacity(20).with_many_from_str(&entries, &assets, &lib).unwrap();
    assert_eq!(inv.count(10), 3);
    assert_eq!(inv.count(11), 2);
    assert_eq!(inv.space_occupied(), 12);
}

#[test]
fn with_many_from_str_errors() {
    let (assets, lib) = library();
    let unknown = vec![("iron".to_string(), 1), ("copper".to_string(), 1)];
    assert_eq!(
        Inventory::with_capacity(20).with_many_from_str(&unknown, &assets, &lib).err(),
        Some(InventoryError::ItemNotFound)
    );
    let no_asset = vec![("ghost".to_string(), 1)];
    assert_eq!(
        Inventory::with_capacity(20).with_many_from_str(&no_asset, &assets, &lib).err(),
        Some(InventoryError::ItemNotFound)
    );
    let too_many = vec![("gold".to_string(), 5)];
    assert_eq!(
        Inventory::with_capacity(10).with_many_from_str(&too_many, &assets, &lib).err(),
        Some(InventoryError::NoSpaceLeft { overage: 5 })
    );
}

#[test]
fn assets_and_library_lookup() {
    let (assets, lib) = library();
    assert_eq!(lib.get("items/gold.ron"), Some(11));
    assert_eq!(lib.get("items/copper.ron"), None);
    assert_eq!(assets.get(10).map(|i| i.size), Some(2));
    assert!(assets.get(12).is_none());
}

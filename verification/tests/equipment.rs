use qz::error::{EquipmentError, InventoryError};
use qz::items::equipment::{equip, unequip_into_inventory, Equipped};
use qz::items::{EquipmentTypeId, Inventory, Item, ItemCategory};

fn laser() -> Item {
    Item { name: "laser".to_string(), size: 3, value: 100, equipment: Some(EquipmentTypeId::Weapon) }
}

#[test]
fn slots_and_capacity() {
    let eq = Equipped::with_slots(&vec![
        (EquipmentTypeId::Weapon, 2),
        (EquipmentTypeId::Armor, 1),
        (EquipmentTypeId::Weapon, 3),
    ]);
    assert_eq!(eq.capacity(&EquipmentTypeId::Weapon), 3);
    assert_eq!(eq.capacity(&EquipmentTypeId::Armor), 1);
    assert_eq!(eq.capacity(&EquipmentTypeId::Battery), 0);
    assert_eq!(eq.slots_remaining(&EquipmentTypeId::Weapon), 3);
    let mut slots = eq.slots();
    slots.sort();
    assert_eq!(slots, vec![(EquipmentTypeId::Weapon, 3), (EquipmentTypeId::Armor, 1)]);
}

#[test]
fn register_and_unregister() {
    let mut eq = Equipped::with_slots(&vec![(EquipmentTypeId::Weapon, 2)]);
    eq.register(&EquipmentTypeId::Weapon, 40);
    eq.register(&EquipmentTypeId::Weapon, 41);
    eq.register(&EquipmentTypeId::Weapon, 40);
    assert_eq!(eq.slots_remaining(&EquipmentTypeId::Weapon), 0);
    let mut members = eq.members(&EquipmentTypeId::Weapon);
    members.sort();
    assert_eq!(members, vec![40, 41]);
    eq.unregister(&EquipmentTypeId::Weapon, 40);
    assert_eq!(eq.members(&EquipmentTypeId::Weapon), vec![41]);
    assert_eq!(eq.slots_remaining(&EquipmentTypeId::Weapon), 1);
    assert!(eq.members(&EquipmentTypeId::Armor).is_empty());
    let groups = eq.iter();
    assert_eq!(groups, vec![(EquipmentTypeId::Weapon, vec![41])]);
    let copy = eq.clone();
    assert_eq!(copy.members(&EquipmentTypeId::Weapon), vec![41]);
    assert_eq!(Equipped::default().capacity(&EquipmentTypeId::Weapon), 0);
}

#[test]
fn equip_takes_item_from_inventory() {
    let eq = Equipped::with_slots(&vec![(EquipmentTypeId::Weapon, 1)]);
    let mut inv = Inventory::with_capacity(10);
    inv.add(7, 3, 2).unwrap();
    assert_eq!(equip(&eq, &laser(), &mut inv, 7, true), Ok(()));
    assert_eq!(inv.count(7), 1);
    assert_eq!(inv.space_occupied(), 3);
    assert_eq!(equip(&eq, &laser(), &mut inv, 7, false), Ok(()));
    assert_eq!(inv.count(7), 1);
}

#[test]
fn equip_without_slot_or_item_fails() {
    let mut eq = Equipped::with_slots(&vec![(EquipmentTypeId::Weapon, 1)]);
    eq.register(&EquipmentTypeId::Weapon, 3);
    let mut inv = Inventory::with_capacity(10);
    inv.add(7, 3, 1).unwrap();
    assert_eq!(equip(&eq, &laser(), &mut inv, 7, true), Err(EquipmentError::SlotNotAvailable));
    assert_eq!(inv.count(7), 1);
    let free = Equipped::with_slots(&vec![(EquipmentTypeId::Weapon, 1)]);
    assert_eq!(
        equip(&free, &laser(), &mut inv, 8, true),
        Err(EquipmentError::InventoryError(InventoryError::InsufficientItems {
            want_to_remove: 1,
            exists: 0
        }))
    );
}

#[test]
fn unequip_returns_item_to_inventory() {
    let mut inv = Inventory::with_capacity(4);
    assert_eq!(unequip_into_inventory(&mut inv, 7, Some(&laser())), Ok(()));
    assert_eq!(inv.count(7), 1);
    assert_eq!(
        unequip_into_inventory(&mut inv, 7, Some(&laser())),
        Err(EquipmentError::InventoryError(InventoryError::NoSpaceLeft { overage: 2 }))
    );
    assert_eq!(
        unequip_into_inventory(&mut inv, 7, None),
        Err(EquipmentError::InventoryError(InventoryError::ItemNotFound))
    );
    assert_eq!(inv.count(7), 1);
}

#[test]
fn item_kinds() {
    assert_eq!(laser().equipment_type_str(), "weapon");
    let ore = Item { name: "ore".to_string(), size: 1, value: 1, equipment: None };
    assert_eq!(ore.equipment_type_str(), "item");
    let armor = Item { equipment: Some(EquipmentTypeId::Armor), ..ore.clone() };
    assert_eq!(armor.equipment_type_str(), "armor");
    assert_eq!(EquipmentTypeId::Battery.key(), 3);
    assert!(ItemCategory::Weapon.equippable());
    assert!(!ItemCategory::Other.equippable());
}

#[test]
fn items_are_equal_by_name() {
    let a = Item { name: "ore".to_string(), size: 1, value: 1, equipment: None };
    let b = Item { name: "ore".to_string(), size: 5, value: 9, equipment: Some(EquipmentTypeId::Armor) };
    let c = Item { name: "gem".to_string(), size: 1, value: 1, equipment: None };
    assert!(a == b);
    assert!(a != c);
}

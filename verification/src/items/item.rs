use vstd::prelude::*;

use crate::items::equipment::EquipmentTypeId;

verus! {

/// A general in-game item, as the game rules read it: what it is called, the
/// space it takes in an inventory, what it is worth, and what kind of
/// equipment it is, if any.
#[derive(Debug)]
pub struct Item {
    /// The in-game name of this item
    pub name: String,
    /// The space this item displaces in the [`Inventory`](crate::items::Inventory)
    pub size: usize,
    /// The worth of this item in `Credits`
    pub value: usize,
    /// Whether or not this item is equippable, and as what kind of equipment
    pub equipment: Option<EquipmentTypeId>,
}

/// The description of an item's kind shown to the player.
pub open spec fn equipment_type_name(equipment: Option<EquipmentTypeId>) -> &'static str {
    match equipment {
        Some(EquipmentTypeId::Weapon) => "weapon",
        Some(EquipmentTypeId::RepairBot) => "repair bot",
        Some(EquipmentTypeId::Generator) => "generator",
        Some(EquipmentTypeId::Battery) => "battery",
        Some(EquipmentTypeId::Armor) => "armor",
        None => "item",
    }
}

impl Clone for Item {
    fn clone(&self) -> (r: Self)
        ensures
            r == *self,
    {
        Item {
            name: self.name.clone(),
            size: self.size,
            value: self.value,
            equipment: self.equipment,
        }
    }
}

/// Items are the same item when they have the same name.
impl PartialEq for Item {
    fn eq(&self, other: &Self) -> (r: bool) {
        self.name == other.name
    }
}

impl Eq for Item {

}

impl vstd::std_specs::cmp::PartialEqSpecImpl for Item {
    open spec fn obeys_eq_spec() -> bool {
        true
    }

    open spec fn eq_spec(&self, other: &Self) -> bool {
        self.name@ == other.name@
    }
}

impl Item {
    /// Get the item type as a string
    pub fn equipment_type_str(&self) -> (r: &'static str)
        ensures
            r == equipment_type_name(self.equipment),
    {
        match &self.equipment {
            Some(eq) => match eq {
                EquipmentTypeId::Weapon => "weapon",
                EquipmentTypeId::RepairBot => "repair bot",
                EquipmentTypeId::Generator => "generator",
                EquipmentTypeId::Battery => "battery",
                EquipmentTypeId::Armor => "armor",
            },
            None => "item",
        }
    }
}

/// Marker for the item type used for determining equippable status as well as for categorization
pub enum ItemCategory {
    /// A weapon
    Weapon,
    /// Anything else, which cannot be equipped
    Other,
}

impl ItemCategory {
    /// Whether items of this category can be equipped
    pub fn equippable(&self) -> (r: bool)
        ensures
            r <==> (*self is Weapon),
    {
        match self {
            ItemCategory::Weapon => true,
            ItemCategory::Other => false,
        }
    }
}

} // verus!

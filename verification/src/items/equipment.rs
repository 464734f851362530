use vstd::prelude::*;

use crate::collections::{count_map_contents, group_map_contents, CountMap, GroupMap};
use crate::error::{EquipmentError, InventoryError};
use crate::items::inventory::{count_in, with_added, with_removed};
use crate::items::assets::ItemLibrary;
use crate::items::inventory::item_key;
use crate::items::{Inventory, Item};

verus! {

/// Defines an equipment kind without associated information.
#[derive(Copy, Clone, Debug, PartialEq, Eq, Hash, PartialOrd, Ord)]
pub enum EquipmentTypeId {
    /// A weapon that can fire
    Weapon,
    /// Repairs damage over time
    RepairBot,
    /// Generates energy
    Generator,
    /// Stores energy
    Battery,
    /// Increases maximum health
    Armor,
}

/// The integer key under which an equipment kind is stored in hash maps.
pub open spec fn equipment_key(id: EquipmentTypeId) -> u64 {
    match id {
        EquipmentTypeId::Weapon => 0,
        EquipmentTypeId::RepairBot => 1,
        EquipmentTypeId::Generator => 2,
        EquipmentTypeId::Battery => 3,
        EquipmentTypeId::Armor => 4,
    }
}

impl EquipmentTypeId {
    /// The integer key under which this kind is stored
    pub fn key(&self) -> (r: u64)
        ensures
            r == equipment_key(*self),
    {
        match self {
            EquipmentTypeId::Weapon => 0,
            EquipmentTypeId::RepairBot => 1,
            EquipmentTypeId::Generator => 2,
            EquipmentTypeId::Battery => 3,
            EquipmentTypeId::Armor => 4,
        }
    }
}

/// The kind stored under key `k`, for the keys in use.
pub open spec fn kind_of_key(k: u64) -> EquipmentTypeId {
    if k == 0 {
        EquipmentTypeId::Weapon
    } else if k == 1 {
        EquipmentTypeId::RepairBot
    } else if k == 2 {
        EquipmentTypeId::Generator
    } else if k == 3 {
        EquipmentTypeId::Battery
    } else {
        EquipmentTypeId::Armor
    }
}

/// Turn a key in use back into its kind
fn kind_from_key(k: u64) -> (r: EquipmentTypeId)
    requires
        k < 5,
    ensures
        r == kind_of_key(k),
        equipment_key(r) == k,
{
    if k == 0 {
        EquipmentTypeId::Weapon
    } else if k == 1 {
        EquipmentTypeId::RepairBot
    } else if k == 2 {
        EquipmentTypeId::Generator
    } else if k == 3 {
        EquipmentTypeId::Battery
    } else {
        EquipmentTypeId::Armor
    }
}

/// Distinct kinds are stored under distinct keys.
pub proof fn lemma_equipment_key_injective(a: EquipmentTypeId, b: EquipmentTypeId)
    ensures
        equipment_key(a) == equipment_key(b) <==> a == b,
{
}


/// A copy of a list of ids
fn copy_ids(v: &Vec<u64>) -> (r: Vec<u64>)
    ensures
        r@ == v@,
{
    let mut out: Vec<u64> = Vec::new();
    let mut i: usize = 0;
    while i < v.len()
        invariant
            0 <= i <= v@.len(),
            out@ == v@.take(i as int),
        decreases v@.len() - i,
    {
        out.push(v[i]);
        proof {
            assert(v@.take(i + 1) =~= v@.take(i as int).push(v@[i as int]));
        }
        i = i + 1;
    }
    proof {
        assert(v@.take(v@.len() as int) =~= v@);
    }
    out
}

/// The slot shape given by a list of (kind, count) pairs, where a later pair for
/// a kind replaces an earlier one.
pub open spec fn slot_map(slots: Seq<(EquipmentTypeId, usize)>) -> Map<u64, usize>
    decreases slots.len(),
{
    if slots.len() == 0 {
        Map::empty()
    } else {
        slot_map(slots.drop_last()).insert(equipment_key(slots.last().0), slots.last().1)
    }
}

/// Every key of the slot shape belongs to a kind.
proof fn lemma_slot_map_keys(slots: Seq<(EquipmentTypeId, usize)>)
    ensures
        forall|k: u64| #[trigger] slot_map(slots).contains_key(k) ==> k < 5,
    decreases slots.len(),
{
    if slots.len() > 0 {
        lemma_slot_map_keys(slots.drop_last());
        let last = equipment_key(slots.last().0);
        assert(last < 5);
        assert forall|k: u64| #[trigger] slot_map(slots).contains_key(k) implies k < 5 by {
            if k != last {
                assert(slot_map(slots.drop_last()).contains_key(k));
            }
        }
    }
}

/// The equipment attached to an entity: the equipped entities of each kind,
/// and how many of each kind can be equipped at once.
pub struct Equipped {
    /// Kind keys mapped to the equipped entities of that kind
    equipped: GroupMap,
    /// Kind keys mapped to the total equippable of that kind
    slots: CountMap,
}

impl Equipped {
    /// Only the keys of equipment kinds are in use, and each kind has finitely
    /// many entities equipped.
    #[verifier::type_invariant]
    spec fn keys_are_kinds(self) -> bool {
        &&& forall|k: u64| #[trigger] count_map_contents(self.slots).contains_key(k) ==> k < 5
        &&& forall|k: u64| #[trigger] group_map_contents(self.equipped).contains_key(k) ==> k < 5
        &&& forall|k: u64|
            #[trigger] group_map_contents(self.equipped).contains_key(k) ==> group_map_contents(
                self.equipped,
            )[k].finite()
    }

    /// Kind keys mapped to the total equippable of that kind
    pub closed spec fn slot_counts(self) -> Map<u64, usize> {
        count_map_contents(self.slots)
    }

    /// Kind keys mapped to the entities equipped as that kind
    pub closed spec fn groups(self) -> Map<u64, Set<u64>> {
        group_map_contents(self.equipped)
    }

    /// How many of `kind` can be equipped at once
    pub open spec fn capacity_of(self, kind: EquipmentTypeId) -> nat {
        count_in(self.slot_counts(), equipment_key(kind))
    }

    /// The entities equipped as `kind`
    pub open spec fn equipped_as(self, kind: EquipmentTypeId) -> Set<u64> {
        if self.groups().contains_key(equipment_key(kind)) {
            self.groups()[equipment_key(kind)]
        } else {
            Set::empty()
        }
    }

    /// Nothing equipped, with the given slot shape
    pub fn with_slots(slots: &Vec<(EquipmentTypeId, usize)>) -> (r: Self)
        ensures
            r.groups() == Map::<u64, Set<u64>>::empty(),
            r.slot_counts() == slot_map(slots@),
    {
        let mut counts = CountMap::new();
        let mut i: usize = 0;
        while i < slots.len()
            invariant
                0 <= i <= slots@.len(),
                count_map_contents(counts) == slot_map(slots@.take(i as int)),
            decreases slots@.len() - i,
        {
            let (kind, n) = slots[i];
            counts.insert(kind.key(), n);
            proof {
                assert(slots@.take(i + 1).drop_last() =~= slots@.take(i as int));
            }
            i = i + 1;
        }
        proof {
            assert(slots@.take(slots@.len() as int) =~= slots@);
            lemma_slot_map_keys(slots@);
        }
        Equipped { equipped: GroupMap::new(), slots: counts }
    }

    /// Every kind with entities registered, and those entities, each once
    pub fn iter(&self) -> (r: Vec<(EquipmentTypeId, Vec<u64>)>)
        ensures
            r@.len() == self.groups().dom().len(),
            forall|i: int|
                0 <= i < r@.len() ==> #[trigger] self.groups().contains_key(
                    equipment_key(r@[i].0),
                ) && r@[i].1@.to_set() == self.groups()[equipment_key(r@[i].0)]
                    && r@[i].1@.no_duplicates(),
            forall|i: int, j: int| 0 <= i < r@.len() && 0 <= j < r@.len() && i != j ==> r@[i].0 != r@[j].0,
            forall|kind: EquipmentTypeId|
                self.groups().contains_key(#[trigger] equipment_key(kind)) ==> exists|i: int|
                    0 <= i < r@.len() && r@[i].0 == kind,
    {
        proof {
            use_type_invariant(self);
        }
        let groups = self.equipped.groups();
        let mut out: Vec<(EquipmentTypeId, Vec<u64>)> = Vec::new();
        let mut i: usize = 0;
        while i < groups.len()
            invariant
                0 <= i <= groups@.len(),
                crate::collections::lists_groups(groups@, self.groups()),
                forall|k: u64| #[trigger] self.groups().contains_key(k) ==> k < 5,
                out@.len() == i,
                forall|j: int| 0 <= j < i ==> equipment_key(#[trigger] out@[j].0) == groups@[j].0
                    && out@[j].1@ == groups@[j].1@,
            decreases groups@.len() - i,
        {
            let (k, members) = &groups[i];
            assert(self.groups().contains_key(groups@[i as int].0));
            let kind = kind_from_key(*k);
            out.push((kind, copy_ids(members)));
            i = i + 1;
        }
        proof {
            assert forall|a: int, b: int| 0 <= a < out@.len() && 0 <= b < out@.len() && a != b implies out@[a].0 != out@[b].0 by {
                lemma_equipment_key_injective(out@[a].0, out@[b].0);
            }
            assert forall|kind: EquipmentTypeId|
                self.groups().contains_key(#[trigger] equipment_key(kind)) implies exists|i: int|
                    0 <= i < out@.len() && out@[i].0 == kind by {
                let i = choose|i: int| 0 <= i < groups@.len() && #[trigger] groups@[i].0 == equipment_key(kind);
                lemma_equipment_key_injective(out@[i].0, kind);
            }
        }
        out
    }

    /// The entities equipped as `kind`, each once
    pub fn members(&self, kind: &EquipmentTypeId) -> (r: Vec<u64>)
        ensures
            r@.to_set() == self.equipped_as(*kind),
            r@.no_duplicates(),
    {
        match self.equipped.members(kind.key()) {
            Some(v) => v,
            None => {
                let v: Vec<u64> = Vec::new();
                proof {
                    assert(v@.to_set() =~= Set::<u64>::empty());
                }
                v
            },
        }
    }

    /// Total space for `equipment_type`
    pub fn capacity(&self, equipment_type: &EquipmentTypeId) -> (r: usize)
        ensures
            r == self.capacity_of(*equipment_type),
    {
        match self.slots.get(equipment_type.key()) {
            Some(n) => n,
            None => 0,
        }
    }

    /// Slots of `equipment_type` left free
    pub fn slots_remaining(&self, equipment_type: &EquipmentTypeId) -> (r: usize)
        requires
            self.equipped_as(*equipment_type).len() <= self.capacity_of(*equipment_type),
        ensures
            r == self.capacity_of(*equipment_type) - self.equipped_as(*equipment_type).len(),
    {
        proof {
            use_type_invariant(self);
        }
        let max = self.capacity(equipment_type);
        let current = match self.equipped.group_len(equipment_type.key()) {
            Some(n) => n,
            None => 0,
        };
        max - current
    }

    /// Record `entity` as equipped as `kind`
    pub fn register(&mut self, kind: &EquipmentTypeId, entity: u64)
        ensures
            final(self).slot_counts() == old(self).slot_counts(),
            final(self).groups() == old(self).groups().insert(
                equipment_key(*kind),
                old(self).equipped_as(*kind).insert(entity),
            ),
    {
        proof {
            use_type_invariant(&*self);
        }
        let mut equipped = GroupMap::new();
        std::mem::swap(&mut equipped, &mut self.equipped);
        equipped.add_member(kind.key(), entity);
        proof {
            assert(group_map_contents(equipped) == old(self).groups().insert(
                equipment_key(*kind),
                old(self).equipped_as(*kind).insert(entity),
            ));
        }
        self.equipped = equipped;
    }

    /// Record that `entity` is no longer equipped as `kind`, whose entities are
    /// already recorded
    pub fn unregister(&mut self, kind: &EquipmentTypeId, entity: u64)
        requires
            old(self).groups().contains_key(equipment_key(*kind)),
        ensures
            final(self).slot_counts() == old(self).slot_counts(),
            final(self).groups() == old(self).groups().insert(
                equipment_key(*kind),
                old(self).equipped_as(*kind).remove(entity),
            ),
    {
        proof {
            use_type_invariant(&*self);
        }
        let mut equipped = GroupMap::new();
        std::mem::swap(&mut equipped, &mut self.equipped);
        equipped.remove_member(kind.key(), entity);
        self.equipped = equipped;
    }

    /// The slot shape, each kind once
    pub fn slots(&self) -> (r: Vec<(EquipmentTypeId, usize)>)
        ensures
            r@.len() == self.slot_counts().dom().len(),
            forall|i: int| 0 <= i < r@.len() ==> #[trigger] self.slot_counts().contains_key(equipment_key(r@[i].0))
                && self.slot_counts()[equipment_key(r@[i].0)] == r@[i].1,
            forall|k: u64|
                #[trigger] self.slot_counts().contains_key(k) ==> exists|i: int|
                    0 <= i < r@.len() && equipment_key(r@[i].0) == k,
    {
        proof {
            use_type_invariant(self);
        }
        let entries = self.slots.entries();
        let mut out: Vec<(EquipmentTypeId, usize)> = Vec::new();
        let mut i: usize = 0;
        while i < entries.len()
            invariant
                0 <= i <= entries@.len(),
                crate::collections::lists_entries(entries@, self.slot_counts()),
                forall|k: u64| #[trigger] self.slot_counts().contains_key(k) ==> k < 5,
                out@.len() == i,
                forall|j: int| 0 <= j < i ==> equipment_key(#[trigger] out@[j].0) == entries@[j].0
                    && out@[j].1 == entries@[j].1,
            decreases entries@.len() - i,
        {
            let (k, n) = entries[i];
            assert(self.slot_counts().contains_key(entries@[i as int].0));
            let kind = kind_from_key(k);
            out.push((kind, n));
            i = i + 1;
        }
        proof {
            assert forall|k: u64|
                #[trigger] self.slot_counts().contains_key(k) implies exists|i: int|
                    0 <= i < out@.len() && equipment_key(out@[i].0) == k by {
                let i = choose|i: int| 0 <= i < entries@.len() && #[trigger] entries@[i].0 == k;
                assert(equipment_key(out@[i].0) == k);
            }
        }
        out
    }
}

impl Default for Equipped {
    fn default() -> (r: Self)
        ensures
            r.groups() == Map::<u64, Set<u64>>::empty(),
            r.slot_counts() == Map::<u64, usize>::empty(),
    {
        Equipped { equipped: GroupMap::new(), slots: CountMap::new() }
    }
}

impl Clone for Equipped {
    fn clone(&self) -> (r: Self)
        ensures
            r.groups() == self.groups(),
            r.slot_counts() == self.slot_counts(),
    {
        proof {
            use_type_invariant(self);
        }
        Equipped { equipped: self.equipped.duplicate(), slots: self.slots.duplicate() }
    }
}

/// Equip one `item`, whose asset is `retrieved`, on an entity with `equipped`
/// attached: refused when no slot of its kind is free; otherwise, when
/// `transfer_from_inventory` is set, one is taken out of `inventory` first.
/// `inventory` is left alone when `transfer_from_inventory` is not set.
pub fn equip(
    equipped: &Equipped,
    retrieved: &Item,
    inventory: &mut Inventory,
    item: u64,
    transfer_from_inventory: bool,
) -> (r: Result<(), EquipmentError>)
    requires
        retrieved.equipment is Some,
        equipped.equipped_as(retrieved.equipment->0).len() <= equipped.capacity_of(
            retrieved.equipment->0,
        ),
        transfer_from_inventory ==> old(inventory).can_remove(item, retrieved.size as nat, 1),
    ensures
        final(inventory).cap() == old(inventory).cap(),
        ({
            let kind = retrieved.equipment->0;
            let free = equipped.capacity_of(kind) - equipped.equipped_as(kind).len();
            &&& free == 0 ==> r == Err::<(), EquipmentError>(EquipmentError::SlotNotAvailable)
            &&& free != 0 && transfer_from_inventory && !old(inventory).holds(item, 1) ==> r
                == Err::<(), EquipmentError>(
                EquipmentError::InventoryError(
                    InventoryError::InsufficientItems {
                        want_to_remove: 1,
                        exists: old(inventory).count_of(item) as usize,
                    },
                ),
            )
            &&& free != 0 && (!transfer_from_inventory || old(inventory).holds(item, 1)) ==> r is Ok
            &&& (r is Ok && transfer_from_inventory) ==> final(inventory).occupied() == old(inventory).occupied() - retrieved.size && final(inventory).counts() == with_removed(
                old(inventory).counts(),
                item,
                1,
            )
            &&& (r is Err || !transfer_from_inventory) ==> final(inventory).occupied() == old(inventory).occupied() && final(inventory).counts() == old(inventory).counts()
        }),
{
    proof {
        use_type_invariant(equipped);
    }
    let kind = match &retrieved.equipment {
        Some(k) => *k,
        None => {
            return Err(EquipmentError::SlotNotAvailable);
        },
    };
    // Test that there is a slot available
    if equipped.slots_remaining(&kind) != 0 {
        if transfer_from_inventory {
            // Remove the item from the inventory
            match inventory.remove(item, retrieved.size, 1) {
                Ok(()) => {},
                Err(e) => {
                    return Err(EquipmentError::InventoryError(e));
                },
            }
        }
        Ok(())
    } else {
        Err(EquipmentError::SlotNotAvailable)
    }
}

/// Put one unequipped `item` back into `inventory`, where `retrieved` is the
/// item's asset, if it was found
pub fn unequip_into_inventory(inventory: &mut Inventory, item: u64, retrieved: Option<&Item>) -> (r:
    Result<(), EquipmentError>)
    requires
        retrieved matches Some(it) ==> old(inventory).can_add(item, it.size as nat, 1),
    ensures
        final(inventory).cap() == old(inventory).cap(),
        retrieved is None ==> r == Err::<(), EquipmentError>(
            EquipmentError::InventoryError(InventoryError::ItemNotFound),
        ),
        retrieved is Some && !old(inventory).fits(retrieved->0.size as nat, 1) ==> r == Err::<
            (),
            EquipmentError,
        >(
            EquipmentError::InventoryError(
                InventoryError::NoSpaceLeft {
                    overage: (old(inventory).occupied() + retrieved->0.size - old(inventory).cap()) as usize,
                },
            ),
        ),
        retrieved is Some && old(inventory).fits(retrieved->0.size as nat, 1) ==> r is Ok
            && final(inventory).occupied() == old(inventory).occupied() + retrieved->0.size
            && final(inventory).counts() == with_added(old(inventory).counts(), item, 1),
        r is Err ==> final(inventory).occupied() == old(inventory).occupied() && final(inventory).counts() == old(inventory).counts(),
{
    let retrieved_item = match retrieved {
        Some(it) => it,
        None => {
            return Err(EquipmentError::InventoryError(InventoryError::ItemNotFound));
        },
    };
    match inventory.add(item, retrieved_item.size, 1) {
        Ok(()) => Ok(()),
        Err(e) => Err(EquipmentError::InventoryError(e)),
    }
}

/// Build an `Equipped` with starting items
#[derive(Debug, Clone, Default)]
pub struct EquippedBuilder {
    /// Names of items to equip
    pub equipped: Vec<String>,
    /// Slot shape definitions
    pub slots: Vec<(EquipmentTypeId, usize)>,
}

impl EquippedBuilder {
    /// Build the `Equipped` that this describes: its slots, with nothing
    /// equipped yet, and the handles of the items to equip, in order, each
    /// found in `library` under its name, which it must hold
    pub fn build(&self, library: &ItemLibrary) -> (r: (Equipped, Vec<u64>))
        requires
            forall|i: int|
                0 <= i < self.equipped@.len() ==> #[trigger] library.find(
                    item_key(self.equipped@[i]@),
                ) is Some,
        ensures
            r.0.groups() == Map::<u64, Set<u64>>::empty(),
            r.0.slot_counts() == slot_map(self.slots@),
            r.1@.len() == self.equipped@.len(),
            forall|i: int|
                0 <= i < self.equipped@.len() ==> Some(#[trigger] r.1@[i]) == library.find(
                    item_key(self.equipped@[i]@),
                ),
    {
        let equipped = Equipped::with_slots(&self.slots);
        let mut handles: Vec<u64> = Vec::new();
        let mut i: usize = 0;
        while i < self.equipped.len()
            invariant
                0 <= i <= self.equipped@.len(),
                forall|j: int|
                    0 <= j < self.equipped@.len() ==> #[trigger] library.find(
                        item_key(self.equipped@[j]@),
                    ) is Some,
                handles@.len() == i,
                forall|j: int|
                    0 <= j < i ==> Some(#[trigger] handles@[j]) == library.find(
                        item_key(self.equipped@[j]@),
                    ),
            decreases self.equipped@.len() - i,
        {
            assert(library.find(item_key(self.equipped@[i as int]@)) is Some);
            let handle = library.item(self.equipped[i].as_str()).unwrap();
            handles.push(handle);
            i = i + 1;
        }
        (equipped, handles)
    }
}

/// Registering an entity that is not equipped as some kind and then
/// unregistering it leaves what is equipped as every kind as it was.
pub proof fn lemma_register_then_unregister(
    before: Equipped,
    registered: Equipped,
    after: Equipped,
    kind: EquipmentTypeId,
    entity: u64,
)
    requires
        !before.equipped_as(kind).contains(entity),
        registered.groups() == before.groups().insert(
            equipment_key(kind),
            before.equipped_as(kind).insert(entity),
        ),
        after.groups() == registered.groups().insert(
            equipment_key(kind),
            registered.equipped_as(kind).remove(entity),
        ),
    ensures
        forall|other: EquipmentTypeId| #[trigger] after.equipped_as(other) == before.equipped_as(other),
{
    assert forall|other: EquipmentTypeId| #[trigger] after.equipped_as(other) == before.equipped_as(other) by {
        lemma_equipment_key_injective(other, kind);
        if other == kind {
            assert(before.equipped_as(kind).insert(entity).remove(entity) =~= before.equipped_as(kind));
        }
    }
}

} // verus!

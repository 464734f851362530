//! Setting up a new game and writing the state of a saved one

use vstd::prelude::*;

use crate::items::equipment::{equipment_key, slot_map, Equipped, EquippedBuilder};
use crate::items::EquipmentTypeId;
use crate::items::assets::ItemLibrary;
use crate::items::inventory::item_key;
use crate::text::{
    free_of, item_name_from_path, item_name_of_path, lemma_item_name_of_key, save_file_name,
    random_word_in, save_name, word_list, WordLanguage,
};

verus! {

/// The names of the items the player starts a new game with
pub open spec fn new_game_items() -> Seq<Seq<char>> {
    seq![
        "minireactor.generator"@,
        "light_laser.weapon"@,
        "autoweld.repair"@,
        "ion.battery"@,
        "ion.battery"@,
        "iron.armor"@,
        "iron.armor"@,
    ]
}

/// The slots of the player's craft in a new game
pub open spec fn new_game_slots() -> Seq<(EquipmentTypeId, usize)> {
    seq![
        (EquipmentTypeId::Weapon, 1usize),
        (EquipmentTypeId::RepairBot, 1usize),
        (EquipmentTypeId::Generator, 1usize),
        (EquipmentTypeId::Battery, 3usize),
        (EquipmentTypeId::Armor, 3usize),
    ]
}

/// The equipment the player starts a new game with: a generator, a light
/// laser, a repair bot, two batteries and two armor plates, in one weapon, one
/// repair bot, one generator, three battery and three armor slots
pub fn new_game_loadout() -> (r: EquippedBuilder)
    ensures
        r.equipped@.len() == 7,
        forall|i: int| 0 <= i < 7 ==> #[trigger] r.equipped@[i]@ == new_game_items()[i],
        r.slots@ == new_game_slots(),
{
    let mut equipped: Vec<String> = Vec::new();
    equipped.push(String::from_str("minireactor.generator"));
    equipped.push(String::from_str("light_laser.weapon"));
    equipped.push(String::from_str("autoweld.repair"));
    equipped.push(String::from_str("ion.battery"));
    equipped.push(String::from_str("ion.battery"));
    equipped.push(String::from_str("iron.armor"));
    equipped.push(String::from_str("iron.armor"));
    let mut slots: Vec<(EquipmentTypeId, usize)> = Vec::new();
    slots.push((EquipmentTypeId::Weapon, 1));
    slots.push((EquipmentTypeId::RepairBot, 1));
    slots.push((EquipmentTypeId::Generator, 1));
    slots.push((EquipmentTypeId::Battery, 3));
    slots.push((EquipmentTypeId::Armor, 3));
    proof {
        assert(slots@ =~= new_game_slots());
    }
    EquippedBuilder { equipped, slots }
}

/// The name an equipped item is saved under: its asset path without the
/// `items/` directory and the `.ron` extension.
pub open spec fn saved_item_name(library: ItemLibrary, handle: u64) -> Seq<char> {
    item_name_of_path(library.path_of(handle)->0)
}

/// The builder a save records for `equipped`, whose equipped items have the
/// handles `item_handles`: each item by the name of the asset path it was
/// loaded from, and the same slot shape
pub fn save_equipped(equipped: &Equipped, item_handles: &Vec<u64>, library: &ItemLibrary) -> (r:
    EquippedBuilder)
    requires
        forall|i: int|
            0 <= i < item_handles@.len() ==> #[trigger] library.path_of(item_handles@[i]) is Some,
    ensures
        r.equipped@.len() == item_handles@.len(),
        forall|i: int|
            0 <= i < item_handles@.len() ==> #[trigger] r.equipped@[i]@ == saved_item_name(
                *library,
                item_handles@[i],
            ),
        r.slots@.len() == equipped.slot_counts().dom().len(),
        forall|i: int|
            0 <= i < r.slots@.len() ==> #[trigger] equipped.slot_counts().contains_key(
                equipment_key(r.slots@[i].0),
            ) && equipped.slot_counts()[equipment_key(r.slots@[i].0)] == r.slots@[i].1,
        forall|k: u64|
            #[trigger] equipped.slot_counts().contains_key(k) ==> exists|i: int|
                0 <= i < r.slots@.len() && equipment_key(r.slots@[i].0) == k,
{
    let mut names: Vec<String> = Vec::new();
    let mut i: usize = 0;
    while i < item_handles.len()
        invariant
            0 <= i <= item_handles@.len(),
            forall|j: int|
                0 <= j < item_handles@.len() ==> #[trigger] library.path_of(item_handles@[j]) is Some,
            names@.len() == i,
            forall|j: int|
                0 <= j < i ==> #[trigger] names@[j]@ == saved_item_name(*library, item_handles@[j]),
        decreases item_handles@.len() - i,
    {
        assert(library.path_of(item_handles@[i as int]) is Some);
        let path = library.path(item_handles[i]).unwrap();
        names.push(item_name_from_path(path.as_str()));
        i = i + 1;
    }
    EquippedBuilder { equipped: names, slots: equipped.slots() }
}

/// Item `handle` is found again under the name it is saved by.
pub open spec fn loaded_by_name(library: ItemLibrary, handle: u64) -> bool {
    library.find(item_key(saved_item_name(library, handle))) == Some(handle)
}

/// An item loaded from `items/<name>.ron`, for a name in which neither
/// `items/` nor `.ron` occurs, is saved by that name and found again under it.
pub proof fn lemma_saved_item_name_round_trip(library: ItemLibrary, handle: u64, name: Seq<char>)
    requires
        library.path_of(handle) == Some(item_key(name)),
        library.find(item_key(name)) == Some(handle),
        free_of(name, "items/"@),
        free_of(name, ".ron"@),
    ensures
        saved_item_name(library, handle) == name,
        loaded_by_name(library, handle),
{
    lemma_item_name_of_key(name);
    assert(item_key(name) == "items/"@ + name + ".ron"@);
}

/// The slot shape of the first `n` listed slots holds the counts of their kinds.
proof fn lemma_slot_map_prefix(slots: Seq<(EquipmentTypeId, usize)>, m: Map<u64, usize>, n: int)
    requires
        0 <= n <= slots.len(),
        forall|i: int|
            0 <= i < slots.len() ==> #[trigger] m.contains_key(equipment_key(slots[i].0))
                && m[equipment_key(slots[i].0)] == slots[i].1,
    ensures
        slot_map(slots.take(n)) == Map::new(
            |k: u64| exists|i: int| 0 <= i < n && #[trigger] equipment_key(slots[i].0) == k,
            |k: u64| m[k],
        ),
    decreases n,
{
    let target = Map::new(
        |k: u64| exists|i: int| 0 <= i < n && #[trigger] equipment_key(slots[i].0) == k,
        |k: u64| m[k],
    );
    if n == 0 {
        assert(slot_map(slots.take(0)) =~= target);
    } else {
        lemma_slot_map_prefix(slots, m, n - 1);
        let before = Map::new(
            |k: u64| exists|i: int| 0 <= i < n - 1 && #[trigger] equipment_key(slots[i].0) == k,
            |k: u64| m[k],
        );
        let key = equipment_key(slots[n - 1].0);
        assert(slots.take(n).drop_last() =~= slots.take(n - 1));
        assert(slots.take(n).last() == slots[n - 1]);
        assert(slot_map(slots.take(n)) == before.insert(key, slots[n - 1].1));
        assert(m.contains_key(key) && m[key] == slots[n - 1].1);
        assert forall|k: u64| #[trigger] target.contains_key(k) <==> before.insert(key, slots[n - 1].1).contains_key(k) by {
            if target.contains_key(k) && k != key {
                let i = choose|i: int| 0 <= i < n && #[trigger] equipment_key(slots[i].0) == k;
                assert(i != n - 1);
                assert(before.contains_key(k));
            }
            if before.contains_key(k) {
                let i = choose|i: int| 0 <= i < n - 1 && #[trigger] equipment_key(slots[i].0) == k;
                assert(target.contains_key(k));
            }
            if k == key {
                assert(target.contains_key(k));
            }
        }
        assert(slot_map(slots.take(n)) =~= target);
    }
}

/// Equipment saved by item name and built again has the same slot shape and
/// the same items, when each equipped item is found again under the name it
/// is saved by.
#[verifier::spinoff_prover]
pub proof fn lemma_equipment_round_trip(
    equipped: Equipped,
    item_handles: Seq<u64>,
    saved: EquippedBuilder,
    library: ItemLibrary,
)
    requires
        forall|i: int| 0 <= i < item_handles.len() ==> #[trigger] loaded_by_name(library, item_handles[i]),
        saved.equipped@.len() == item_handles.len(),
        forall|i: int|
            0 <= i < item_handles.len() ==> #[trigger] saved.equipped@[i]@ == saved_item_name(
                library,
                item_handles[i],
            ),
        forall|i: int|
            0 <= i < saved.slots@.len() ==> #[trigger] equipped.slot_counts().contains_key(
                equipment_key(saved.slots@[i].0),
            ) && equipped.slot_counts()[equipment_key(saved.slots@[i].0)] == saved.slots@[i].1,
        forall|k: u64|
            #[trigger] equipped.slot_counts().contains_key(k) ==> exists|i: int|
                0 <= i < saved.slots@.len() && equipment_key(saved.slots@[i].0) == k,
    ensures
        slot_map(saved.slots@) == equipped.slot_counts(),
        forall|i: int|
            0 <= i < item_handles.len() ==> library.find(item_key(#[trigger] saved.equipped@[i]@))
                == Some(item_handles[i]),
{
    let slots = saved.slots@;
    let m = equipped.slot_counts();
    assert forall|i: int| 0 <= i < slots.len() implies #[trigger] m.contains_key(
        equipment_key(slots[i].0),
    ) && m[equipment_key(slots[i].0)] == slots[i].1 by {
        assert(slots[i] == saved.slots@[i]);
        assert(m.contains_key(equipment_key(slots[i].0)));
        assert(m[equipment_key(slots[i].0)] == slots[i].1);
    }
    lemma_slot_map_prefix(slots, m, slots.len() as int);
    assert(slots.take(slots.len() as int) =~= slots);
    let target = Map::new(
        |k: u64| exists|i: int| 0 <= i < slots.len() && #[trigger] equipment_key(slots[i].0) == k,
        |k: u64| m[k],
    );
    assert forall|k: u64| #[trigger] target.contains_key(k) <==> m.contains_key(k) by {
        if target.contains_key(k) {
            let i = choose|i: int| 0 <= i < slots.len() && #[trigger] equipment_key(slots[i].0) == k;
            assert(m.contains_key(equipment_key(slots[i].0)));
        }
        if m.contains_key(k) {
            let i = choose|i: int| 0 <= i < slots.len() && equipment_key(slots[i].0) == k;
            assert(equipment_key(slots[i].0) == k);
        }
    }
    assert(target =~= m);
    assert forall|i: int| 0 <= i < item_handles.len() implies library.find(
        item_key(#[trigger] saved.equipped@[i]@),
    ) == Some(item_handles[i]) by {
        let h = item_handles[i];
        assert(loaded_by_name(library, h));
    }
}

/// The file name of a new save: two English words chosen at random, joined
/// as `<first>-<second>.save.ron`
pub fn new_save_name() -> (r: String)
    ensures
        exists|first: Seq<char>, second: Seq<char>|
            #![trigger save_name(first, second)]
            word_list(WordLanguage::English).contains(first) && word_list(
                WordLanguage::English,
            ).contains(second) && r@ == save_name(first, second),
{
    let first = random_word_in(WordLanguage::English);
    let second = random_word_in(WordLanguage::English);
    save_file_name(first, second)
}

} // verus!

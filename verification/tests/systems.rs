use qz::error::InventoryError;
use qz::input::{interact, DockEvent};
use qz::items::equipment::Equipped;
use qz::items::{DropRate, Drops, EquipmentTypeId, Item, ItemAssets};
use qz::spawner::{below_maximum, choose_spawn, spawned_count};
use qz::state::{new_game_loadout, save_equipped};
use qz::items::assets::ItemLibrary;
use qz::items::drop::fill_chest;
use qz::items::inventory::toss_overboard;
use qz::items::{DropsBuilder, Inventory};
use qz::text::{file_stem, item_name_from_path, replace_all, save_file_name};
use qz::weapons::{laser_command, laser_state, LaserCommand, WeaponState};

#[test]
fn laser_states() {
    assert_eq!(laser_state(true, true, true, true, true), WeaponState::Overheated);
    assert_eq!(laser_state(false, true, true, true, true), WeaponState::Firing);
    assert_eq!(laser_state(false, true, false, true, true), WeaponState::StartFiring);
    assert_eq!(laser_state(false, true, true, false, true), WeaponState::StartFiring);
    assert_eq!(laser_state(false, true, false, false, false), WeaponState::Off);
    assert_eq!(laser_state(false, false, true, true, true), WeaponState::Off);
}

#[test]
fn laser_commands() {
    assert_eq!(
        laser_command(WeaponState::StartFiring, false),
        LaserCommand { despawn_lasers: false, consume_energy: true, spawn_laser: true, heating: true }
    );
    assert_eq!(
        laser_command(WeaponState::Firing, true),
        LaserCommand { despawn_lasers: false, consume_energy: true, spawn_laser: false, heating: true }
    );
    assert_eq!(
        laser_command(WeaponState::Overheated, false),
        LaserCommand { despawn_lasers: true, consume_energy: false, spawn_laser: false, heating: false }
    );
    assert_eq!(laser_command(WeaponState::Off, true).despawn_lasers, true);
    assert_eq!(laser_command(WeaponState::Off, false).despawn_lasers, false);
}

#[test]
fn docking_interaction() {
    assert_eq!(interact(5, true, Some(9)), Some(DockEvent::Undock { to_undock: 5 }));
    assert_eq!(interact(5, false, Some(9)), Some(DockEvent::Dock { to_dock: 5, dock: 9 }));
    assert_eq!(interact(5, false, None), None);
}

#[test]
fn spawner_counts() {
    assert_eq!(spawned_count(&vec![1, 2, 1, 3, 1], 1), 3);
    assert_eq!(spawned_count(&vec![], 1), 0);
    assert!(below_maximum(2, 3));
    assert!(!below_maximum(3, 3));
}

#[test]
fn certain_spawn_is_chosen() {
    let spawns = vec![("drone".to_string(), 1usize)];
    assert_eq!(choose_spawn(&spawns), Some("drone".to_string()));
    assert_eq!(choose_spawn(&vec![]), None);
    let pick = choose_spawn(&vec![("a".to_string(), 1), ("b".to_string(), 1)]).unwrap();
    assert!(pick == "a" || pick == "b");
}

#[test]
fn text_replacement() {
    assert_eq!(replace_all("a-b-c", "-", "+"), "a+b+c");
    assert_eq!(replace_all("aaa", "aa", "b"), "ba");
    assert_eq!(replace_all("", "x", "y"), "");
    assert_eq!(item_name_from_path("items/iron.ron"), "iron");
    assert_eq!(item_name_from_path("light_laser.weapon"), "light_laser.weapon");
    assert_eq!(save_file_name("red", "fox"), "red-fox.save.ron");
}

#[test]
fn new_game_loadout_contents() {
    let b = new_game_loadout();
    assert_eq!(
        b.equipped,
        vec![
            "minireactor.generator",
            "light_laser.weapon",
            "autoweld.repair",
            "ion.battery",
            "ion.battery",
            "iron.armor",
            "iron.armor"
        ]
    );
    assert_eq!(
        b.slots,
        vec![
            (EquipmentTypeId::Weapon, 1),
            (EquipmentTypeId::RepairBot, 1),
            (EquipmentTypeId::Generator, 1),
            (EquipmentTypeId::Battery, 3),
            (EquipmentTypeId::Armor, 3)
        ]
    );
}

#[test]
fn saving_equipment() {
    let eq = Equipped::with_slots(&vec![(EquipmentTypeId::Armor, 2)]);
    let mut lib = ItemLibrary::new();
    lib.insert("items/iron.armor.ron".to_string(), 5);
    let b = save_equipped(&eq, &vec![5, 5], &lib);
    assert_eq!(b.equipped, vec!["iron.armor".to_string(), "iron.armor".to_string()]);
    assert_eq!(b.slots, vec![(EquipmentTypeId::Armor, 2)]);
    // built again, the same items and slots come back
    let (again, handles) = b.build(&lib);
    assert_eq!(handles, vec![5, 5]);
    assert_eq!(again.capacity(&EquipmentTypeId::Armor), 2);
}

#[test]
fn certain_drops_are_rolled() {
    let mut assets = ItemAssets::new();
    assets.insert(1, Item { name: "scrap".to_string(), size: 1, value: 1, equipment: None });
    let mut drops = Drops::new();
    drops.insert(1, DropRate { min: 2, max: 2, d: 1 });
    let inv = drops.roll(&assets).unwrap();
    assert_eq!(inv.count(1), 2);
    assert_eq!(inv.capacity(), 64);

    let mut missing = Drops::new();
    missing.insert(5, DropRate { min: 1, max: 1, d: 1 });
    assert_eq!(missing.roll(&assets).err(), Some(InventoryError::ItemNotFound));

    let mut big = Drops::new();
    big.insert(1, DropRate { min: 65, max: 65, d: 1 });
    assert_eq!(big.roll(&assets).err(), Some(InventoryError::NoSpaceLeft { overage: 1 }));
}

#[test]
fn file_stems() {
    assert_eq!(file_stem("items/iron.ron"), Some("iron".to_string()));
    assert_eq!(file_stem("items/iron.armor.ron"), Some("iron.armor".to_string()));
    assert_eq!(file_stem("a/.hidden"), Some(".hidden".to_string()));
    assert_eq!(file_stem("noext"), Some("noext".to_string()));
    assert_eq!(file_stem("dir/file.ron/."), Some("file".to_string()));
    assert_eq!(file_stem("dir/sub/"), Some("sub".to_string()));
    assert_eq!(file_stem("a/.."), None);
    assert_eq!(file_stem("/"), None);
    assert_eq!(file_stem(""), None);
}

#[test]
fn drops_by_name() {
    let mut lib = ItemLibrary::new();
    lib.insert("items/scrap.ron".to_string(), 1);
    lib.insert("items/gem.ron".to_string(), 2);
    let rate = |d| DropRate { min: 1, max: 2, d };
    let builder = DropsBuilder(vec![
        ("scrap".to_string(), rate(1)),
        ("dust".to_string(), rate(2)),
        ("gem".to_string(), rate(3)),
        ("scrap".to_string(), rate(4)),
    ]);
    let drops = builder.resolve(&lib);
    let mut entries = drops.entries();
    entries.sort_by_key(|e| e.0);
    assert_eq!(entries, vec![(1, rate(4)), (2, rate(3))]);

    let saved = DropsBuilder::from_output(&drops, &lib);
    let mut names = saved.0.clone();
    names.sort_by(|a, b| a.0.cmp(&b.0));
    assert_eq!(names, vec![("gem".to_string(), rate(3)), ("scrap".to_string(), rate(4))]);
    let loaded = saved.into_output(&lib);
    let mut again = loaded.entries();
    again.sort_by_key(|e| e.0);
    assert_eq!(again, entries);
}

#[test]
fn equipped_builder_builds() {
    let mut lib = ItemLibrary::new();
    lib.insert("items/light_laser.weapon.ron".to_string(), 8);
    lib.insert("items/iron.armor.ron".to_string(), 9);
    let b = qz::items::equipment::EquippedBuilder {
        equipped: vec!["iron.armor".to_string(), "light_laser.weapon".to_string()],
        slots: vec![(EquipmentTypeId::Armor, 2), (EquipmentTypeId::Weapon, 1)],
    };
    let (eq, handles) = b.build(&lib);
    assert_eq!(handles, vec![9, 8]);
    assert_eq!(eq.capacity(&EquipmentTypeId::Armor), 2);
    assert!(eq.members(&EquipmentTypeId::Armor).is_empty());
    assert_eq!(lib.item("iron.armor"), Some(9));
    assert_eq!(lib.path(8), Some("items/light_laser.weapon.ron".to_string()));
    assert_eq!(lib.path(7), None);
}

#[test]
fn tossing_items_overboard() {
    let crate_item = Item { name: "crate".to_string(), size: 2, value: 3, equipment: None };
    let mut inv = Inventory::with_capacity(10);
    inv.add(4, 2, 3).unwrap();
    let chest = toss_overboard(&mut inv, 4, 2, Some(&crate_item)).unwrap();
    assert_eq!(inv.count(4), 1);
    assert_eq!(inv.space_occupied(), 2);
    assert_eq!(chest.count(4), 2);
    assert_eq!(chest.capacity(), usize::MAX);
    assert_eq!(chest.space_occupied(), 4);
    assert_eq!(
        toss_overboard(&mut inv, 4, 2, Some(&crate_item)).err(),
        Some(InventoryError::InsufficientItems { want_to_remove: 2, exists: 1 })
    );
    assert_eq!(toss_overboard(&mut inv, 4, 1, None).err(), Some(InventoryError::ItemNotFound));
    assert_eq!(inv.count(4), 1);
}

#[test]
fn new_save_names() {
    let name = qz::state::new_save_name();
    assert!(name.ends_with(".save.ron"));
    assert!(name.contains('-'));
    // both words come from the English list
    let stem = name.strip_suffix(".save.ron").unwrap();
    let words: std::collections::HashSet<&str> =
        random_word::all(random_word::Lang::En).iter().copied().collect();
    assert!(words.iter().any(|w| stem
        .strip_prefix(w)
        .and_then(|rest| rest.strip_prefix('-'))
        .map_or(false, |second| words.contains(second))));
}

#[test]
fn filling_a_chest() {
    let mut assets = ItemAssets::new();
    assets.insert(1, Item { name: "scrap".to_string(), size: 2, value: 1, equipment: None });
    assets.insert(2, Item { name: "gem".to_string(), size: 30, value: 1, equipment: None });
    let chest = fill_chest(&vec![(1, 3), (2, 1)], &assets).unwrap();
    assert_eq!(chest.count(1), 3);
    assert_eq!(chest.count(2), 1);
    assert_eq!(chest.space_occupied(), 36);
    assert_eq!(
        fill_chest(&vec![(2, 2), (1, 3)], &assets).err(),
        Some(InventoryError::NoSpaceLeft { overage: 2 })
    );
    assert_eq!(fill_chest(&vec![(3, 1), (2, 9)], &assets).err(), Some(InventoryError::ItemNotFound));
    assert!(fill_chest(&vec![], &assets).unwrap().is_empty());
}

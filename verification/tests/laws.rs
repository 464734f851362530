use bevy_turborand::prelude::GlobalRng;
use qz::ai::planning::{generate_task_registry, Condition, WorldState};
use qz::ai::Requirement;
use qz::input::take_all_credits;
use qz::items::equipment::{equip, unequip_into_inventory, Equipped};
use qz::items::{Credits, EquipmentTypeId, Inventory, Item};
use qz::universe::Universe;

#[test]
fn equipping_and_unequipping_restores_the_inventory() {
    let gun = Item { name: "gun".to_string(), size: 2, value: 9, equipment: Some(EquipmentTypeId::Weapon) };
    let eq = Equipped::with_slots(&vec![(EquipmentTypeId::Weapon, 1)]);
    let mut inv = Inventory::with_capacity(10);
    inv.add(3, 2, 1).unwrap();
    inv.add(4, 1, 5).unwrap();
    let occupied = inv.space_occupied();
    equip(&eq, &gun, &mut inv, 3, true).unwrap();
    assert_eq!(inv.count(3), 0);
    unequip_into_inventory(&mut inv, 3, Some(&gun)).unwrap();
    assert_eq!(inv.count(3), 1);
    assert_eq!(inv.count(4), 5);
    assert_eq!(inv.space_occupied(), occupied);
}

fn reachable_from_first(u: &Universe) -> Vec<bool> {
    let mut seen = vec![false; u.zone_count()];
    let mut stack = vec![0u32];
    seen[0] = true;
    while let Some(z) = stack.pop() {
        for next in u.gate_destinations(z) {
            if !seen[next as usize] {
                seen[next as usize] = true;
                stack.push(next);
            }
        }
    }
    seen
}

#[test]
fn attached_sections_stay_connected() {
    let mut rng = GlobalRng::with_seed(11);
    let mut u = Universe::new();
    u.generate_section(&mut rng, (5, 7), (1, 2));
    u.generate_section(&mut rng, (2, 4), (1, 3));
    u.generate_section(&mut rng, (3, 3), (2, 2));
    assert!(reachable_from_first(&u).into_iter().all(|seen| seen));
}

#[test]
fn single_layer_section_is_left_unattached() {
    let mut rng = GlobalRng::with_seed(5);
    let mut u = Universe::new();
    u.generate_section(&mut rng, (2, 2), (1, 1));
    assert_eq!(u.generate_section(&mut rng, (1, 1), (1, 1)), Some(2));
    assert!(u.gate_destinations(2).is_empty());
    assert_eq!(u.end(), vec![1]);
}

fn apply(state: &mut WorldState, effects: &[Condition]) {
    for c in effects {
        match c.requirement {
            Requirement::EnemiesInView => state.enemies_in_view = c.value,
            Requirement::TargetInWeaponsRange => state.target_in_weapons_range = c.value,
            Requirement::TargetDestroyed => state.target_destroyed = c.value,
        }
    }
}

fn satisfies(state: &WorldState, conditions: &[Condition]) -> bool {
    conditions.iter().all(|c| match c.requirement {
        Requirement::EnemiesInView => state.enemies_in_view == c.value,
        Requirement::TargetInWeaponsRange => state.target_in_weapons_range == c.value,
        Requirement::TargetDestroyed => state.target_destroyed == c.value,
    })
}

#[test]
fn search_persue_attack_destroys_the_target() {
    let tasks = generate_task_registry();
    let mut state = WorldState::default_world_state();
    for task in &tasks {
        assert!(satisfies(&state, &task.requirements));
        apply(&mut state, &task.effects);
    }
    assert!(state.target_destroyed);
}

#[test]
fn names_and_keys_are_distinct() {
    let names = [
        Requirement::EnemiesInView.name(),
        Requirement::TargetInWeaponsRange.name(),
        Requirement::TargetDestroyed.name(),
    ];
    assert!(names[0] != names[1] && names[1] != names[2] && names[0] != names[2]);
    let mut keys: Vec<u64> = [
        EquipmentTypeId::Weapon,
        EquipmentTypeId::RepairBot,
        EquipmentTypeId::Generator,
        EquipmentTypeId::Battery,
        EquipmentTypeId::Armor,
    ]
    .iter()
    .map(|k| k.key())
    .collect();
    keys.dedup();
    assert_eq!(keys.len(), 5);
}

#[test]
fn taking_a_credits_chest() {
    let mut player = Credits::new(10);
    let mut chest = Credits::new(32);
    take_all_credits(&mut player, &mut chest);
    assert_eq!(player.get(), 42);
    assert_eq!(chest.get(), 0);
}

use qz::error::InventoryError;
use qz::items::drop::{fill_chest, select_drops};
use qz::items::{DropRate, Drops, Item, ItemAssets};
use qz::spawner::{first_spawned, spawner_step};
use qz::universe::Universe;

#[test]
fn first_spawned_takes_the_first_success() {
    let list = vec![("a".to_string(), 3), ("b".to_string(), 1), ("c".to_string(), 2)];
    assert_eq!(first_spawned(&list, &vec![false, true, true]), Some("b".to_string()));
    assert_eq!(first_spawned(&list, &vec![true, false, true]), Some("a".to_string()));
    assert_eq!(first_spawned(&list, &vec![false, false, true]), Some("c".to_string()));
    assert_eq!(first_spawned(&list, &vec![false, false, false]), None);
    assert_eq!(first_spawned(&vec![], &vec![]), None);
}

#[test]
fn select_drops_keeps_what_dropped_with_its_amount() {
    let rate = |min, max| DropRate { min, max, d: 2 };
    let entries = vec![(1, rate(1, 3)), (2, rate(2, 2)), (3, rate(1, 5))];
    assert_eq!(
        select_drops(&entries, &vec![true, false, true], &vec![2, 2, 5]),
        vec![(1, 2), (3, 5)]
    );
    assert_eq!(
        select_drops(&entries, &vec![false, true, false], &vec![1, 2, 1]),
        vec![(2, 2)]
    );
    assert!(select_drops(&entries, &vec![false, false, false], &vec![1, 2, 1]).is_empty());
}

fn sorted_destinations(u: &Universe, node: u32) -> Vec<u32> {
    let mut d = u.gate_destinations(node);
    d.sort();
    d
}

#[test]
fn build_section_lays_out_layers_and_links() {
    let mut u = Universe::new();
    assert_eq!(u.build_section(&vec![vec![0], vec![1, 1]]), 0);
    assert_eq!(u.zone_count(), 4);
    assert_eq!(u.zone(0), Some((0, None)));
    assert_eq!(u.zone(1), Some((1, None)));
    assert_eq!(u.zone(2), Some((2, None)));
    assert_eq!(u.zone(3), Some((2, None)));
    assert_eq!(u.end(), vec![2, 3]);
    assert_eq!(sorted_destinations(&u, 0), vec![1]);
    assert_eq!(sorted_destinations(&u, 1), vec![0, 2, 3]);

    // the next section hangs from every end
    assert_eq!(u.build_section(&vec![vec![4, 4]]), 4);
    assert_eq!(u.zone_count(), 7);
    assert_eq!(u.zone(4), Some((0, None)));
    assert_eq!(u.zone(5), Some((1, None)));
    assert_eq!(u.zone(6), Some((1, None)));
    assert_eq!(u.end(), vec![5, 6]);
    assert_eq!(sorted_destinations(&u, 4), vec![2, 3, 5, 6]);
    assert_eq!(sorted_destinations(&u, 2), vec![1, 4]);

    // a section of one zone is not attached and leaves the end alone
    assert_eq!(u.build_section(&vec![]), 7);
    assert_eq!(u.zone_count(), 8);
    assert_eq!(u.zone(7), Some((0, None)));
    assert_eq!(u.end(), vec![5, 6]);
    assert!(u.gate_destinations(7).is_empty());
}

#[test]
fn huge_drops_are_refused_not_wrapped() {
    let mut assets = ItemAssets::new();
    assets.insert(1, Item { name: "hull".to_string(), size: usize::MAX, value: 1, equipment: None });
    assets.insert(2, Item { name: "dust".to_string(), size: 1, value: 1, equipment: None });
    assert_eq!(
        fill_chest(&vec![(1, 2)], &assets).err(),
        Some(InventoryError::NoSpaceLeft { overage: usize::MAX })
    );
    assert_eq!(
        fill_chest(&vec![(2, 60)], &assets).unwrap().space_occupied(),
        60
    );
    let mut drops = Drops::new();
    drops.insert(2, DropRate { min: usize::MAX, max: usize::MAX, d: 1 });
    assert_eq!(
        drops.roll(&assets).err(),
        Some(InventoryError::NoSpaceLeft { overage: usize::MAX - 64 })
    );
    let mut heavy = Drops::new();
    heavy.insert(1, DropRate { min: 1, max: usize::MAX, d: 1 });
    assert!(matches!(heavy.roll(&assets).err(), Some(InventoryError::NoSpaceLeft { .. })));
}

#[test]
fn spawner_step_spawns_only_below_the_maximum() {
    let spawns = vec![("crab".to_string(), 1)];
    let live = vec![7, 8, 7];
    assert_eq!(spawner_step(true, &live, 7, 3, &spawns), (true, Some("crab".to_string())));
    assert_eq!(spawner_step(true, &live, 7, 2, &spawns), (false, None));
    assert_eq!(spawner_step(false, &live, 7, 3, &spawns), (false, None));
    assert_eq!(spawner_step(true, &live, 9, 1, &spawns), (true, Some("crab".to_string())));
    // a spawner past its maximum is not rolled, so a zero chance is harmless there
    let broken = vec![("ghost".to_string(), 0)];
    assert_eq!(spawner_step(true, &live, 7, 2, &broken), (false, None));
    assert_eq!(spawner_step(true, &live, 7, 3, &vec![]), (true, None));
}

#[test]
fn link_count_follows_the_links() {
    let mut u = Universe::new();
    assert_eq!(u.link_count(), 0);
    u.build_section(&vec![vec![0], vec![1, 1]]);
    assert_eq!(u.link_count(), 3);
    u.build_section(&vec![vec![4]]);
    assert_eq!(u.link_count(), 6);
}

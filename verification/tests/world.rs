use bevy_turborand::prelude::GlobalRng;
use qz::chunks::{starting_chunks, Chunks};
use qz::items::assets::ItemLibrary;
use qz::spawn::{roll_credits, stock_store};
use qz::universe::Universe;

#[test]
fn empty_universe() {
    let u = Universe::new();
    assert_eq!(u.zone_count(), 0);
    assert!(u.end().is_empty());
    assert_eq!(u.zone(0), None);
    assert!(!u.zone_is_open(0));
}

#[test]
fn zero_length_section_changes_nothing() {
    let mut rng = GlobalRng::with_seed(7);
    let mut u = Universe::new();
    assert_eq!(u.generate_section(&mut rng, (0, 0), (1, 3)), None);
    assert_eq!(u.zone_count(), 0);
}

#[test]
fn single_layer_section() {
    let mut rng = GlobalRng::with_seed(7);
    let mut u = Universe::new();
    assert_eq!(u.generate_section(&mut rng, (1, 1), (1, 3)), Some(0));
    assert_eq!(u.zone_count(), 1);
    assert_eq!(u.zone(0), Some((0, None)));
    assert!(u.end().is_empty());
    assert!(u.gate_destinations(0).is_empty());
}

#[test]
fn layered_sections_attach() {
    let mut rng = GlobalRng::with_seed(42);
    let mut u = Universe::new();
    assert_eq!(u.generate_section(&mut rng, (3, 3), (2, 2)), Some(0));
    assert_eq!(u.zone_count(), 5);
    let depths: Vec<usize> = (0..5).map(|i| u.zone(i).unwrap().0).collect();
    assert_eq!(depths, vec![0, 1, 1, 2, 2]);
    assert_eq!(u.end(), vec![3, 4]);
    // the first zone leads to both zones of the second layer
    let mut from_first = u.gate_destinations(0);
    from_first.sort();
    assert_eq!(from_first, vec![1, 2]);
    // each zone of the last layer hangs from one of the layer before
    for z in [3u32, 4] {
        let up = u.gate_destinations(z);
        assert_eq!(up.len(), 1);
        assert!(up[0] == 1 || up[0] == 2);
    }

    assert_eq!(u.generate_section(&mut rng, (2, 2), (0, 0)), Some(5));
    assert_eq!(u.zone_count(), 7);
    assert_eq!(u.zone(5), Some((0, None)));
    assert_eq!(u.zone(6), Some((1, None)));
    assert_eq!(u.end(), vec![6]);
    let mut joined = u.gate_destinations(5);
    joined.sort();
    assert_eq!(joined, vec![3, 4, 6]);
}

#[test]
fn zone_scenes() {
    let mut rng = GlobalRng::with_seed(3);
    let mut u = Universe::new();
    u.generate_section(&mut rng, (2, 2), (1, 1));
    assert!(u.zone_is_open(1));
    u.set_scene(1, 99);
    assert_eq!(u.zone(1), Some((1, Some(99))));
    assert!(!u.zone_is_open(1));
    assert!(!u.zone_is_open(5));
}

#[test]
fn credits_roll() {
    let mut rng = GlobalRng::with_seed(1);
    assert_eq!(roll_credits(&mut rng, (5, 5)).map(|c| c.get()), Some(5));
    assert!(roll_credits(&mut rng, (0, 0)).is_none());
    let c = roll_credits(&mut rng, (1, 10)).unwrap().get();
    assert!((1..=10).contains(&c));
}

#[test]
fn store_stock() {
    let mut lib = ItemLibrary::new();
    lib.insert("items/iron.ron".to_string(), 1);
    lib.insert("items/gold.ron".to_string(), 2);
    let rolled = vec![
        ("iron".to_string(), true),
        ("gold".to_string(), false),
        ("copper".to_string(), true),
        ("gold".to_string(), true),
    ];
    assert_eq!(stock_store(&rolled, &lib), vec![1, 2]);
}

#[test]
fn chunks_are_generated_once() {
    let mut chunks = Chunks::new();
    let cross = starting_chunks();
    assert_eq!(cross, vec![(0, 0), (0, 1), (1, 0), (-1, 0), (0, -1)]);
    assert_eq!(chunks.claim(&cross), vec![(0, 0), (0, 1), (1, 0), (-1, 0), (0, -1)]);
    assert_eq!(chunks.claim(&vec![(-1, 0), (-1, 0)]), vec![]);
    assert!(chunks.is_generated(&(1, 0)));
    assert!(!chunks.is_generated(&(2, 0)));
    assert_eq!(chunks.claim(&vec![(1, 0), (2, 0), (2, 0)]), vec![(2, 0)]);
    chunks.insert((5, 5));
    assert!(chunks.claim(&vec![(5, 5)]).is_empty());
}

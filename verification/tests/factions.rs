use qz::ai::in_range::{relation_to, sort_in_range, Relation};
use qz::faction::{Alliegance, Faction, FactionSet};
use qz::weapons::is_hostile;

fn two_factions() -> (Faction, Faction) {
    let a = Faction::new();
    let mut b = Faction::new();
    while b.id() == a.id() || b.id() == 0 {
        b = Faction::new();
    }
    (a, b)
}

#[test]
fn faction_set_membership() {
    let (a, b) = two_factions();
    let set: FactionSet = [a].into();
    assert!(set.contains(&a));
    assert!(!set.contains(&b));
    assert!(FactionSet::all().contains(&b));
    assert!(!FactionSet::default().contains(&a));
    let both = FactionSet::from_factions(&[a, b]);
    assert!(both.contains(&a) && both.contains(&b));
    assert!(both.clone().contains(&b));
}

#[test]
fn none_faction() {
    assert_eq!(Faction::none().id(), 0);
    assert_eq!(Faction::none(), Faction::default());
}

#[test]
fn alliegance_relations() {
    let (us, them) = two_factions();
    let al = Alliegance::against(us, them);
    assert_eq!(al.faction, us);
    assert_eq!(relation_to(&al, &us), Relation::Ally);
    assert_eq!(relation_to(&al, &them), Relation::Enemy);
    assert_eq!(relation_to(&al, &Faction::none()), Relation::Neutral);
}

#[test]
fn sort_nearby_by_relation() {
    let (us, them) = two_factions();
    let al = Alliegance::against(us, them);
    let nearby = vec![(1, them), (2, us), (3, Faction::none()), (4, them)];
    let (allies, enemies) = sort_in_range(&al, &nearby);
    assert_eq!(allies, vec![2]);
    assert_eq!(enemies, vec![1, 4]);
}

#[test]
fn hostility() {
    let (us, them) = two_factions();
    let ours = Alliegance::against(us, them);
    let theirs = Alliegance::against(them, us);
    assert!(is_hostile(Some(&ours), Some(&theirs)));
    assert!(!is_hostile(Some(&ours), Some(&ours)));
    // a shot without alliegance hits everything
    assert!(is_hostile(None, Some(&ours)));
    assert!(is_hostile(None, None));
    // an unaligned target counts as the empty faction
    assert!(!is_hostile(Some(&ours), None));
    let default = Alliegance::default();
    assert!(!is_hostile(Some(&default), Some(&ours)));
}

#[test]
fn faction_from_uid() {
    assert_eq!(Faction::from_uid(42).id(), 42);
    assert_eq!(Faction::from_uid(0), Faction::none());
}

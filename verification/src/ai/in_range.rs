use vstd::prelude::*;

use crate::faction::{Alliegance, Faction};

verus! {

/// How an entity regards another's faction
#[derive(Debug, Clone, Copy, PartialEq, Eq)]
pub enum Relation {
    /// An allied faction
    Ally,
    /// An enemy faction that is not also allied
    Enemy,
    /// Neither
    Neutral,
}

/// How `alliegance` regards `faction`: allies take precedence over enemies.
pub open spec fn relation(alliegance: Alliegance, faction: Faction) -> Relation {
    if alliegance.allies.includes(faction) {
        Relation::Ally
    } else if alliegance.enemies.includes(faction) {
        Relation::Enemy
    } else {
        Relation::Neutral
    }
}

/// How an entity with `alliegance` regards one of `faction`
pub fn relation_to(alliegance: &Alliegance, faction: &Faction) -> (r: Relation)
    ensures
        r == relation(*alliegance, *faction),
{
    if alliegance.allies.contains(faction) {
        Relation::Ally
    } else if alliegance.enemies.contains(faction) {
        Relation::Enemy
    } else {
        Relation::Neutral
    }
}

/// The entities of `nearby` that `alliegance` regards as `want`, in order
pub open spec fn regarded_as(
    alliegance: Alliegance,
    nearby: Seq<(u64, Faction)>,
    want: Relation,
) -> Seq<u64>
    decreases nearby.len(),
{
    if nearby.len() == 0 {
        Seq::empty()
    } else {
        let rest = regarded_as(alliegance, nearby.drop_last(), want);
        if relation(alliegance, nearby.last().1) == want {
            rest.push(nearby.last().0)
        } else {
            rest
        }
    }
}

/// Split the entities found in range, given in the order they should be
/// listed, into allies and enemies of `alliegance`; neutral ones are dropped.
pub fn sort_in_range(alliegance: &Alliegance, nearby: &Vec<(u64, Faction)>) -> (r: (
    Vec<u64>,
    Vec<u64>,
))
    ensures
        r.0@ == regarded_as(*alliegance, nearby@, Relation::Ally),
        r.1@ == regarded_as(*alliegance, nearby@, Relation::Enemy),
{
    let mut allies: Vec<u64> = Vec::new();
    let mut enemies: Vec<u64> = Vec::new();
    let mut i: usize = 0;
    while i < nearby.len()
        invariant
            0 <= i <= nearby@.len(),
            allies@ == regarded_as(*alliegance, nearby@.take(i as int), Relation::Ally),
            enemies@ == regarded_as(*alliegance, nearby@.take(i as int), Relation::Enemy),
        decreases nearby@.len() - i,
    {
        let (entity, faction) = nearby[i];
        proof {
            assert(nearby@.take(i + 1).drop_last() =~= nearby@.take(i as int));
        }
        match relation_to(alliegance, &faction) {
            Relation::Ally => allies.push(entity),
            Relation::Enemy => enemies.push(entity),
            Relation::Neutral => {},
        }
        i = i + 1;
    }
    proof {
        assert(nearby@.take(nearby@.len() as int) =~= nearby@);
    }
    (allies, enemies)
}

} // verus!

//! Factions and alliegances

use vstd::prelude::*;

use crate::collections::{id_set_contents, IdSet};
use crate::rng::random_u32;

verus! {

/// A faction is a simple UID that can be registered
#[derive(PartialEq, Eq, Copy, Clone, Debug, Default, Hash)]
pub struct Faction(u32);

impl Faction {
    /// This faction's ID
    pub closed spec fn uid(self) -> u32 {
        self.0
    }

    /// Create a new random faction ID
    pub fn new() -> (r: Faction) {
        Self::from_uid(random_u32())
    }

    /// The faction with the ID `id`
    pub fn from_uid(id: u32) -> (r: Faction)
        ensures
            r.uid() == id,
    {
        Self(id)
    }

    /// The faction without any explicitly assigned faction
    pub closed spec fn none_spec() -> Faction {
        Faction(0)
    }

    /// Create a new faction without any explicitly assigned faction. It may, however, still resolve.
    pub fn none() -> (r: Faction)
        ensures
            r == Faction::none_spec(),
            r.uid() == 0,
    {
        Self(0)
    }

    /// Return this Faction ID
    pub fn id(&self) -> (r: u32)
        ensures
            r == self.uid(),
    {
        self.0
    }

    /// Factions are equal exactly when their IDs are.
    pub proof fn lemma_uid_identifies(a: Faction, b: Faction)
        ensures
            a.uid() == b.uid() <==> a == b,
    {
    }
}

/// A collection of `Faction`s
pub struct FactionSet {
    /// IDs of each faction that is a part of this faction set. The `FactionSet` is essentially a set
    /// except with the ability to set `all` without needing to specify every faction ID
    data: IdSet,
    /// Whether to treat this as including all potential factions. Overrides faction data.
    all: bool,
}

impl FactionSet {
    /// Whether this set stands for every faction
    pub closed spec fn is_all(self) -> bool {
        self.all
    }

    /// The IDs listed in this set
    pub closed spec fn listed(self) -> Set<u64> {
        id_set_contents(self.data)
    }

    /// Whether `f` is a member of this set
    pub open spec fn includes(self, f: Faction) -> bool {
        self.is_all() || self.listed().contains(f.uid() as u64)
    }

    /// Create a new `FactionSet` including all factions
    pub fn all() -> (r: Self)
        ensures
            r.is_all(),
            r.listed() == Set::<u64>::empty(),
    {
        Self { data: IdSet::new(), all: true }
    }

    /// A set of exactly the given factions
    pub fn from_factions(factions: &[Faction]) -> (r: Self)
        ensures
            !r.is_all(),
            r.listed() == factions@.map_values(|f: Faction| f.uid() as u64).to_set(),
    {
        let mut data = IdSet::new();
        let mut i: usize = 0;
        while i < factions.len()
            invariant
                0 <= i <= factions@.len(),
                id_set_contents(data) == factions@.subrange(0, i as int).map_values(
                    |f: Faction| f.uid() as u64,
                ).to_set(),
            decreases factions@.len() - i,
        {
            data.insert(factions[i].id() as u64);
            proof {
                let g = |f: Faction| f.uid() as u64;
                assert(factions@.subrange(0, i + 1) =~= factions@.subrange(0, i as int).push(
                    factions@[i as int],
                ));
                assert(factions@.subrange(0, i + 1).map_values(g) =~= factions@.subrange(
                    0,
                    i as int,
                ).map_values(g).push(g(factions@[i as int])));
                factions@.subrange(0, i as int).map_values(g).lemma_push_to_set_commute(
                    g(factions@[i as int]),
                );
            }
            i = i + 1;
        }
        proof {
            assert(factions@.subrange(0, factions@.len() as int) =~= factions@);
        }
        Self { data, all: false }
    }

    /// Returns `true` if the set contains a value.
    pub fn contains(&self, value: &Faction) -> (r: bool)
        ensures
            r == self.includes(*value),
    {
        if self.all {
            true
        } else {
            self.data.contains(value.id() as u64)
        }
    }
}

impl<const N: usize> From<[Faction; N]> for FactionSet {
    fn from(value: [Faction; N]) -> (r: Self)
        ensures
            !r.is_all(),
            r.listed() == value@.map_values(|f: Faction| f.uid() as u64).to_set(),
    {
        FactionSet::from_factions(&value)
    }
}

/// A `FactionSet` holds its members in an outside set known only by its
/// contents, so no spec function can give the value `from` builds: `from` is
/// described by its own `ensures` above, and not through `from_spec`.
impl<const N: usize> vstd::std_specs::convert::FromSpecImpl<[Faction; N]> for FactionSet {
    open spec fn obeys_from_spec() -> bool {
        false
    }

    open spec fn from_spec(v: [Faction; N]) -> FactionSet {
        vstd::pervasive::arbitrary()
    }
}

impl Default for FactionSet {
    fn default() -> (r: Self)
        ensures
            !r.is_all(),
            r.listed() == Set::<u64>::empty(),
    {
        Self { data: IdSet::new(), all: false }
    }
}

impl Clone for FactionSet {
    fn clone(&self) -> (r: Self)
        ensures
            r.is_all() == self.is_all(),
            r.listed() == self.listed(),
    {
        Self { data: self.data.duplicate(), all: self.all }
    }
}

/// Marks entities as allies or enemies of one another
pub struct Alliegance {
    /// The faction of the entity
    pub faction: Faction,
    /// Allied factions of this entity
    pub allies: FactionSet,
    /// Enemy factions of this entity
    pub enemies: FactionSet,
}

impl Alliegance {
    /// The alliegance of a member of `faction` that is allied with its own
    /// faction alone and hostile to `enemy` alone
    pub fn against(faction: Faction, enemy: Faction) -> (r: Self)
        ensures
            r.faction == faction,
            !r.allies.is_all() && r.allies.listed() == set![faction.uid() as u64],
            !r.enemies.is_all() && r.enemies.listed() == set![enemy.uid() as u64],
    {
        let mut allied = IdSet::new();
        allied.insert(faction.id() as u64);
        let mut hostile = IdSet::new();
        hostile.insert(enemy.id() as u64);
        let allies = FactionSet { data: allied, all: false };
        let enemies = FactionSet { data: hostile, all: false };
        proof {
            assert(id_set_contents(allied) =~= set![faction.uid() as u64]);
            assert(id_set_contents(hostile) =~= set![enemy.uid() as u64]);
        }
        Alliegance { faction, allies, enemies }
    }
}

impl Default for Alliegance {
    fn default() -> (r: Self)
        ensures
            r.faction == Faction::none_spec(),
            !r.allies.is_all() && r.allies.listed() == Set::<u64>::empty(),
            !r.enemies.is_all() && r.enemies.listed() == Set::<u64>::empty(),
    {
        Self { faction: Faction::none(), allies: FactionSet::default(), enemies: FactionSet::default() }
    }
}

impl Clone for Alliegance {
    fn clone(&self) -> (r: Self)
        ensures
            r.faction == self.faction,
            r.allies.is_all() == self.allies.is_all(),
            r.allies.listed() == self.allies.listed(),
            r.enemies.is_all() == self.enemies.is_all(),
            r.enemies.listed() == self.enemies.listed(),
    {
        Self { faction: self.faction, allies: self.allies.clone(), enemies: self.enemies.clone() }
    }
}

} // verus!

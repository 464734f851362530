//! The `bevy` hash collections that the game state is kept in.
//!
//! Keys and members are integers: an item handle, an entity or a faction is
//! stored by its integer id. Each collection is opaque to Verus; what it holds
//! is named by a spec function, and every operation the game uses is a small
//! wrapper whose contract states how that content changes.

use vstd::prelude::*;

use crate::items::DropRate;

verus! {

/// A `bevy::utils::HashMap` from integer keys to counts.
#[verifier::external_body]
pub struct CountMap {
    map: bevy::utils::HashMap<u64, usize>,
}

/// The key/count pairs held by a [`CountMap`].
pub uninterp spec fn count_map_contents(m: CountMap) -> Map<u64, usize>;

impl View for CountMap {
    type V = Map<u64, usize>;

    open spec fn view(&self) -> Map<u64, usize> {
        count_map_contents(*self)
    }
}

/// `entries` lists exactly the key/value pairs of `m`, each key once.
pub open spec fn lists_entries<V>(entries: Seq<(u64, V)>, m: Map<u64, V>) -> bool {
    &&& m.dom().finite()
    &&& entries.len() == m.dom().len()
    &&& forall|i: int| 0 <= i < entries.len() ==> {
        &&& #[trigger] m.contains_key(entries[i].0)
        &&& m[entries[i].0] == entries[i].1
    }
    &&& forall|i: int, j: int|
        0 <= i < entries.len() && 0 <= j < entries.len() && i != j ==> entries[i].0
            != entries[j].0
    &&& forall|k: u64| m.contains_key(k) ==> exists|i: int|
        0 <= i < entries.len() && #[trigger] entries[i].0 == k
}

impl CountMap {
    /// `HashMap::default`: an empty map.
    #[verifier::external_body]
    pub(crate) fn new() -> (r: CountMap)
        ensures
            (count_map_contents(r) == Map::<u64, usize>::empty()),
    {
        CountMap { map: bevy::utils::HashMap::default() }
    }

    /// `HashMap::clone`: a map with the same pairs.
    #[verifier::external_body]
    pub(crate) fn duplicate(&self) -> (r: CountMap)
        ensures
            count_map_contents(r) == count_map_contents(*self),
    {
        CountMap { map: self.map.clone() }
    }

    /// `HashMap::get`: the count stored under `k`, if any.
    #[verifier::external_body]
    pub(crate) fn get(&self, k: u64) -> (r: Option<usize>)
        ensures
            r == (if count_map_contents(*self).contains_key(k) {
                Some(count_map_contents(*self)[k])
            } else {
                None::<usize>
            }),
    {
        self.map.get(&k).copied()
    }

    /// `HashMap::insert`: stores `v` under `k`, returning the count it replaced.
    #[verifier::external_body]
    pub(crate) fn insert(&mut self, k: u64, v: usize) -> (r: Option<usize>)
        ensures
            count_map_contents(*final(self)) == count_map_contents(*old(self)).insert(k, v),
            r == (if count_map_contents(*old(self)).contains_key(k) {
                Some(count_map_contents(*old(self))[k])
            } else {
                None::<usize>
            }),
    {
        self.map.insert(k, v)
    }

    /// `HashMap::remove`: removes `k`, returning the count it held.
    #[verifier::external_body]
    pub(crate) fn remove(&mut self, k: u64) -> (r: Option<usize>)
        ensures
            count_map_contents(*final(self)) == count_map_contents(*old(self)).remove(k),
            r == (if count_map_contents(*old(self)).contains_key(k) {
                Some(count_map_contents(*old(self))[k])
            } else {
                None::<usize>
            }),
    {
        self.map.remove(&k)
    }

    /// `HashMap::is_empty`: whether no key is stored.
    #[verifier::external_body]
    pub(crate) fn is_empty(&self) -> (r: bool)
        ensures
            r <==> count_map_contents(*self).dom() == Set::<u64>::empty(),
    {
        self.map.is_empty()
    }

    /// `HashMap::iter`: every pair, each key once, in the map's own order.
    #[verifier::external_body]
    pub(crate) fn entries(&self) -> (r: Vec<(u64, usize)>)
        ensures
            lists_entries(r@, count_map_contents(*self)),
    {
        self.map.iter().map(|(k, v)| (*k, *v)).collect()
    }

    /// `HashMap::drain`: empties the map and hands out every pair it held.
    #[verifier::external_body]
    pub(crate) fn drain(&mut self) -> (r: Vec<(u64, usize)>)
        ensures
            (count_map_contents(*final(self)) == Map::<u64, usize>::empty()),
            lists_entries(r@, count_map_contents(*old(self))),
    {
        self.map.drain().collect()
    }
}

/// A `bevy::utils::HashSet` of integer ids.
#[verifier::external_body]
pub struct IdSet {
    set: bevy::utils::HashSet<u64>,
}

/// The ids held by an [`IdSet`].
pub uninterp spec fn id_set_contents(s: IdSet) -> Set<u64>;

impl View for IdSet {
    type V = Set<u64>;

    open spec fn view(&self) -> Set<u64> {
        id_set_contents(*self)
    }
}

impl IdSet {
    /// `HashSet::default`: an empty set.
    #[verifier::external_body]
    pub(crate) fn new() -> (r: IdSet)
        ensures
            id_set_contents(r) == Set::<u64>::empty(),
    {
        IdSet { set: bevy::utils::HashSet::default() }
    }

    /// `HashSet::clone`: a set with the same ids.
    #[verifier::external_body]
    pub(crate) fn duplicate(&self) -> (r: IdSet)
        ensures
            id_set_contents(r) == id_set_contents(*self),
    {
        IdSet { set: self.set.clone() }
    }

    /// `HashSet::contains`
    #[verifier::external_body]
    pub(crate) fn contains(&self, v: u64) -> (r: bool)
        ensures
            r == id_set_contents(*self).contains(v),
    {
        self.set.contains(&v)
    }

    /// `HashSet::insert`: adds `v`, returning whether it was new.
    #[verifier::external_body]
    pub(crate) fn insert(&mut self, v: u64) -> (r: bool)
        ensures
            id_set_contents(*final(self)) == id_set_contents(*old(self)).insert(v),
            r == !id_set_contents(*old(self)).contains(v),
    {
        self.set.insert(v)
    }

    /// `HashSet::remove`: removes `v`, returning whether it was present.
    #[verifier::external_body]
    pub(crate) fn remove(&mut self, v: u64) -> (r: bool)
        ensures
            id_set_contents(*final(self)) == id_set_contents(*old(self)).remove(v),
            r == id_set_contents(*old(self)).contains(v),
    {
        self.set.remove(&v)
    }
}

/// A `bevy::utils::HashMap` from an integer key to a `bevy::utils::HashSet` of ids.
#[verifier::external_body]
pub struct GroupMap {
    map: bevy::utils::HashMap<u64, bevy::utils::HashSet<u64>>,
}

/// The groups held by a [`GroupMap`].
pub uninterp spec fn group_map_contents(m: GroupMap) -> Map<u64, Set<u64>>;

impl View for GroupMap {
    type V = Map<u64, Set<u64>>;

    open spec fn view(&self) -> Map<u64, Set<u64>> {
        group_map_contents(*self)
    }
}

/// `entries` lists each group of `m` once, each member once.
pub open spec fn lists_groups(entries: Seq<(u64, Vec<u64>)>, m: Map<u64, Set<u64>>) -> bool {
    &&& m.dom().finite()
    &&& entries.len() == m.dom().len()
    &&& forall|i: int| 0 <= i < entries.len() ==> {
        &&& #[trigger] m.contains_key(entries[i].0)
        &&& entries[i].1@.to_set() == m[entries[i].0]
        &&& entries[i].1@.no_duplicates()
    }
    &&& forall|i: int, j: int|
        0 <= i < entries.len() && 0 <= j < entries.len() && i != j ==> entries[i].0
            != entries[j].0
    &&& forall|k: u64| m.contains_key(k) ==> exists|i: int|
        0 <= i < entries.len() && #[trigger] entries[i].0 == k
}

impl GroupMap {
    /// `HashMap::default`: no groups.
    #[verifier::external_body]
    pub(crate) fn new() -> (r: GroupMap)
        ensures
            (group_map_contents(r) == Map::<u64, Set<u64>>::empty()),
    {
        GroupMap { map: bevy::utils::HashMap::default() }
    }

    /// `HashMap::clone`: the same groups.
    #[verifier::external_body]
    pub(crate) fn duplicate(&self) -> (r: GroupMap)
        ensures
            group_map_contents(r) == group_map_contents(*self),
    {
        GroupMap { map: self.map.clone() }
    }

    /// `HashMap::contains_key`: whether a group exists under `k`.
    #[verifier::external_body]
    pub(crate) fn contains_key(&self, k: u64) -> (r: bool)
        ensures
            r == group_map_contents(*self).contains_key(k),
    {
        self.map.contains_key(&k)
    }

    /// `HashMap::get` then `HashSet::len`: the size of the group under `k`, if any.
    #[verifier::external_body]
    pub(crate) fn group_len(&self, k: u64) -> (r: Option<usize>)
        ensures
            r is Some <==> group_map_contents(*self).contains_key(k),
            r matches Some(n) ==> group_map_contents(*self)[k].finite() && n == group_map_contents(*self)[k].len(),
    {
        self.map.get(&k).map(|s| s.len())
    }

    /// `HashMap::get` then `HashSet::iter`: the members of the group under `k`, each once
    #[verifier::external_body]
    pub(crate) fn members(&self, k: u64) -> (r: Option<Vec<u64>>)
        ensures
            r is Some <==> group_map_contents(*self).contains_key(k),
            r matches Some(v) ==> v@.to_set() == group_map_contents(*self)[k] && v@.no_duplicates(),
    {
        self.map.get(&k).map(|s| s.iter().copied().collect())
    }

    /// `HashMap::entry(k).or_default()` then `HashSet::insert`: adds `v` to the group
    /// under `k`, creating an empty group first where there is none.
    #[verifier::external_body]
    pub(crate) fn add_member(&mut self, k: u64, v: u64) -> (r: bool)
        ensures
            group_map_contents(*final(self)) == group_map_contents(*old(self)).insert(
                k,
                if group_map_contents(*old(self)).contains_key(k) {
                    group_map_contents(*old(self))[k].insert(v)
                } else {
                    Set::<u64>::empty().insert(v)
                },
            ),
            r == !(group_map_contents(*old(self)).contains_key(k) && group_map_contents(*old(self))[k].contains(v)),
    {
        self.map.entry(k).or_default().insert(v)
    }

    /// `HashMap::entry(k).or_default()` then `HashSet::remove`: removes `v` from the
    /// existing group under `k`, returning whether it was a member.
    #[verifier::external_body]
    pub(crate) fn remove_member(&mut self, k: u64, v: u64) -> (r: bool)
        requires
            group_map_contents(*old(self)).contains_key(k),
        ensures
            group_map_contents(*final(self)) == group_map_contents(*old(self)).insert(k, group_map_contents(*old(self))[k].remove(v)),
            r == group_map_contents(*old(self))[k].contains(v),
    {
        self.map.entry(k).or_default().remove(&v)
    }

    /// `HashMap::iter` with `HashSet::iter`: every group, each once, with its members.
    #[verifier::external_body]
    pub(crate) fn groups(&self) -> (r: Vec<(u64, Vec<u64>)>)
        ensures
            lists_groups(r@, group_map_contents(*self)),
    {
        self.map.iter().map(|(k, s)| (*k, s.iter().copied().collect())).collect()
    }
}

/// A `bevy::utils::HashMap` from item ids to their [`DropRate`].
#[verifier::external_body]
pub struct DropMap {
    map: bevy::utils::HashMap<u64, DropRate>,
}

/// The item/rate pairs held by a [`DropMap`].
pub uninterp spec fn drop_map_contents(m: DropMap) -> Map<u64, DropRate>;

impl View for DropMap {
    type V = Map<u64, DropRate>;

    open spec fn view(&self) -> Map<u64, DropRate> {
        drop_map_contents(*self)
    }
}

impl DropMap {
    /// `HashMap::default`: an empty map.
    #[verifier::external_body]
    pub(crate) fn new() -> (r: DropMap)
        ensures
            (drop_map_contents(r) == Map::<u64, DropRate>::empty()),
    {
        DropMap { map: bevy::utils::HashMap::default() }
    }

    /// `HashMap::insert`: stores `rate` under `item`.
    #[verifier::external_body]
    pub(crate) fn insert(&mut self, item: u64, rate: DropRate)
        ensures
            drop_map_contents(*final(self)) == drop_map_contents(*old(self)).insert(item, rate),
    {
        self.map.insert(item, rate);
    }

    /// `HashMap::iter`: every pair, each item once, in the map's own order.
    #[verifier::external_body]
    pub(crate) fn entries(&self) -> (r: Vec<(u64, DropRate)>)
        ensures
            lists_entries(r@, drop_map_contents(*self)),
    {
        self.map.iter().map(|(k, v)| (*k, *v)).collect()
    }
}

} // verus!

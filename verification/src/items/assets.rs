use std::collections::HashMap;
use vstd::prelude::*;

use crate::items::inventory::item_key;
use crate::items::Item;

verus! {

/// The loaded item assets, each under its handle id
pub struct ItemAssets {
    items: HashMap<u64, Item>,
}

impl ItemAssets {
    /// The item stored under `handle`, if any
    pub closed spec fn lookup(self, handle: u64) -> Option<Item> {
        if self.items@.contains_key(handle) {
            Some(self.items@[handle])
        } else {
            None
        }
    }

    /// No assets loaded
    pub fn new() -> (r: Self)
        ensures
            forall|h: u64| #[trigger] r.lookup(h) is None,
    {
        ItemAssets { items: HashMap::new() }
    }

    /// Store `item` under `handle`, replacing what was stored there
    pub fn insert(&mut self, handle: u64, item: Item)
        ensures
            final(self).lookup(handle) == Some(item),
            forall|h: u64| h != handle ==> #[trigger] final(self).lookup(h) == old(self).lookup(h),
    {
        broadcast use vstd::std_specs::hash::group_hash_axioms;

        self.items.insert(handle, item);
    }

    /// The item stored under `handle`, if any
    pub fn get(&self, handle: u64) -> (r: Option<&Item>)
        ensures
            match r {
                Some(it) => self.lookup(handle) == Some(*it),
                None => self.lookup(handle) is None,
            },
    {
        broadcast use vstd::std_specs::hash::group_hash_axioms;

        self.items.get(&handle)
    }
}

/// The first handle stored under `key` in `entries`, if any.
pub open spec fn first_handle(entries: Seq<(String, u64)>, key: Seq<char>) -> Option<u64>
    decreases entries.len(),
{
    if entries.len() == 0 {
        None
    } else if entries[0].0@ == key {
        Some(entries[0].1)
    } else {
        first_handle(entries.drop_first(), key)
    }
}

/// The asset path of the first entry of `entries` with `handle`, if any.
pub open spec fn first_path(entries: Seq<(String, u64)>, handle: u64) -> Option<Seq<char>>
    decreases entries.len(),
{
    if entries.len() == 0 {
        None
    } else if entries[0].1 == handle {
        Some(entries[0].0@)
    } else {
        first_path(entries.drop_first(), handle)
    }
}

/// The item handles of the loaded asset library, each under its asset path
pub struct ItemLibrary {
    entries: Vec<(String, u64)>,
}

impl ItemLibrary {
    /// The handle stored under the asset path `key`, if any
    pub closed spec fn find(self, key: Seq<char>) -> Option<u64> {
        first_handle(self.entries@, key)
    }

    /// The asset path that `handle` was loaded from, if any
    pub closed spec fn path_of(self, handle: u64) -> Option<Seq<char>> {
        first_path(self.entries@, handle)
    }

    /// No items loaded
    pub fn new() -> (r: Self)
        ensures
            forall|key: Seq<char>| #[trigger] r.find(key) is None,
            forall|h: u64| #[trigger] r.path_of(h) is None,
    {
        ItemLibrary { entries: Vec::new() }
    }

    /// Store `handle` under the asset path `key`, replacing what was stored there
    pub fn insert(&mut self, key: String, handle: u64)
        ensures
            final(self).find(key@) == Some(handle),
            forall|k: Seq<char>| k != key@ ==> #[trigger] final(self).find(k) == old(self).find(k),
            final(self).path_of(handle) == Some(key@),
            forall|h: u64| h != handle ==> #[trigger] final(self).path_of(h) == old(self).path_of(h),
    {
        self.entries.insert(0, (key, handle));
        proof {
            assert(self.entries@.drop_first() =~= old(self).entries@);
        }
    }

    /// The handle stored under the asset path `key`, if any
    pub fn get(&self, key: &str) -> (r: Option<u64>)
        ensures
            r == self.find(key@),
    {
        let mut i: usize = 0;
        proof {
            assert(self.entries@.skip(0) =~= self.entries@);
        }
        while i < self.entries.len()
            invariant
                0 <= i <= self.entries@.len(),
                first_handle(self.entries@, key@) == first_handle(self.entries@.skip(i as int), key@),
            decreases self.entries@.len() - i,
        {
            proof {
                assert(self.entries@.skip(i as int).drop_first() =~= self.entries@.skip(i + 1));
            }
            if string_equals(&self.entries[i].0, key) {
                return Some(self.entries[i].1);
            }
            i = i + 1;
        }
        None
    }

    /// The handle of the item named `name`, stored under `items/<name>.ron`, if any
    pub fn item(&self, name: &str) -> (r: Option<u64>)
        ensures
            r == self.find(item_key(name@)),
    {
        let mut key = String::from_str("items/");
        key.append(name);
        key.append(".ron");
        proof {
            reveal_strlit("items/");
            reveal_strlit(".ron");
        }
        self.get(key.as_str())
    }

    /// The asset path that `handle` was loaded from, if any
    pub fn path(&self, handle: u64) -> (r: Option<String>)
        ensures
            r is None <==> self.path_of(handle) is None,
            r matches Some(p) ==> self.path_of(handle) == Some(p@),
    {
        let mut i: usize = 0;
        proof {
            assert(self.entries@.skip(0) =~= self.entries@);
        }
        while i < self.entries.len()
            invariant
                0 <= i <= self.entries@.len(),
                first_path(self.entries@, handle) == first_path(self.entries@.skip(i as int), handle),
            decreases self.entries@.len() - i,
        {
            proof {
                assert(self.entries@.skip(i as int).drop_first() =~= self.entries@.skip(i + 1));
            }
            if self.entries[i].1 == handle {
                return Some(self.entries[i].0.clone());
            }
            i = i + 1;
        }
        None
    }
}

/// Whether `a` and `b` hold the same text
fn string_equals(a: &String, b: &str) -> (r: bool)
    ensures
        r == (a@ == b@),
{
    let owned = String::from_str(b);
    *a == owned
}

} // verus!

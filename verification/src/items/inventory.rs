use vstd::prelude::*;

use crate::collections::{count_map_contents, lists_entries, CountMap};
use crate::error::InventoryError;
use crate::items::{Item, ItemAssets};
use crate::items::assets::ItemLibrary;

verus! {

/// The count stored for `item` in `m`, or 0 when `m` holds no entry for it.
pub open spec fn count_in(m: Map<u64, usize>, item: u64) -> nat {
    if m.contains_key(item) {
        m[item] as nat
    } else {
        0
    }
}

/// `m` after `amount` more of `item` is stored: the entry for `item` becomes
/// its old count (0 when absent) plus `amount`.
pub open spec fn with_added(m: Map<u64, usize>, item: u64, amount: nat) -> Map<u64, usize> {
    m.insert(item, (count_in(m, item) + amount) as usize)
}

/// `m` after `amount` of `item` is taken out: the entry for `item` drops by
/// `amount`, and is removed entirely when nothing is left.
pub open spec fn with_removed(m: Map<u64, usize>, item: u64, amount: nat) -> Map<u64, usize> {
    let left = count_in(m, item) - amount;
    if left <= 0 {
        m.remove(item)
    } else {
        m.insert(item, left as usize)
    }
}

/// Every item of `a` and of `b`, each with the sum of its counts in both.
pub open spec fn merged(a: Map<u64, usize>, b: Map<u64, usize>) -> Map<u64, usize> {
    Map::new(
        |k: u64| a.contains_key(k) || b.contains_key(k),
        |k: u64| (count_in(a, k) + count_in(b, k)) as usize,
    )
}

/// Adding an amount of an item and then removing the same amount gives back
/// the counts held before, unless the item was held with a count of zero.
pub proof fn lemma_add_then_remove(m: Map<u64, usize>, item: u64, amount: nat)
    requires
        m.contains_key(item) ==> m[item] > 0,
        count_in(m, item) + amount <= usize::MAX,
    ensures
        with_removed(with_added(m, item, amount), item, amount) == m,
{
    let added = with_added(m, item, amount);
    assert(count_in(added, item) == count_in(m, item) + amount);
    if m.contains_key(item) {
        assert(with_removed(added, item, amount) =~= m);
    } else {
        assert(with_removed(added, item, amount) =~= m);
    }
}

/// Removing an amount of an item that is held and adding the same amount
/// back gives back the counts held before: what is equipped out of an
/// inventory and unequipped into it again leaves it as it was.
pub proof fn lemma_remove_then_add(m: Map<u64, usize>, item: u64, amount: nat)
    requires
        m.contains_key(item),
        amount <= m[item],
    ensures
        with_added(with_removed(m, item, amount), item, amount) == m,
{
    let removed = with_removed(m, item, amount);
    assert(count_in(removed, item) + amount == m[item]);
    assert(with_added(removed, item, amount) =~= m);
}

/// Moving an amount of an item from one inventory to another keeps the total
/// held of that item, and of every other item, across the two.
pub proof fn lemma_transfer_conserves(from: Map<u64, usize>, to: Map<u64, usize>, item: u64, amount: nat, k: u64)
    requires
        amount <= count_in(from, item),
        count_in(to, item) + amount <= usize::MAX,
    ensures
        count_in(with_removed(from, item, amount), k) + count_in(with_added(to, item, amount), k)
            == count_in(from, k) + count_in(to, k),
{
}

/// Moving everything from one inventory into another keeps the total held of
/// each item across the two, and leaves the source empty.
pub proof fn lemma_transfer_all_conserves(from: Map<u64, usize>, to: Map<u64, usize>, k: u64)
    requires
        from.contains_key(k) && to.contains_key(k) ==> from[k] + to[k] <= usize::MAX,
    ensures
        count_in(merged(to, from), k) + count_in(Map::<u64, usize>::empty(), k) == count_in(from, k)
            + count_in(to, k),
{
}

/// The asset path of the item named `name`
pub open spec fn item_key(name: Seq<char>) -> Seq<char> {
    "items/"@ + name + ".ron"@
}

/// The asset path of the item named `name`: `items/<name>.ron`
pub fn item_asset_key(name: &String) -> (r: String)
    ensures
        r@ == item_key(name@),
{
    let mut key = String::from_str("items/");
    key.append(name.as_str());
    key.append(".ron");
    key
}

/// Stocking an inventory holding `counts` in `occupied` of `cap` with the named
/// amounts of `entries`, in turn: the counts and occupied space after all of
/// them, or the error of the first that cannot be found or does not fit.
pub open spec fn stocked(
    counts: Map<u64, usize>,
    occupied: nat,
    cap: nat,
    entries: Seq<(String, usize)>,
    assets: ItemAssets,
    library: ItemLibrary,
) -> Result<(Map<u64, usize>, nat), InventoryError>
    decreases entries.len(),
{
    if entries.len() == 0 {
        Ok((counts, occupied))
    } else {
        match stocked(counts, occupied, cap, entries.drop_last(), assets, library) {
            Err(e) => Err(e),
            Ok((c, o)) => {
                let (name, amount) = entries.last();
                match library.find(item_key(name@)) {
                    None => Err(InventoryError::ItemNotFound),
                    Some(h) => match assets.lookup(h) {
                        None => Err(InventoryError::ItemNotFound),
                        Some(it) => if o + it.size * amount > cap {
                            Err(
                                InventoryError::NoSpaceLeft {
                                    overage: (o + it.size * amount - cap) as usize,
                                },
                            )
                        } else {
                            Ok((with_added(c, h, amount as nat), (o + it.size * amount) as nat))
                        },
                    },
                }
            },
        }
    }
}

/// Once stocking fails, stocking more entries fails the same way.
proof fn lemma_stocked_error_persists(
    counts: Map<u64, usize>,
    occupied: nat,
    cap: nat,
    entries: Seq<(String, usize)>,
    n: int,
    assets: ItemAssets,
    library: ItemLibrary,
)
    requires
        0 <= n <= entries.len(),
        stocked(counts, occupied, cap, entries.take(n), assets, library) is Err,
    ensures
        stocked(counts, occupied, cap, entries, assets, library) == stocked(
            counts,
            occupied,
            cap,
            entries.take(n),
            assets,
            library,
        ),
    decreases entries.len(),
{
    if n == entries.len() {
        assert(entries.take(n) =~= entries);
    } else {
        assert(entries.drop_last().take(n) =~= entries.take(n));
        lemma_stocked_error_persists(counts, occupied, cap, entries.drop_last(), n, assets, library);
    }
}

/// Stocking the entry `next` after `done` cannot overflow.
pub open spec fn stocking_step_in_range(
    done: Seq<(String, usize)>,
    next: (String, usize),
    counts: Map<u64, usize>,
    occupied: nat,
    cap: nat,
    assets: ItemAssets,
    library: ItemLibrary,
) -> bool {
    match stocked(counts, occupied, cap, done, assets, library) {
        Err(_) => true,
        Ok((c, o)) => match library.find(item_key(next.0@)) {
            None => true,
            Some(h) => match assets.lookup(h) {
                None => true,
                Some(it) => {
                    &&& it.size * next.1 <= usize::MAX
                    &&& o + it.size * next.1 <= usize::MAX
                    &&& o + it.size * next.1 <= cap ==> count_in(c, h) + next.1 <= usize::MAX
                },
            },
        },
    }
}

/// No step of stocking `entries` overflows.
pub open spec fn stocking_in_range(
    counts: Map<u64, usize>,
    occupied: nat,
    cap: nat,
    entries: Seq<(String, usize)>,
    assets: ItemAssets,
    library: ItemLibrary,
) -> bool {
    forall|i: int|
        0 <= i < entries.len() ==> stocking_step_in_range(
            entries.take(i),
            #[trigger] entries[i],
            counts,
            occupied,
            cap,
            assets,
            library,
        )
}

/// Holds item counts. Only `items` count towards the capacity; equipment does not.
pub struct Inventory {
    /// Maximum size of the inventory, determined by the craft
    capacity: usize,
    /// Spaces out of the capacity that are occupied by items
    space_occupied: usize,
    /// Item handle ids mapped to how many of that item are held
    items: CountMap,
}

impl Inventory {
    /// The occupied space never exceeds the capacity.
    #[verifier::type_invariant]
    spec fn space_within_capacity(self) -> bool {
        self.space_occupied <= self.capacity
    }

    /// The maximum space of this inventory
    pub closed spec fn cap(self) -> nat {
        self.capacity as nat
    }

    /// The space taken by the items held
    pub closed spec fn occupied(self) -> nat {
        self.space_occupied as nat
    }

    /// The items held: item handle ids mapped to their counts
    pub closed spec fn counts(self) -> Map<u64, usize> {
        count_map_contents(self.items)
    }

    /// The capacity and occupied space are machine integers.
    pub proof fn lemma_machine_bounds(self)
        ensures
            self.cap() <= usize::MAX,
            self.occupied() <= usize::MAX,
            forall|k: u64| #[trigger] self.count_of(k) <= usize::MAX,
    {
    }

    /// How many of `item` are held
    pub open spec fn count_of(self, item: u64) -> nat {
        count_in(self.counts(), item)
    }

    /// `size * amount` more space is available
    pub open spec fn fits(self, size: nat, amount: nat) -> bool {
        self.occupied() + size * amount <= self.cap()
    }

    /// At least `amount` of `item` is held, in an entry of its own
    pub open spec fn holds(self, item: u64, amount: nat) -> bool {
        self.counts().contains_key(item) && amount <= self.counts()[item]
    }

    /// Adding `amount` of an item of `size` to this inventory cannot overflow
    pub open spec fn can_add(self, item: u64, size: nat, amount: nat) -> bool {
        &&& size * amount <= usize::MAX
        &&& self.occupied() + size * amount <= usize::MAX
        &&& self.fits(size, amount) ==> self.count_of(item) + amount <= usize::MAX
    }

    /// Removing `amount` of an item of `size` from this inventory cannot underflow
    pub open spec fn can_remove(self, item: u64, size: nat, amount: nat) -> bool {
        self.holds(item, amount) ==> amount * size <= self.occupied()
    }

    /// Set the count stored for `item`
    fn store(&mut self, item: u64, n: usize)
        ensures
            final(self).cap() == old(self).cap(),
            final(self).occupied() == old(self).occupied(),
            final(self).counts() == old(self).counts().insert(item, n),
    {
        proof {
            use_type_invariant(&*self);
        }
        let mut items = CountMap::new();
        std::mem::swap(&mut items, &mut self.items);
        items.insert(item, n);
        self.items = items;
    }

    /// Drop the entry stored for `item`
    fn discard(&mut self, item: u64)
        ensures
            final(self).cap() == old(self).cap(),
            final(self).occupied() == old(self).occupied(),
            final(self).counts() == old(self).counts().remove(item),
    {
        proof {
            use_type_invariant(&*self);
        }
        let mut items = CountMap::new();
        std::mem::swap(&mut items, &mut self.items);
        items.remove(item);
        self.items = items;
    }

    /// An empty inventory that can hold anything
    pub fn max_capacity() -> (r: Self)
        ensures
            r.cap() == usize::MAX,
            r.occupied() == 0,
            r.counts() == Map::<u64, usize>::empty(),
    {
        Self { capacity: usize::MAX, space_occupied: 0, items: CountMap::new() }
    }

    /// How many of `item` are held
    pub fn quantity(&self, item: &u64) -> (r: usize)
        ensures
            r == self.count_of(*item),
    {
        match self.items.get(*item) {
            Some(n) => n,
            None => 0,
        }
    }

    /// The maximum space of this inventory
    pub fn capacity(&self) -> (r: usize)
        ensures
            r == self.cap(),
    {
        self.capacity
    }

    /// The space taken by the items held
    pub fn space_occupied(&self) -> (r: usize)
        ensures
            r == self.occupied(),
            r <= self.cap(),
    {
        proof {
            use_type_invariant(self);
        }
        self.space_occupied
    }

    /// The space still free
    pub fn space_remaining(&self) -> (r: usize)
        ensures
            r == self.cap() - self.occupied(),
    {
        proof {
            use_type_invariant(self);
        }
        self.capacity - self.space_occupied
    }

    /// Every item held with its count, each item once
    pub fn iter(&self) -> (r: Vec<(u64, usize)>)
        ensures
            lists_entries(r@, self.counts()),
    {
        self.items.entries()
    }

    /// An empty inventory of the given capacity
    pub fn with_capacity(capacity: usize) -> (r: Self)
        ensures
            r.cap() == capacity,
            r.occupied() == 0,
            r.counts() == Map::<u64, usize>::empty(),
    {
        Self { capacity, space_occupied: 0, items: CountMap::new() }
    }

    /// This inventory with `amount` of `item` added, where `retrieved` is the
    /// item's asset, if it was found
    pub fn with(self, item: u64, amount: usize, retrieved: Option<&Item>) -> (r: Result<
        Self,
        InventoryError,
    >)
        requires
            retrieved matches Some(it) ==> self.can_add(item, it.size as nat, amount as nat),
        ensures
            retrieved is None ==> r == Err::<Self, InventoryError>(InventoryError::ItemNotFound),
            retrieved matches Some(it) ==> {
                &&& !self.fits(it.size as nat, amount as nat) ==> r == Err::<
                    Self,
                    InventoryError,
                >(
                    InventoryError::NoSpaceLeft {
                        overage: (self.occupied() + it.size * amount - self.cap()) as usize,
                    },
                )
                &&& self.fits(it.size as nat, amount as nat) ==> (r matches Ok(inv) && inv.cap()
                    == self.cap() && inv.occupied() == self.occupied() + it.size * amount
                    && inv.counts() == with_added(self.counts(), item, amount as nat))
            },
    {
        match retrieved {
            None => Err(InventoryError::ItemNotFound),
            Some(it) => {
                let mut inv = self;
                match inv.add(item, it.size, amount) {
                    Ok(()) => Ok(inv),
                    Err(e) => Err(e),
                }
            },
        }
    }

    /// Add `amount` of an item of `size` to the inventory, or fail without
    /// change if there is not enough space
    pub fn add(&mut self, item: u64, size: usize, amount: usize) -> (r: Result<(), InventoryError>)
        requires
            old(self).can_add(item, size as nat, amount as nat),
        ensures
            final(self).cap() == old(self).cap(),
            r is Err <==> !old(self).fits(size as nat, amount as nat),
            r is Err ==> r == Err::<(), InventoryError>(
                InventoryError::NoSpaceLeft {
                    overage: (old(self).occupied() + size * amount - old(self).cap()) as usize,
                },
            ),
            r is Err ==> final(self).occupied() == old(self).occupied() && final(self).counts()
                == old(self).counts(),
            r is Ok ==> final(self).occupied() == old(self).occupied() + size * amount,
            r is Ok ==> final(self).counts() == with_added(old(self).counts(), item, amount as nat),
            final(self).occupied() <= final(self).cap(),
    {
        proof {
            use_type_invariant(&*self);
        }
        // Ensure we can handle the space
        let total_size = size * amount;
        if self.space_occupied + total_size > self.capacity {
            Err(InventoryError::NoSpaceLeft { overage: self.space_occupied + total_size - self.capacity })
        } else {
            // Track the occupied space so it need not be recalculated every frame
            self.space_occupied = self.space_occupied + total_size;
            // Add to the existing count of the item, or start one
            match self.items.get(item) {
                Some(existing_amount) => {
                    self.store(item, existing_amount + amount);
                },
                None => {
                    self.store(item, amount);
                },
            }
            Ok(())
        }
    }

    /// Remove `amount` of an item of `size`, or fail without change if fewer are held
    pub fn remove(&mut self, item: u64, size: usize, amount: usize) -> (r: Result<
        (),
        InventoryError,
    >)
        requires
            old(self).can_remove(item, size as nat, amount as nat),
        ensures
            final(self).cap() == old(self).cap(),
            r is Err <==> !old(self).holds(item, amount as nat),
            r is Err ==> r == Err::<(), InventoryError>(
                InventoryError::InsufficientItems {
                    want_to_remove: amount,
                    exists: old(self).count_of(item) as usize,
                },
            ),
            r is Err ==> final(self).occupied() == old(self).occupied() && final(self).counts()
                == old(self).counts(),
            r is Ok ==> final(self).occupied() == old(self).occupied() - amount * size,
            r is Ok ==> final(self).counts() == with_removed(
                old(self).counts(),
                item,
                amount as nat,
            ),
    {
        proof {
            use_type_invariant(&*self);
        }
        match self.items.get(item) {
            Some(existing_amount) => {
                // Ensure the existing amount covers the desired amount
                if amount > existing_amount {
                    return Err(
                        InventoryError::InsufficientItems {
                            want_to_remove: amount,
                            exists: existing_amount,
                        },
                    );
                }
                // Subtract from the inventory space
                self.space_occupied = self.space_occupied - amount * size;

                let new_amount = existing_amount - amount;
                if new_amount == 0 {
                    // Nothing left: remove the item from the inventory entirely
                    self.discard(item);
                } else {
                    self.store(item, new_amount);
                }
                Ok(())
            },
            None => {
                // No items exist in the inventory to remove
                Err(InventoryError::InsufficientItems { want_to_remove: amount, exists: 0 })
            },
        }
    }

    /// Whether no item is held
    pub fn is_empty(&self) -> (r: bool)
        ensures
            r <==> self.counts().dom() == Set::<u64>::empty(),
    {
        self.items.is_empty()
    }

    /// How many of `item` are held
    pub fn count(&self, item: u64) -> (r: usize)
        ensures
            r == self.count_of(item),
    {
        match self.items.get(item) {
            Some(n) => n,
            None => 0,
        }
    }

    /// Move `amount` of `item` from this inventory into `inventory`, where
    /// `retrieved` is the item's asset, if it was found. Fails without changing
    /// either inventory when the item is unknown, does not fit in `inventory`,
    /// or this inventory holds too few.
    pub fn transfer(
        &mut self,
        item: u64,
        inventory: &mut Inventory,
        amount: usize,
        retrieved: Option<&Item>,
    ) -> (r: Result<usize, InventoryError>)
        requires
            retrieved matches Some(it) ==> {
                &&& old(inventory).can_add(item, it.size as nat, amount as nat)
                &&& old(inventory).fits(it.size as nat, amount as nat) ==> old(self).can_remove(
                    item,
                    it.size as nat,
                    amount as nat,
                )
            },
        ensures
            final(self).cap() == old(self).cap(),
            final(inventory).cap() == old(inventory).cap(),
            retrieved is None ==> r == Err::<usize, InventoryError>(InventoryError::ItemNotFound),
            retrieved is Some && !old(inventory).fits(retrieved->0.size as nat, amount as nat) ==> r
                == Err::<usize, InventoryError>(
                InventoryError::NoSpaceLeft {
                    overage: (old(inventory).occupied() + retrieved->0.size * amount - old(inventory).cap()) as usize,
                },
            ),
            retrieved is Some && old(inventory).fits(retrieved->0.size as nat, amount as nat)
                && !old(self).holds(item, amount as nat) ==> r == Err::<usize, InventoryError>(
                InventoryError::InsufficientItems {
                    want_to_remove: amount,
                    exists: old(self).count_of(item) as usize,
                },
            ),
            retrieved is Some && old(inventory).fits(retrieved->0.size as nat, amount as nat)
                && old(self).holds(item, amount as nat) ==> r == Ok::<usize, InventoryError>(
                amount,
            ),
            // a failed move changes neither inventory
            r is Err ==> final(self).occupied() == old(self).occupied() && final(self).counts()
                == old(self).counts() && final(inventory).occupied() == old(inventory).occupied()
                && final(inventory).counts() == old(inventory).counts(),
            // a completed move takes the items from this inventory into the other
            r is Ok ==> final(self).occupied() == old(self).occupied() - amount * retrieved->0.size
                && final(self).counts() == with_removed(old(self).counts(), item, amount as nat),
            r is Ok ==> final(inventory).occupied() == old(inventory).occupied() + retrieved->0.size
                * amount && final(inventory).counts() == with_added(
                old(inventory).counts(),
                item,
                amount as nat,
            ),
    {
        let retrieved_item = match retrieved {
            Some(it) => it,
            None => {
                return Err(InventoryError::ItemNotFound);
            },
        };
        proof {
            use_type_invariant(&*inventory);
        }
        // Check that this inventory holds enough before anything moves
        let fits = retrieved_item.size * amount <= inventory.space_remaining();
        let held = match self.items.get(item) {
            Some(n) => amount <= n,
            None => false,
        };
        if fits && !held {
            return Err(
                InventoryError::InsufficientItems { want_to_remove: amount, exists: self.count(item) },
            );
        }
        match inventory.add(item, retrieved_item.size, amount) {
            Ok(()) => {},
            Err(e) => {
                return Err(e);
            },
        }
        match self.remove(item, retrieved_item.size, amount) {
            Ok(()) => {},
            Err(e) => {
                return Err(e);
            },
        }
        Ok(amount)
    }

    /// Move all items into another inventory, or fail without change if they
    /// do not fit in its remaining space
    pub fn transfer_all(&mut self, inventory: &mut Inventory) -> (r: Result<(), InventoryError>)
        requires
            old(self).occupied() <= old(inventory).cap() - old(inventory).occupied()
                ==> forall|k: u64|
                #![trigger old(self).counts().contains_key(k), old(inventory).counts().contains_key(k)]
                old(self).counts().contains_key(k) && old(inventory).counts().contains_key(k)
                    ==> old(self).counts()[k] + old(inventory).counts()[k] <= usize::MAX,
        ensures
            final(self).cap() == old(self).cap(),
            final(inventory).cap() == old(inventory).cap(),
            r is Err <==> old(self).occupied() > old(inventory).cap() - old(inventory).occupied(),
            r is Err ==> r == Err::<(), InventoryError>(
                InventoryError::NoSpaceLeft {
                    overage: (old(self).occupied() - (old(inventory).cap() - old(inventory).occupied())) as usize,
                },
            ),
            r is Err ==> final(self).occupied() == old(self).occupied() && final(self).counts()
                == old(self).counts() && final(inventory).occupied() == old(inventory).occupied()
                && final(inventory).counts() == old(inventory).counts(),
            r is Ok ==> final(self).occupied() == 0 && final(self).counts() == Map::<
                u64,
                usize,
            >::empty(),
            r is Ok ==> final(inventory).occupied() == old(inventory).occupied() + old(self).occupied(),
            r is Ok ==> final(inventory).counts() == merged(old(inventory).counts(), old(self).counts()),
    {
        proof {
            use_type_invariant(&*self);
            use_type_invariant(&*inventory);
        }
        // Short circuit if not enough space in the other inventory
        if self.space_occupied() > inventory.space_remaining() {
            return Err(
                InventoryError::NoSpaceLeft {
                    overage: self.space_occupied() - inventory.space_remaining(),
                },
            );
        }
        inventory.space_occupied = inventory.space_occupied + self.space_occupied;
        let ghost source = self.counts();
        let ghost target = inventory.counts();
        // Drain into the other inventory
        let drained = self.drain();
        proof {
            assert forall|k: u64|
                #![trigger source.contains_key(k), target.contains_key(k)]
                source.contains_key(k) && target.contains_key(k) implies source[k] + target[k]
                    <= usize::MAX by {
                assert(old(self).counts().contains_key(k) && old(inventory).counts().contains_key(k));
            }
        }
        let mut i: usize = 0;
        while i < drained.len()
            invariant
                0 <= i <= drained.len(),
                lists_entries(drained@, source),
                forall|k: u64|
                    #![trigger source.contains_key(k), target.contains_key(k)]
                    source.contains_key(k) && target.contains_key(k) ==> source[k] + target[k]
                        <= usize::MAX,
                inventory.cap() == old(inventory).cap(),
                inventory.occupied() == old(inventory).occupied() + old(self).occupied(),
                target == old(inventory).counts(),
                source == old(self).counts(),
                forall|k: u64|
                    #![trigger inventory.counts().contains_key(k)]
                    inventory.counts().contains_key(k) <==> (target.contains_key(k) || exists|j: int|
                        0 <= j < i && drained@[j].0 == k),
                forall|k: u64|
                    #![trigger count_in(inventory.counts(), k)]
                    count_in(inventory.counts(), k) == count_in(target, k) + (if exists|j: int|
                        0 <= j < i && drained@[j].0 == k {
                        count_in(source, k)
                    } else {
                        0
                    }),
            decreases drained.len() - i,
        {
            let (item, amount) = drained[i];
            proof {
                assert(source.contains_key(item));
                assert forall|j: int| 0 <= j < i implies drained@[j].0 != item by {
                    assert(drained@[j].0 != drained@[i as int].0);
                }
            }
            let existing = inventory.count(item);
            let ghost prev = inventory.counts();
            inventory.store(item, existing + amount);
            proof {
                let c = inventory.counts();
                assert forall|k: u64| #![trigger c.contains_key(k)]
                    c.contains_key(k) <==> (target.contains_key(k) || exists|j: int|
                        0 <= j < i + 1 && drained@[j].0 == k) by {
                    if k == item {
                        assert(drained@[i as int].0 == k);
                    } else {
                        if exists|j: int| 0 <= j < i + 1 && drained@[j].0 == k {
                            let j = choose|j: int| 0 <= j < i + 1 && drained@[j].0 == k;
                            assert(j != i);
                        }
                    }
                }
                assert forall|k: u64| #![trigger count_in(c, k)]
                    count_in(c, k) == count_in(target, k) + (if exists|j: int|
                        0 <= j < i + 1 && drained@[j].0 == k {
                        count_in(source, k)
                    } else {
                        0
                    }) by {
                    if k == item {
                        assert(drained@[i as int].0 == k);
                        assert(!exists|j: int| 0 <= j < i && drained@[j].0 == k);
                        assert(count_in(prev, k) == count_in(target, k));
                    } else {
                        assert(count_in(c, k) == count_in(prev, k));
                        if exists|j: int| 0 <= j < i + 1 && drained@[j].0 == k {
                            let j = choose|j: int| 0 <= j < i + 1 && drained@[j].0 == k;
                            assert(j != i);
                            assert(exists|j: int| 0 <= j < i && drained@[j].0 == k);
                        }
                    }
                }
            }
            i = i + 1;
        }
        proof {
            let c = inventory.counts();
            let m = merged(target, source);
            let n = drained@.len() as int;
            assert forall|k: u64| #![trigger m.contains_key(k)]
                m.contains_key(k) <==> c.contains_key(k) by {
                if source.contains_key(k) {
                    let j = choose|j: int| 0 <= j < n && #[trigger] drained@[j].0 == k;
                }
            }
            assert forall|k: u64| #![trigger m.contains_key(k)]
                m.contains_key(k) implies c[k] == m[k] by {
                assert(count_in(c, k) == count_in(target, k) + (if exists|j: int|
                    0 <= j < n && drained@[j].0 == k {
                    count_in(source, k)
                } else {
                    0
                }));
                if source.contains_key(k) {
                    let j = choose|j: int| 0 <= j < n && #[trigger] drained@[j].0 == k;
                    assert(exists|j: int| 0 <= j < n && drained@[j].0 == k);
                } else {
                    assert forall|j: int| 0 <= j < n implies drained@[j].0 != k by {
                        assert(source.contains_key(drained@[j].0));
                    }
                }
            }
            assert(c.dom() =~= m.dom());
            assert(c =~= m);
        }
        Ok(())
    }

    /// This inventory with each named amount added in turn, where each name is
    /// found in `library` under its asset path (`items/<name>.ron`) and its
    /// size in `assets`. Fails at the first name that cannot be found, or the
    /// first amount that does not fit. Like the keys of a map, the names of
    /// `entries` are all different.
    pub fn with_many_from_str(
        self,
        entries: &Vec<(String, usize)>,
        assets: &ItemAssets,
        library: &ItemLibrary,
    ) -> (r: Result<Self, InventoryError>)
        requires
            forall|a: int, b: int|
                0 <= a < b < entries@.len() ==> (#[trigger] entries@[a]).0@ != (
                #[trigger] entries@[b]).0@,
            stocking_in_range(
                self.counts(),
                self.occupied(),
                self.cap(),
                entries@,
                *assets,
                *library,
            ),
        ensures
            match stocked(self.counts(), self.occupied(), self.cap(), entries@, *assets, *library) {
                Ok((counts, occupied)) => r matches Ok(inv) && inv.cap() == self.cap()
                    && inv.counts() == counts && inv.occupied() == occupied,
                Err(e) => r == Err::<Self, InventoryError>(e),
            },
    {
        let mut inv = self;
        let ghost counts0 = self.counts();
        let ghost occupied0 = self.occupied();
        let mut i: usize = 0;
        proof {
            assert(entries@.take(0) =~= Seq::<(String, usize)>::empty());
        }
        while i < entries.len()
            invariant
                0 <= i <= entries@.len(),
                inv.cap() == self.cap(),
                counts0 == self.counts(),
                occupied0 == self.occupied(),
                stocking_in_range(counts0, occupied0, self.cap(), entries@, *assets, *library),
                stocked(counts0, occupied0, self.cap(), entries@.take(i as int), *assets, *library)
                    == Ok::<(Map<u64, usize>, nat), InventoryError>((inv.counts(), inv.occupied())),
            decreases entries@.len() - i,
        {
            proof {
                assert(entries@.take(i + 1).drop_last() =~= entries@.take(i as int));
                assert(entries@.take(i + 1).last() == entries@[i as int]);
            }
            let key = item_asset_key(&entries[i].0);
            let amount = entries[i].1;
            let handle = match library.get(key.as_str()) {
                Some(h) => h,
                None => {
                    proof {
                        lemma_stocked_error_persists(counts0, occupied0, self.cap(), entries@, i + 1, *assets, *library);
                    }
                    return Err(InventoryError::ItemNotFound);
                },
            };
            let retrieved_item = match assets.get(handle) {
                Some(it) => it,
                None => {
                    proof {
                        lemma_stocked_error_persists(counts0, occupied0, self.cap(), entries@, i + 1, *assets, *library);
                    }
                    return Err(InventoryError::ItemNotFound);
                },
            };
            proof {
                assert(stocking_step_in_range(
                    entries@.take(i as int),
                    entries@[i as int],
                    counts0,
                    occupied0,
                    self.cap(),
                    *assets,
                    *library,
                ));
            }
            match inv.add(handle, retrieved_item.size, amount) {
                Ok(()) => {},
                Err(e) => {
                    proof {
                        lemma_stocked_error_persists(counts0, occupied0, self.cap(), entries@, i + 1, *assets, *library);
                    }
                    return Err(e);
                },
            }
            i = i + 1;
        }
        proof {
            assert(entries@.take(entries@.len() as int) =~= entries@);
        }
        Ok(inv)
    }

    /// Empty the inventory, handing out every item held with its count
    pub fn drain(&mut self) -> (r: Vec<(u64, usize)>)
        ensures
            final(self).cap() == old(self).cap(),
            final(self).occupied() == 0,
            final(self).counts() == Map::<u64, usize>::empty(),
            lists_entries(r@, old(self).counts()),
    {
        self.space_occupied = 0;
        proof {
            use_type_invariant(&*self);
        }
        let mut items = CountMap::new();
        std::mem::swap(&mut items, &mut self.items);
        let drained = items.drain();
        self.items = items;
        drained
    }
}

impl Default for Inventory {
    fn default() -> (r: Self)
        ensures
            r.cap() == 64,
            r.occupied() == 0,
            r.counts() == Map::<u64, usize>::empty(),
    {
        Self { capacity: 64, space_occupied: 0, items: CountMap::new() }
    }
}

impl Clone for Inventory {
    fn clone(&self) -> (r: Self)
        ensures
            r.cap() == self.cap(),
            r.occupied() == self.occupied(),
            r.counts() == self.counts(),
    {
        proof {
            use_type_invariant(self);
        }
        Self {
            capacity: self.capacity,
            space_occupied: self.space_occupied,
            items: self.items.duplicate(),
        }
    }
}

/// Toss `quantity` of `item` overboard from `inventory`, where `retrieved` is
/// the item's asset: they are taken out and handed back in a new chest
/// inventory of unlimited capacity. Fails without change when the item is
/// unknown or too few are held.
pub fn toss_overboard(
    inventory: &mut Inventory,
    item: u64,
    quantity: usize,
    retrieved: Option<&Item>,
) -> (r: Result<Inventory, InventoryError>)
    requires
        retrieved matches Some(it) ==> old(inventory).can_remove(
            item,
            it.size as nat,
            quantity as nat,
        ) && it.size * quantity <= usize::MAX,
    ensures
        final(inventory).cap() == old(inventory).cap(),
        retrieved is None ==> r == Err::<Inventory, InventoryError>(InventoryError::ItemNotFound),
        retrieved is Some && !old(inventory).holds(item, quantity as nat) ==> r == Err::<
            Inventory,
            InventoryError,
        >(
            InventoryError::InsufficientItems {
                want_to_remove: quantity,
                exists: old(inventory).count_of(item) as usize,
            },
        ),
        r is Err ==> final(inventory).occupied() == old(inventory).occupied()
            && final(inventory).counts() == old(inventory).counts(),
        retrieved is Some && old(inventory).holds(item, quantity as nat) ==> (r matches Ok(chest) && {
            &&& chest.cap() == usize::MAX
            &&& chest.occupied() == retrieved->0.size * quantity
            &&& chest.counts() == Map::<u64, usize>::empty().insert(item, quantity)
            &&& final(inventory).occupied() == old(inventory).occupied() - quantity
                * retrieved->0.size
            &&& final(inventory).counts() == with_removed(
                old(inventory).counts(),
                item,
                quantity as nat,
            )
            // nothing is lost: what left the inventory is in the chest
            &&& final(inventory).count_of(item) + chest.count_of(item) == old(inventory).count_of(
                item,
            )
        }),
{
    let retrieved_item = match retrieved {
        Some(it) => it,
        None => {
            return Err(InventoryError::ItemNotFound);
        },
    };
    match inventory.remove(item, retrieved_item.size, quantity) {
        Ok(()) => {},
        Err(e) => {
            return Err(e);
        },
    }
    let chest = Inventory::max_capacity();
    proof {
        assert(count_in(Map::<u64, usize>::empty(), item) == 0);
    }
    match chest.with(item, quantity, retrieved) {
        Ok(inv) => {
            proof {
                assert(with_added(Map::<u64, usize>::empty(), item, quantity as nat) =~= Map::<
                    u64,
                    usize,
                >::empty().insert(item, quantity));
            }
            Ok(inv)
        },
        Err(e) => Err(e),
    }
}

} // verus!

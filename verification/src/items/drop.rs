use vstd::prelude::*;

use crate::collections::{drop_map_contents, lists_entries, DropMap};
use crate::error::InventoryError;
use crate::items::assets::ItemLibrary;
use crate::items::inventory::{item_key, with_added};
use crate::items::{Inventory, ItemAssets};
use crate::text::{file_stem, file_stem_of, last_dot, segment_start, stem_of, trim_path_end, file_name_of};
use crate::rng::{in_range, one_in};

verus! {

/// Describes the chance that certain items will be dropped
#[derive(Debug, Clone, Copy, PartialEq, Eq, Hash)]
pub struct DropRate {
    /// The minimum amount of items that can drop
    pub min: usize,
    /// The maximum amount of items that can drop
    pub max: usize,
    /// 1 in X chance to drop. 1 will always drop.
    pub d: usize,
}

impl DropRate {
    /// The rate can be rolled: its chance is drawn as one in `d as u32`, which
    /// must not be 0, and its amounts form a range
    pub open spec fn rollable(self) -> bool {
        &&& self.d as u32 >= 1
        &&& self.min <= self.max
    }
}

/// Items to drop upon destruction, by item handle id
pub struct Drops(DropMap);

/// Items to drop, by item name, as they are written in assets and saves
#[derive(Debug, Clone, Default)]
pub struct DropsBuilder(pub Vec<(String, DropRate)>);

impl Drops {
    /// The drop rate of each item
    pub closed spec fn rates(self) -> Map<u64, DropRate> {
        drop_map_contents(self.0)
    }

    /// No drops
    pub fn new() -> (r: Self)
        ensures
            r.rates() == Map::<u64, DropRate>::empty(),
    {
        Drops(DropMap::new())
    }

    /// Set the drop rate of `item`, replacing the one it had
    pub fn insert(&mut self, item: u64, rate: DropRate)
        ensures
            final(self).rates() == old(self).rates().insert(item, rate),
    {
        self.0.insert(item, rate);
    }

    /// Every item with its drop rate, each item once, in the map's own order
    pub fn entries(&self) -> (r: Vec<(u64, DropRate)>)
        ensures
            lists_entries(r@, self.rates()),
    {
        self.0.entries()
    }

    /// Roll the drops of a destroyed entity into a fresh default inventory,
    /// where `assets` holds the items' assets. Each item drops with its
    /// chance, and a dropped item is drawn an amount between its minimum and
    /// maximum, inclusive; the dropped items are then put in the chest as
    /// [`fill_chest`] does.
    pub fn roll(&self, assets: &ItemAssets) -> (r: Result<Inventory, InventoryError>)
        requires
            forall|k: u64| #[trigger] self.rates().contains_key(k) ==> self.rates()[k].rollable(),
        ensures
            exists|entries: Seq<(u64, DropRate)>, dropped: Seq<bool>, amounts: Seq<usize>|
                #![trigger rolled_from(entries, dropped, amounts)]
                {
                    &&& lists_entries(entries, self.rates())
                    &&& dropped.len() == entries.len()
                    &&& amounts.len() == entries.len()
                    &&& forall|i: int|
                        0 <= i < entries.len() && #[trigger] entries[i].1.d as u32 == 1 ==> dropped[i]
                    &&& forall|i: int|
                        0 <= i < entries.len() && #[trigger] dropped[i] ==> entries[i].1.min
                            <= amounts[i] <= entries[i].1.max
                    &&& chest_of(r, filled(rolled_from(entries, dropped, amounts), *assets))
                },
    {
        let entries = self.0.entries();
        let mut dropped: Vec<bool> = Vec::new();
        let mut amounts: Vec<usize> = Vec::new();
        // Each item is rolled in turn: first whether it drops, then how many;
        // an item that does not drop is drawn no amount
        let mut i: usize = 0;
        while i < entries.len()
            invariant
                0 <= i <= entries@.len(),
                lists_entries(entries@, self.rates()),
                forall|k: u64| #[trigger] self.rates().contains_key(k) ==> self.rates()[k].rollable(),
                dropped@.len() == i,
                amounts@.len() == i,
                forall|j: int| 0 <= j < i && #[trigger] entries@[j].1.d as u32 == 1 ==> dropped@[j],
                forall|j: int|
                    0 <= j < i && #[trigger] dropped@[j] ==> entries@[j].1.min <= amounts@[j]
                        <= entries@[j].1.max,
            decreases entries@.len() - i,
        {
            let (item, rate) = entries[i];
            assert(self.rates().contains_key(item));
            let drops = one_in(rate.d as u32);
            let amount = if drops {
                in_range(rate.min, rate.max)
            } else {
                rate.min
            };
            dropped.push(drops);
            amounts.push(amount);
            i = i + 1;
        }
        let rolled = select_drops(&entries, &dropped, &amounts);
        proof {
            lemma_rolled_members(entries@, dropped@, amounts@, entries@.len() as int);
            assert(rolled_prefix(entries@, dropped@, amounts@, entries@.len() as int) == rolled@);
        }
        fill_chest(&rolled, assets)
    }
}

/// The first `n` entries that dropped, each with its drawn amount, in order.
pub open spec fn rolled_prefix(
    entries: Seq<(u64, DropRate)>,
    dropped: Seq<bool>,
    amounts: Seq<usize>,
    n: int,
) -> Seq<(u64, usize)>
    decreases n,
{
    if n <= 0 {
        Seq::empty()
    } else {
        let rest = rolled_prefix(entries, dropped, amounts, n - 1);
        if dropped[n - 1] {
            rest.push((entries[n - 1].0, amounts[n - 1]))
        } else {
            rest
        }
    }
}

/// The items of `entries` whose draw `dropped` succeeded, each with the
/// amount drawn for it in `amounts`, in order.
pub open spec fn rolled_from(
    entries: Seq<(u64, DropRate)>,
    dropped: Seq<bool>,
    amounts: Seq<usize>,
) -> Seq<(u64, usize)> {
    rolled_prefix(entries, dropped, amounts, entries.len() as int)
}

/// `x` is one of the first `n` entries that dropped, with its amount.
pub open spec fn dropped_entry(
    entries: Seq<(u64, DropRate)>,
    dropped: Seq<bool>,
    amounts: Seq<usize>,
    n: int,
    x: (u64, usize),
) -> bool {
    exists|i: int| 0 <= i < n && dropped[i] && x == (#[trigger] entries[i].0, amounts[i])
}

/// Every rolled item is an entry that dropped, with its amount, and no item
/// is rolled twice when the entries list each item once.
pub proof fn lemma_rolled_members(
    entries: Seq<(u64, DropRate)>,
    dropped: Seq<bool>,
    amounts: Seq<usize>,
    n: int,
)
    requires
        0 <= n <= entries.len(),
        dropped.len() == entries.len(),
        amounts.len() == entries.len(),
    ensures
        forall|j: int|
            0 <= j < rolled_prefix(entries, dropped, amounts, n).len() ==> dropped_entry(
                entries,
                dropped,
                amounts,
                n,
                #[trigger] rolled_prefix(entries, dropped, amounts, n)[j],
            ),
        (forall|a: int, b: int| 0 <= a < b < n ==> entries[a].0 != entries[b].0) ==> forall|
            a: int,
            b: int,
        |
            0 <= a < b < rolled_prefix(entries, dropped, amounts, n).len() ==> rolled_prefix(
                entries,
                dropped,
                amounts,
                n,
            )[a].0 != rolled_prefix(entries, dropped, amounts, n)[b].0,
    decreases n,
{
    if n > 0 {
        lemma_rolled_members(entries, dropped, amounts, n - 1);
        let rest = rolled_prefix(entries, dropped, amounts, n - 1);
        let all = rolled_prefix(entries, dropped, amounts, n);
        assert forall|j: int| 0 <= j < all.len() implies dropped_entry(
            entries,
            dropped,
            amounts,
            n,
            #[trigger] all[j],
        ) by {
            if j < rest.len() {
                assert(all[j] == rest[j]);
                assert(dropped_entry(entries, dropped, amounts, n - 1, rest[j]));
                let i = choose|i: int|
                    0 <= i < n - 1 && dropped[i] && rest[j] == (#[trigger] entries[i].0, amounts[i]);
                assert(all[j] == (entries[i].0, amounts[i]));
            } else {
                assert(all[j] == (entries[n - 1].0, amounts[n - 1]));
            }
        }
        if forall|a: int, b: int| 0 <= a < b < n ==> entries[a].0 != entries[b].0 {
            assert forall|a: int, b: int| 0 <= a < b < all.len() implies all[a].0 != all[b].0 by {
                if b < rest.len() {
                    assert(all[a] == rest[a] && all[b] == rest[b]);
                } else {
                    assert(all[b] == (entries[n - 1].0, amounts[n - 1]));
                    assert(all[a] == rest[a]);
                    assert(dropped_entry(entries, dropped, amounts, n - 1, rest[a]));
                    let i = choose|i: int|
                        0 <= i < n - 1 && dropped[i] && rest[a] == (#[trigger] entries[i].0, amounts[i]);
                    assert(entries[i].0 != entries[n - 1].0);
                }
            }
        }
    }
}

/// An entry whose draw succeeded is among the first `n` rolled, with its
/// drawn amount.
proof fn lemma_rolled_includes(
    entries: Seq<(u64, DropRate)>,
    dropped: Seq<bool>,
    amounts: Seq<usize>,
    n: int,
    i: int,
)
    requires
        0 <= i < n <= entries.len(),
        dropped.len() == entries.len(),
        amounts.len() == entries.len(),
        dropped[i],
    ensures
        rolled_prefix(entries, dropped, amounts, n).contains((entries[i].0, amounts[i])),
    decreases n,
{
    let rest = rolled_prefix(entries, dropped, amounts, n - 1);
    let all = rolled_prefix(entries, dropped, amounts, n);
    if i < n - 1 {
        lemma_rolled_includes(entries, dropped, amounts, n - 1, i);
        let j = choose|j: int| 0 <= j < rest.len() && rest[j] == (entries[i].0, amounts[i]);
        if dropped[n - 1] {
            assert(all[j] == rest[j]);
        }
    } else {
        assert(all[all.len() - 1] == (entries[i].0, amounts[i]));
    }
}

/// Whether an item drops follows its own draw, whatever its chance: with
/// the items listed once, an item is rolled into the chest exactly when its
/// draw succeeded, and then with the amount drawn for it.
pub proof fn lemma_drop_follows_draw(
    entries: Seq<(u64, DropRate)>,
    dropped: Seq<bool>,
    amounts: Seq<usize>,
    i: int,
)
    requires
        0 <= i < entries.len(),
        dropped.len() == entries.len(),
        amounts.len() == entries.len(),
        forall|a: int, b: int| 0 <= a < b < entries.len() ==> entries[a].0 != entries[b].0,
    ensures
        dropped[i] ==> rolled_from(entries, dropped, amounts).contains((entries[i].0, amounts[i])),
        (exists|j: int|
            0 <= j < rolled_from(entries, dropped, amounts).len() && #[trigger] rolled_from(
                entries,
                dropped,
                amounts,
            )[j].0 == entries[i].0) <==> dropped[i],
{
    let n = entries.len() as int;
    let rolled = rolled_from(entries, dropped, amounts);
    lemma_rolled_members(entries, dropped, amounts, n);
    if dropped[i] {
        lemma_rolled_includes(entries, dropped, amounts, n, i);
        let j = choose|j: int| 0 <= j < rolled.len() && rolled[j] == (entries[i].0, amounts[i]);
        assert(rolled[j].0 == entries[i].0);
    } else {
        assert forall|j: int| 0 <= j < rolled.len() implies #[trigger] rolled[j].0 != entries[i].0 by {
            assert(dropped_entry(entries, dropped, amounts, n, rolled[j]));
            let t = choose|t: int|
                0 <= t < n && dropped[t] && rolled[j] == (#[trigger] entries[t].0, amounts[t]);
            if rolled[j].0 == entries[i].0 {
                assert(t != i);
                if t < i {
                    assert(entries[t].0 != entries[i].0);
                } else {
                    assert(entries[i].0 != entries[t].0);
                }
            }
        }
    }
}

/// The items of `entries` whose draw succeeded, each with the amount drawn
/// for it, in order: what a roll of drops puts in the chest, once drawn
pub fn select_drops(entries: &Vec<(u64, DropRate)>, dropped: &Vec<bool>, amounts: &Vec<usize>) -> (r:
    Vec<(u64, usize)>)
    requires
        dropped@.len() == entries@.len(),
        amounts@.len() == entries@.len(),
    ensures
        r@ == rolled_from(entries@, dropped@, amounts@),
{
    let mut out: Vec<(u64, usize)> = Vec::new();
    let mut i: usize = 0;
    while i < entries.len()
        invariant
            0 <= i <= entries@.len(),
            dropped@.len() == entries@.len(),
            amounts@.len() == entries@.len(),
            out@ == rolled_prefix(entries@, dropped@, amounts@, i as int),
        decreases entries@.len() - i,
    {
        if dropped[i] {
            out.push((entries[i].0, amounts[i]));
        }
        i = i + 1;
    }
    out
}

/// Putting the dropped items `rolled`, each with its amount, into an empty
/// chest of capacity 64 in turn: its counts and occupied space, or the error
/// of the first item that has no asset or does not fit. An amount whose
/// space is beyond `usize` is reported with the overage `usize::MAX`.
pub open spec fn filled(rolled: Seq<(u64, usize)>, assets: ItemAssets) -> Result<
    (Map<u64, usize>, nat),
    InventoryError,
>
    decreases rolled.len(),
{
    if rolled.len() == 0 {
        Ok((Map::empty(), 0))
    } else {
        match filled(rolled.drop_last(), assets) {
            Err(e) => Err(e),
            Ok((counts, occupied)) => {
                let (item, amount) = rolled.last();
                match assets.lookup(item) {
                    None => Err(InventoryError::ItemNotFound),
                    Some(it) => if occupied + it.size * amount > 64 {
                        Err(
                            InventoryError::NoSpaceLeft {
                                overage: if it.size * amount <= usize::MAX {
                                    (occupied + it.size * amount - 64) as usize
                                } else {
                                    usize::MAX
                                },
                            },
                        )
                    } else {
                        Ok((with_added(counts, item, amount as nat), (occupied + it.size * amount) as nat))
                    },
                }
            },
        }
    }
}

/// `r` is the chest that filling gives: an inventory of capacity 64 with
/// the counts and occupied space of `filling`, or its error.
pub open spec fn chest_of(
    r: Result<Inventory, InventoryError>,
    filling: Result<(Map<u64, usize>, nat), InventoryError>,
) -> bool {
    match filling {
        Ok((counts, occupied)) => r matches Ok(inv) && inv.cap() == 64 && inv.counts() == counts
            && inv.occupied() == occupied,
        Err(e) => r == Err::<Inventory, InventoryError>(e),
    }
}

/// Once filling a chest fails, filling it with more items fails the same way.
proof fn lemma_filled_error_persists(rolled: Seq<(u64, usize)>, n: int, assets: ItemAssets)
    requires
        0 <= n <= rolled.len(),
        filled(rolled.take(n), assets) is Err,
    ensures
        filled(rolled, assets) == filled(rolled.take(n), assets),
    decreases rolled.len(),
{
    if n == rolled.len() {
        assert(rolled.take(n) =~= rolled);
    } else {
        assert(rolled.drop_last().take(n) =~= rolled.take(n));
        lemma_filled_error_persists(rolled.drop_last(), n, assets);
    }
}

/// Put the dropped items `rolled`, each with the amount drawn for it, into a
/// fresh default inventory in turn, where `assets` holds the items' assets.
/// Fails at the first item that has no asset, or the first amount that does
/// not fit.
pub fn fill_chest(rolled: &Vec<(u64, usize)>, assets: &ItemAssets) -> (r: Result<
    Inventory,
    InventoryError,
>)
    requires
        forall|a: int, b: int| 0 <= a < b < rolled@.len() ==> rolled@[a].0 != rolled@[b].0,
    ensures
        chest_of(r, filled(rolled@, *assets)),
{
    let mut inv = Inventory::default();
    let mut i: usize = 0;
    proof {
        assert(rolled@.take(0) =~= Seq::<(u64, usize)>::empty());
        assert(inv.counts() =~= Map::<u64, usize>::empty());
    }
    while i < rolled.len()
        invariant
            0 <= i <= rolled@.len(),
            forall|a: int, b: int| 0 <= a < b < rolled@.len() ==> rolled@[a].0 != rolled@[b].0,
            inv.cap() == 64,
            filled(rolled@.take(i as int), *assets) == Ok::<(Map<u64, usize>, nat), InventoryError>(
                (inv.counts(), inv.occupied()),
            ),
            forall|k: u64| #[trigger] inv.counts().contains_key(k) ==> exists|j: int|
                0 <= j < i && rolled@[j].0 == k,
        decreases rolled@.len() - i,
    {
        let (item, amount) = rolled[i];
        proof {
            assert(rolled@.take(i + 1).drop_last() =~= rolled@.take(i as int));
            assert(rolled@.take(i + 1).last() == rolled@[i as int]);
            inv.lemma_machine_bounds();
            assert(!inv.counts().contains_key(item)) by {
                if inv.counts().contains_key(item) {
                    let j = choose|j: int| 0 <= j < i && rolled@[j].0 == item;
                    assert(rolled@[j].0 != rolled@[i as int].0);
                }
            }
        }
        let retrieved_item = match assets.get(item) {
            Some(it) => it,
            None => {
                proof {
                    lemma_filled_error_persists(rolled@, i + 1, *assets);
                }
                return Err(InventoryError::ItemNotFound);
            },
        };
        proof {
            assert(rolled@[i as int].0 == item);
            assert(assets.lookup(item) == Some(*retrieved_item));
        }
        // The space the amount takes, refused when it is beyond what is left
        let space = match retrieved_item.size.checked_mul(amount) {
            Some(space) => space,
            None => {
                proof {
                    lemma_filled_error_persists(rolled@, i + 1, *assets);
                }
                return Err(InventoryError::NoSpaceLeft { overage: usize::MAX });
            },
        };
        let left = 64 - inv.space_occupied();
        if space > left {
            proof {
                lemma_filled_error_persists(rolled@, i + 1, *assets);
            }
            return Err(InventoryError::NoSpaceLeft { overage: space - left });
        }
        match inv.add(item, retrieved_item.size, amount) {
            Ok(()) => {},
            Err(e) => {
                return Err(e);
            },
        }
        i = i + 1;
    }
    proof {
        assert(rolled@.take(rolled@.len() as int) =~= rolled@);
    }
    Ok(inv)
}

/// The drop rates of `entries` whose item names are found in `library`, by
/// item handle id; a later entry for an item replaces an earlier one.
pub open spec fn resolved(entries: Seq<(String, DropRate)>, library: ItemLibrary) -> Map<
    u64,
    DropRate,
>
    decreases entries.len(),
{
    if entries.len() == 0 {
        Map::empty()
    } else {
        let rest = resolved(entries.drop_last(), library);
        match library.find(item_key(entries.last().0@)) {
            Some(h) => rest.insert(h, entries.last().1),
            None => rest,
        }
    }
}

/// The name under which the item `handle` is saved: the stem of its asset path.
pub open spec fn saved_name(library: ItemLibrary, handle: u64) -> Seq<char> {
    file_stem_of(library.path_of(handle)->0)->0
}

impl DropsBuilder {
    /// The drops of the named items that `library` holds, each under its
    /// handle; names it does not hold are left out
    pub fn resolve(&self, library: &ItemLibrary) -> (r: Drops)
        ensures
            r.rates() == resolved(self.0@, *library),
    {
        let mut map = DropMap::new();
        let mut i: usize = 0;
        while i < self.0.len()
            invariant
                0 <= i <= self.0@.len(),
                drop_map_contents(map) == resolved(self.0@.take(i as int), *library),
            decreases self.0@.len() - i,
        {
            proof {
                assert(self.0@.take(i + 1).drop_last() =~= self.0@.take(i as int));
            }
            let (name, rate) = &self.0[i];
            match library.item(name.as_str()) {
                Some(handle) => {
                    map.insert(handle, *rate);
                },
                None => {},
            }
            i = i + 1;
        }
        proof {
            assert(self.0@.take(self.0@.len() as int) =~= self.0@);
        }
        Drops(map)
    }

    /// The drops of the named items, each under its handle in `library`,
    /// which holds every name
    pub fn into_output(self, library: &ItemLibrary) -> (r: Drops)
        requires
            forall|i: int|
                0 <= i < self.0@.len() ==> #[trigger] library.find(item_key(self.0@[i].0@)) is Some,
        ensures
            r.rates() == resolved(self.0@, *library),
    {
        self.resolve(library)
    }

    /// The drops written by item name for saving: each item under the stem
    /// of the asset path it was loaded from, in the map's own order
    pub fn from_output(output: &Drops, library: &ItemLibrary) -> (r: Self)
        requires
            forall|k: u64|
                #[trigger] output.rates().contains_key(k) ==> library.path_of(k) is Some
                    && file_stem_of(library.path_of(k)->0) is Some,
        ensures
            exists|entries: Seq<(u64, DropRate)>|
                #![trigger lists_entries(entries, output.rates())]
                lists_entries(entries, output.rates()) && r.0@.len() == entries.len() && forall|
                    i: int,
                |
                    0 <= i < entries.len() ==> #[trigger] r.0@[i].0@ == saved_name(
                        *library,
                        entries[i].0,
                    ) && r.0@[i].1 == entries[i].1,
    {
        let entries = output.0.entries();
        let mut out: Vec<(String, DropRate)> = Vec::new();
        let mut i: usize = 0;
        while i < entries.len()
            invariant
                0 <= i <= entries@.len(),
                lists_entries(entries@, output.rates()),
                forall|k: u64|
                    #[trigger] output.rates().contains_key(k) ==> library.path_of(k) is Some
                        && file_stem_of(library.path_of(k)->0) is Some,
                out@.len() == i,
                forall|j: int|
                    0 <= j < i ==> #[trigger] out@[j].0@ == saved_name(*library, entries@[j].0)
                        && out@[j].1 == entries@[j].1,
            decreases entries@.len() - i,
        {
            let (handle, rate) = entries[i];
            assert(output.rates().contains_key(handle));
            let path = library.path(handle).unwrap();
            let name = file_stem(path.as_str()).unwrap();
            out.push((name, rate));
            i = i + 1;
        }
        DropsBuilder(out)
    }
}

/// The separator search of a path that ends in `a`, whose last character is
/// a separator, followed by `b`, which holds none, stops at the end of `a`.
proof fn lemma_segment_start_after(a: Seq<char>, b: Seq<char>)
    requires
        a.len() > 0,
        a.last() == '/',
        forall|i: int| 0 <= i < b.len() ==> b[i] != '/',
    ensures
        segment_start(a + b) == a.len(),
    decreases b.len(),
{
    if b.len() == 0 {
        assert(a + b =~= a);
    } else {
        assert((a + b).drop_last() =~= a + b.drop_last());
        assert((a + b).last() == b.last());
        lemma_segment_start_after(a, b.drop_last());
    }
}

/// The stem of the asset path of an item whose name holds no separator is
/// its name.
pub proof fn lemma_item_key_stem(name: Seq<char>)
    requires
        name.len() > 0,
        forall|i: int| 0 <= i < name.len() ==> name[i] != '/',
    ensures
        file_stem_of(item_key(name)) == Some(name),
{
    reveal_strlit("items/");
    reveal_strlit(".ron");
    let dir = "items/"@;
    let ext = ".ron"@;
    let p = item_key(name);
    assert(p =~= dir + (name + ext));
    assert(p.last() == 'n');
    assert(trim_path_end(p) == p);
    assert forall|i: int| 0 <= i < (name + ext).len() implies (name + ext)[i] != '/' by {
        if i >= name.len() {
            assert((name + ext)[i] == ext[i - name.len()]);
        }
    }
    lemma_segment_start_after(dir, name + ext);
    let file = name + ext;
    assert(p.subrange(segment_start(p), p.len() as int) =~= file);
    assert(file.len() >= 5);
    assert(file != seq!['.', '.']);
    assert(file_name_of(p) == Some(file));
    // the final dot is the one of the extension
    let s3 = file.drop_last();
    let s2 = s3.drop_last();
    let s1 = s2.drop_last();
    assert(file.last() == 'n');
    assert(s3.last() == 'o');
    assert(s2.last() == 'r');
    assert(s1.last() == '.');
    assert(s1.len() == name.len() + 1);
    assert(last_dot(s1) == name.len());
    assert(last_dot(s2) == last_dot(s1));
    assert(last_dot(s3) == last_dot(s2));
    assert(last_dot(file) == last_dot(s3));
    assert(file.take(name.len() as int) =~= name);
    assert(stem_of(file) == name);
}

/// An item saved in drops by the stem of its asset path, `items/<name>.ron`,
/// is found again under that name when loaded.
pub proof fn lemma_saved_drop_name_round_trip(library: ItemLibrary, handle: u64, name: Seq<char>)
    requires
        library.path_of(handle) == Some(item_key(name)),
        library.find(item_key(name)) == Some(handle),
        name.len() > 0,
        forall|i: int| 0 <= i < name.len() ==> name[i] != '/',
    ensures
        saved_name(library, handle) == name,
        library.find(item_key(saved_name(library, handle))) == Some(handle),
{
    lemma_item_key_stem(name);
}

/// Item `k` is found again under the name it is saved by: the stem of its
/// asset path (so for every item loaded from `items/<name>.ron` with a name
/// without separators, as `lemma_saved_drop_name_round_trip` shows).
pub open spec fn saved_by_name(library: ItemLibrary, k: u64) -> bool {
    library.find(item_key(saved_name(library, k))) == Some(k)
}

/// The first `n` of the saved entries load into the rates of the first `n`
/// listed items.
proof fn lemma_drops_round_trip_prefix(
    rates: Map<u64, DropRate>,
    entries: Seq<(u64, DropRate)>,
    saved: Seq<(String, DropRate)>,
    library: ItemLibrary,
    n: int,
)
    requires
        lists_entries(entries, rates),
        saved.len() == entries.len(),
        forall|i: int|
            0 <= i < entries.len() ==> #[trigger] saved[i].0@ == saved_name(library, entries[i].0)
                && saved[i].1 == entries[i].1,
        forall|k: u64| #[trigger] rates.contains_key(k) ==> saved_by_name(library, k),
        0 <= n <= entries.len(),
    ensures
        resolved(saved.take(n), library) == Map::new(
            |k: u64| exists|i: int| 0 <= i < n && #[trigger] entries[i].0 == k,
            |k: u64| rates[k],
        ),
    decreases n,
{
    let target = Map::new(
        |k: u64| exists|i: int| 0 <= i < n && #[trigger] entries[i].0 == k,
        |k: u64| rates[k],
    );
    if n == 0 {
        assert(resolved(saved.take(0), library) =~= target);
    } else {
        lemma_drops_round_trip_prefix(rates, entries, saved, library, n - 1);
        let before = Map::new(
            |k: u64| exists|i: int| 0 <= i < n - 1 && #[trigger] entries[i].0 == k,
            |k: u64| rates[k],
        );
        let h = entries[n - 1].0;
        assert(rates.contains_key(h));
        assert(saved_by_name(library, h));
        assert(saved.take(n).drop_last() =~= saved.take(n - 1));
        assert(saved.take(n).last() == saved[n - 1]);
        assert(saved[n - 1].0@ == saved_name(library, h));
        assert(resolved(saved.take(n), library) == before.insert(h, entries[n - 1].1));
        assert(entries[n - 1].1 == rates[h]);
        assert forall|k: u64| #[trigger] target.contains_key(k) <==> before.insert(h, entries[n - 1].1).contains_key(k) by {
            if target.contains_key(k) && k != h {
                let i = choose|i: int| 0 <= i < n && #[trigger] entries[i].0 == k;
                assert(i != n - 1);
                assert(before.contains_key(k));
            }
            if before.contains_key(k) {
                let i = choose|i: int| 0 <= i < n - 1 && #[trigger] entries[i].0 == k;
                assert(target.contains_key(k));
            }
            if k == h {
                assert(entries[n - 1].0 == k);
                assert(target.contains_key(k));
            }
        }
        assert(resolved(saved.take(n), library) =~= target);
    }
}

/// Drops saved by item name and loaded again keep the same drop rate for the
/// same items, when every dropped item is found again under the stem of its
/// asset path.
pub proof fn lemma_drops_round_trip(
    rates: Map<u64, DropRate>,
    entries: Seq<(u64, DropRate)>,
    saved: Seq<(String, DropRate)>,
    library: ItemLibrary,
)
    requires
        lists_entries(entries, rates),
        saved.len() == entries.len(),
        forall|i: int|
            0 <= i < entries.len() ==> #[trigger] saved[i].0@ == saved_name(library, entries[i].0)
                && saved[i].1 == entries[i].1,
        forall|k: u64| #[trigger] rates.contains_key(k) ==> saved_by_name(library, k),
    ensures
        resolved(saved, library) == rates,
{
    lemma_drops_round_trip_prefix(rates, entries, saved, library, entries.len() as int);
    assert(saved.take(entries.len() as int) =~= saved);
    let target = Map::new(
        |k: u64| exists|i: int| 0 <= i < entries.len() && #[trigger] entries[i].0 == k,
        |k: u64| rates[k],
    );
    assert forall|k: u64| #[trigger] target.contains_key(k) <==> rates.contains_key(k) by {
        if target.contains_key(k) {
            let i = choose|i: int| 0 <= i < entries.len() && #[trigger] entries[i].0 == k;
            assert(rates.contains_key(entries[i].0));
        }
    }
    assert(target =~= rates);
}

} // verus!

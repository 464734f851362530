//! What a spawned creature or building is given

use vstd::prelude::*;

use bevy_turborand::prelude::GlobalRng;

use crate::items::assets::ItemLibrary;
use crate::items::inventory::item_key;
use crate::items::Credits;
use crate::rng::rng_usize_in;

verus! {

/// The credits of a creature whose credits were drawn as `drawn`: none when
/// it drew nothing.
pub open spec fn credits_for(drawn: nat) -> Option<nat> {
    if drawn == 0 {
        None
    } else {
        Some(drawn)
    }
}

/// The credits a newly spawned creature carries, drawn from `range.0..=range.1`:
/// `None` when the draw is 0, so that it carries no `Credits` at all
pub fn roll_credits(rng: &mut GlobalRng, range: (usize, usize)) -> (r: Option<Credits>)
    requires
        range.0 <= range.1,
    ensures
        exists|drawn: nat|
            range.0 <= drawn <= range.1 && #[trigger] credits_for(drawn) == match r {
                Some(c) => Some(c.amount()),
                None => None::<nat>,
            },
{
    let drawn = rng_usize_in(rng, range.0, range.1);
    if drawn != 0 {
        let credits = Credits::new(drawn);
        assert(credits_for(drawn as nat) == Some(credits.amount()));
        Some(credits)
    } else {
        assert(credits_for(drawn as nat) == None::<nat>);
        None
    }
}

/// The handles of the store items that were rolled into stock and that
/// `library` holds, in order.
pub open spec fn stocked_items(rolled: Seq<(String, bool)>, library: ItemLibrary) -> Seq<u64>
    decreases rolled.len(),
{
    if rolled.len() == 0 {
        Seq::empty()
    } else {
        let rest = stocked_items(rolled.drop_last(), library);
        let (name, in_stock) = rolled.last();
        match library.find(item_key(name@)) {
            Some(h) => if in_stock {
                rest.push(h)
            } else {
                rest
            },
            None => rest,
        }
    }
}

/// The stock of a new store: each named item that was rolled into stock and
/// that `library` holds, by handle, in order
pub fn stock_store(rolled: &Vec<(String, bool)>, library: &ItemLibrary) -> (r: Vec<u64>)
    ensures
        r@ == stocked_items(rolled@, *library),
{
    let mut stock: Vec<u64> = Vec::new();
    let mut i: usize = 0;
    while i < rolled.len()
        invariant
            0 <= i <= rolled@.len(),
            stock@ == stocked_items(rolled@.take(i as int), *library),
        decreases rolled@.len() - i,
    {
        proof {
            assert(rolled@.take(i + 1).drop_last() =~= rolled@.take(i as int));
        }
        let (name, in_stock) = &rolled[i];
        if *in_stock {
            match library.item(name.as_str()) {
                Some(handle) => stock.push(handle),
                None => {},
            }
        }
        i = i + 1;
    }
    proof {
        assert(rolled@.take(rolled@.len() as int) =~= rolled@);
    }
    stock
}

} // verus!

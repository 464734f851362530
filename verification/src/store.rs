//! Trading with stores

use vstd::prelude::*;

use crate::error::{InventoryError, StoreError};
use crate::items::inventory::{with_added, with_removed};
use crate::items::{Credits, Inventory, Item};

verus! {

/// A request to trade with a store, by entity ids and item handle id
#[derive(Debug, Clone, Copy, PartialEq, Eq)]
pub enum StoreEvent {
    /// `buyer` buys `quantity` of `item` from `store`
    Buy {
        /// The buying entity
        buyer: u64,
        /// The store entity
        store: u64,
        /// The item handle id
        item: u64,
        /// How many to buy
        quantity: usize,
    },
    /// `seller` sells `quantity` of `item` to `store`
    Sell {
        /// The selling entity
        seller: u64,
        /// The store entity
        store: u64,
        /// The item handle id
        item: u64,
        /// How many to sell
        quantity: usize,
    },
}

impl StoreEvent {
    /// Whether this is a purchase by the patron
    pub open spec fn is_buy(self) -> bool {
        self is Buy
    }

    /// The entity trading with the store
    pub open spec fn patron(self) -> u64 {
        match self {
            StoreEvent::Buy { buyer, .. } => buyer,
            StoreEvent::Sell { seller, .. } => seller,
        }
    }

    /// The store entity
    pub open spec fn store(self) -> u64 {
        match self {
            StoreEvent::Buy { store, .. } => store,
            StoreEvent::Sell { store, .. } => store,
        }
    }

    /// The item handle id traded
    pub open spec fn item(self) -> u64 {
        match self {
            StoreEvent::Buy { item, .. } => item,
            StoreEvent::Sell { item, .. } => item,
        }
    }

    /// How many are traded
    pub open spec fn quantity(self) -> nat {
        match self {
            StoreEvent::Buy { quantity, .. } => quantity as nat,
            StoreEvent::Sell { quantity, .. } => quantity as nat,
        }
    }
}

/// The goods side of a trade is possible: a buyer has room for the items,
/// a seller holds at least as many as sold.
pub open spec fn goods_available(event: StoreEvent, inventory: Inventory, item: Item) -> bool {
    if event.is_buy() {
        item.size * event.quantity() <= inventory.cap() - inventory.occupied()
    } else {
        inventory.count_of(event.item()) >= event.quantity()
    }
}

/// The price of a trade
pub open spec fn trade_cost(event: StoreEvent, item: Item) -> nat {
    (item.value as nat) * event.quantity()
}

/// The credits of whoever pays in a trade: the patron when buying, the store when selling
pub open spec fn payer_credits(event: StoreEvent, patron: Credits, store: Credits) -> nat {
    if event.is_buy() {
        patron.amount()
    } else {
        store.amount()
    }
}

/// The credits of whoever is paid in a trade
pub open spec fn payee_credits(event: StoreEvent, patron: Credits, store: Credits) -> nat {
    if event.is_buy() {
        store.amount()
    } else {
        patron.amount()
    }
}

/// A trade that passed every check: the goods, the payer's credits, and, when
/// selling, an entry for the item in the seller's inventory.
pub open spec fn trade_succeeds(
    event: StoreEvent,
    patron: Credits,
    store: Credits,
    inventory: Inventory,
    item: Item,
) -> bool {
    &&& goods_available(event, inventory, item)
    &&& payer_credits(event, patron, store) >= trade_cost(event, item)
    &&& !event.is_buy() ==> inventory.holds(event.item(), event.quantity())
}

/// No arithmetic of the trade overflows, and the sizes given are those the
/// inventory was filled with.
pub open spec fn trade_in_range(
    event: StoreEvent,
    patron: Credits,
    store: Credits,
    inventory: Inventory,
    item: Item,
) -> bool {
    &&& event.is_buy() ==> item.size * event.quantity() <= usize::MAX
    &&& goods_available(event, inventory, item) ==> {
        &&& item.value * event.quantity() <= usize::MAX
        &&& payer_credits(event, patron, store) >= trade_cost(event, item) ==> {
            &&& payee_credits(event, patron, store) + trade_cost(event, item) <= usize::MAX
            &&& event.is_buy() ==> inventory.count_of(event.item()) + event.quantity()
                <= usize::MAX
            &&& !event.is_buy() ==> inventory.can_remove(
                event.item(),
                item.size as nat,
                event.quantity(),
            )
        }
    }
}

/// Carry out one store event for the patron and store credits and the patron's
/// inventory, where `retrieved` is the traded item's asset. Every check comes
/// before anything changes, so a refused trade changes nothing; a completed one
/// moves the price from payer to payee and the items into or out of the inventory.
pub fn handle_store_event(
    event: &StoreEvent,
    patron_credits: &mut Credits,
    store_credits: &mut Credits,
    inventory: &mut Inventory,
    retrieved: &Item,
) -> (r: Result<(), StoreError>)
    requires
        trade_in_range(*event, *old(patron_credits), *old(store_credits), *old(inventory), *retrieved),
    ensures
        final(inventory).cap() == old(inventory).cap(),
        r is Ok <==> trade_succeeds(
            *event,
            *old(patron_credits),
            *old(store_credits),
            *old(inventory),
            *retrieved,
        ),
        // the errors, each with the inputs on which it comes
        event.is_buy() && !goods_available(*event, *old(inventory), *retrieved) ==> r == Err::<
            (),
            StoreError,
        >(
            StoreError::InventoryError(
                InventoryError::NoSpaceLeft {
                    overage: (retrieved.size * event.quantity() - (old(inventory).cap() - old(inventory).occupied())) as usize,
                },
            ),
        ),
        !event.is_buy() && !goods_available(*event, *old(inventory), *retrieved) ==> r == Err::<
            (),
            StoreError,
        >(StoreError::NotEnoughItems),
        goods_available(*event, *old(inventory), *retrieved) && payer_credits(
            *event,
            *old(patron_credits),
            *old(store_credits),
        ) < trade_cost(*event, *retrieved) ==> r == Err::<(), StoreError>(
            StoreError::NotEnoughCredits,
        ),
        goods_available(*event, *old(inventory), *retrieved) && payer_credits(
            *event,
            *old(patron_credits),
            *old(store_credits),
        ) >= trade_cost(*event, *retrieved) && !event.is_buy() && !old(inventory).holds(
            event.item(),
            event.quantity(),
        ) ==> r == Err::<(), StoreError>(
            StoreError::InventoryError(
                InventoryError::InsufficientItems {
                    want_to_remove: event.quantity() as usize,
                    exists: 0,
                },
            ),
        ),
        // credits are never created or lost
        final(patron_credits).amount() + final(store_credits).amount() == old(patron_credits).amount()
            + old(store_credits).amount(),
        // a refused trade changes nothing
        r is Err ==> final(patron_credits).amount() == old(patron_credits).amount()
            && final(store_credits).amount() == old(store_credits).amount()
            && final(inventory).occupied() == old(inventory).occupied()
            && final(inventory).counts() == old(inventory).counts(),
        // a purchase pays the store and fills the inventory
        r is Ok && event.is_buy() ==> final(patron_credits).amount() == old(patron_credits).amount()
            - trade_cost(*event, *retrieved) && final(store_credits).amount() == old(
            store_credits,
        ).amount() + trade_cost(*event, *retrieved) && final(inventory).occupied() == old(
            inventory,
        ).occupied() + retrieved.size * event.quantity() && final(inventory).counts()
            == with_added(old(inventory).counts(), event.item(), event.quantity()),
        // a sale pays the patron and empties the inventory
        r is Ok && !event.is_buy() ==> final(store_credits).amount() == old(
            store_credits,
        ).amount() - trade_cost(*event, *retrieved) && final(patron_credits).amount() == old(
            patron_credits,
        ).amount() + trade_cost(*event, *retrieved) && final(inventory).occupied() == old(
            inventory,
        ).occupied() - event.quantity() * retrieved.size && final(inventory).counts()
            == with_removed(old(inventory).counts(), event.item(), event.quantity()),
{
    let (is_buy_event, item, quantity) = match event {
        StoreEvent::Buy { item, quantity, .. } => (true, *item, *quantity),
        StoreEvent::Sell { item, quantity, .. } => (false, *item, *quantity),
    };
    let size = retrieved.size;
    let value = retrieved.value;
    if is_buy_event {
        // Moving into the patron's inventory: ensure enough space
        if inventory.space_remaining() < size * quantity {
            return Err(
                StoreError::InventoryError(
                    InventoryError::NoSpaceLeft {
                        overage: (size * quantity) - inventory.space_remaining(),
                    },
                ),
            );
        }
    } else {
        // Moving out of the patron's inventory: ensure the items exist
        if inventory.count(item) < quantity {
            return Err(StoreError::NotEnoughItems);
        }
    }
    let total_cost = value * quantity;
    if is_buy_event {
        if patron_credits.get() < total_cost {
            return Err(StoreError::NotEnoughCredits);
        }
        // Commit the credit and inventory transfer
        match patron_credits.transfer(store_credits, total_cost) {
            Ok(()) => {},
            Err(e) => {
                return Err(StoreError::CreditsError(e));
            },
        }
        proof {
            inventory.lemma_machine_bounds();
        }
        match inventory.add(item, size, quantity) {
            Ok(()) => {},
            Err(e) => {
                return Err(StoreError::InventoryError(e));
            },
        }
    } else {
        if store_credits.get() < total_cost {
            return Err(StoreError::NotEnoughCredits);
        }
        match store_credits.transfer(patron_credits, total_cost) {
            Ok(()) => {},
            Err(e) => {
                return Err(StoreError::CreditsError(e));
            },
        }
        match inventory.remove(item, size, quantity) {
            Ok(()) => {},
            Err(e) => {
                proof {
                    assert(quantity == 0);
                    assert(total_cost == 0) by (nonlinear_arith)
                        requires
                            total_cost == value * quantity,
                            quantity == 0,
                    ;
                }
                return Err(StoreError::InventoryError(e));
            },
        }
    }
    Ok(())
}

} // verus!

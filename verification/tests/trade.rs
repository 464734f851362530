use qz::error::{InventoryError, StoreError};
use qz::items::{Credits, CreditsError, Inventory, Item};
use qz::store::{handle_store_event, StoreEvent};

fn gem() -> Item {
    Item { name: "gem".to_string(), size: 2, value: 10, equipment: None }
}

#[test]
fn credits_transfer_moves_amount() {
    let mut a = Credits::new(100);
    let mut b = Credits::new(5);
    assert_eq!(a.transfer(&mut b, 40), Ok(()));
    assert_eq!(a.get(), 60);
    assert_eq!(b.get(), 45);
}

#[test]
fn credits_transfer_insufficient() {
    let mut a = Credits::new(10);
    let mut b = Credits::new(5);
    assert_eq!(a.transfer(&mut b, 11), Err(CreditsError::InsufficientCredits));
    assert_eq!(a.get(), 10);
    assert_eq!(b.get(), 5);
    assert_eq!(a.transfer(&mut b, 10), Ok(()));
    assert_eq!(a.get(), 0);
    assert_eq!(b.get(), 15);
}

fn buy(quantity: usize) -> StoreEvent {
    StoreEvent::Buy { buyer: 1, store: 2, item: 9, quantity }
}

fn sell(quantity: usize) -> StoreEvent {
    StoreEvent::Sell { seller: 1, store: 2, item: 9, quantity }
}

#[test]
fn buying_pays_store_and_fills_inventory() {
    let mut patron = Credits::new(100);
    let mut store = Credits::new(0);
    let mut inv = Inventory::with_capacity(10);
    assert_eq!(handle_store_event(&buy(3), &mut patron, &mut store, &mut inv, &gem()), Ok(()));
    assert_eq!(patron.get(), 70);
    assert_eq!(store.get(), 30);
    assert_eq!(inv.count(9), 3);
    assert_eq!(inv.space_occupied(), 6);
}

#[test]
fn buying_without_space_is_refused() {
    let mut patron = Credits::new(100);
    let mut store = Credits::new(0);
    let mut inv = Inventory::with_capacity(5);
    assert_eq!(
        handle_store_event(&buy(3), &mut patron, &mut store, &mut inv, &gem()),
        Err(StoreError::InventoryError(InventoryError::NoSpaceLeft { overage: 1 }))
    );
    assert_eq!(patron.get(), 100);
    assert_eq!(store.get(), 0);
    assert!(inv.is_empty());
}

#[test]
fn buying_without_credits_is_refused() {
    let mut patron = Credits::new(29);
    let mut store = Credits::new(0);
    let mut inv = Inventory::with_capacity(10);
    assert_eq!(
        handle_store_event(&buy(3), &mut patron, &mut store, &mut inv, &gem()),
        Err(StoreError::NotEnoughCredits)
    );
    assert_eq!(patron.get(), 29);
    assert!(inv.is_empty());
}

#[test]
fn selling_pays_patron_and_empties_inventory() {
    let mut patron = Credits::new(0);
    let mut store = Credits::new(50);
    let mut inv = Inventory::with_capacity(10);
    inv.add(9, 2, 4).unwrap();
    assert_eq!(handle_store_event(&sell(4), &mut patron, &mut store, &mut inv, &gem()), Ok(()));
    assert_eq!(patron.get(), 40);
    assert_eq!(store.get(), 10);
    assert_eq!(inv.count(9), 0);
    assert_eq!(inv.space_occupied(), 0);
}

#[test]
fn selling_more_than_held_is_refused() {
    let mut patron = Credits::new(0);
    let mut store = Credits::new(50);
    let mut inv = Inventory::with_capacity(10);
    inv.add(9, 2, 1).unwrap();
    assert_eq!(
        handle_store_event(&sell(2), &mut patron, &mut store, &mut inv, &gem()),
        Err(StoreError::NotEnoughItems)
    );
    assert_eq!(inv.count(9), 1);
}

#[test]
fn selling_to_a_poor_store_is_refused() {
    let mut patron = Credits::new(0);
    let mut store = Credits::new(15);
    let mut inv = Inventory::with_capacity(10);
    inv.add(9, 2, 2).unwrap();
    assert_eq!(
        handle_store_event(&sell(2), &mut patron, &mut store, &mut inv, &gem()),
        Err(StoreError::NotEnoughCredits)
    );
    assert_eq!(patron.get(), 0);
    assert_eq!(store.get(), 15);
    assert_eq!(inv.count(9), 2);
}

#[test]
fn selling_nothing_of_an_absent_item_is_refused_by_the_inventory() {
    let mut patron = Credits::new(0);
    let mut store = Credits::new(15);
    let mut inv = Inventory::with_capacity(10);
    assert_eq!(
        handle_store_event(&sell(0), &mut patron, &mut store, &mut inv, &gem()),
        Err(StoreError::InventoryError(InventoryError::InsufficientItems {
            want_to_remove: 0,
            exists: 0
        }))
    );
    assert_eq!(patron.get(), 0);
    assert_eq!(store.get(), 15);
}

#[test]
fn trading_conserves_credits() {
    let mut patron = Credits::new(77);
    let mut store = Credits::new(23);
    let mut inv = Inventory::with_capacity(100);
    handle_store_event(&buy(5), &mut patron, &mut store, &mut inv, &gem()).unwrap();
    handle_store_event(&sell(2), &mut patron, &mut store, &mut inv, &gem()).unwrap();
    let _ = handle_store_event(&buy(50), &mut patron, &mut store, &mut inv, &gem());
    assert_eq!(patron.get() + store.get(), 100);
    assert_eq!(inv.count(9), 3);
}

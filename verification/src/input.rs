//! Decisions taken on player input

use vstd::prelude::*;

use crate::items::Credits;

verus! {

/// A request to dock at or undock from a station, by entity ids
#[derive(Debug, Clone, Copy, PartialEq, Eq)]
pub enum DockEvent {
    /// Dock `to_dock` at `dock`
    Dock {
        /// The entity docking
        to_dock: u64,
        /// The station docked at
        dock: u64,
    },
    /// Undock `to_undock` from wherever it is docked
    Undock {
        /// The entity undocking
        to_undock: u64,
    },
}

/// What pressing the interact key asks for: a docked player undocks, an
/// undocked player docks at the dock in range, if there is one.
pub open spec fn interaction(player: u64, docked: bool, dock_in_range: Option<u64>) -> Option<DockEvent> {
    if docked {
        Some(DockEvent::Undock { to_undock: player })
    } else {
        match dock_in_range {
            Some(dock) => Some(DockEvent::Dock { to_dock: player, dock }),
            None => None,
        }
    }
}

/// The dock event sent when `player` presses the interact key
pub fn interact(player: u64, docked: bool, dock_in_range: Option<u64>) -> (r: Option<DockEvent>)
    ensures
        r == interaction(player, docked, dock_in_range),
{
    if docked {
        // already docked: undock
        Some(DockEvent::Undock { to_undock: player })
    } else {
        // attempt to dock
        match dock_in_range {
            Some(dock) => Some(DockEvent::Dock { to_dock: player, dock }),
            None => None,
        }
    }
}

/// Take every credit of a credits chest into the player's credits
pub fn take_all_credits(player: &mut Credits, chest: &mut Credits)
    requires
        old(player).amount() + old(chest).amount() <= usize::MAX,
    ensures
        final(chest).amount() == 0,
        final(player).amount() == old(player).amount() + old(chest).amount(),
{
    let amount = chest.get();
    match chest.transfer(player, amount) {
        Ok(()) => {},
        Err(_) => {},
    }
}

} // verus!

//! Decisions of the weapon systems: who a hit damages, and what a laser does

use vstd::prelude::*;

use crate::faction::{Alliegance, Faction, FactionSet};

verus! {

/// Whether a shot from something with the `attacker` alliegance damages
/// something with the `target` alliegance. A shot without an alliegance is an
/// enemy of every faction; a target without one counts as an unassigned
/// faction.
pub open spec fn hostile_to(attacker: Option<Alliegance>, target: Option<Alliegance>) -> bool {
    let target_faction = match target {
        Some(a) => a.faction,
        None => Faction::none_spec(),
    };
    match attacker {
        Some(a) => a.enemies.includes(target_faction),
        None => true,
    }
}

/// Whether a projectile or laser hit damages its target
pub fn is_hostile(attacker: Option<&Alliegance>, target: Option<&Alliegance>) -> (r: bool)
    ensures
        r == hostile_to(
            match attacker {
                Some(a) => Some(*a),
                None => None,
            },
            match target {
                Some(a) => Some(*a),
                None => None,
            },
        ),
{
    // If no alliegance, this will damage anything
    let alliegance = match attacker {
        Some(a) => a.clone(),
        None => Alliegance {
            faction: Faction::none(),
            allies: FactionSet::default(),
            enemies: FactionSet::all(),
        },
    };
    // Get the faction of the other object
    let other_faction = match target {
        Some(a) => a.faction,
        None => Alliegance::default().faction,
    };
    alliegance.enemies.contains(&other_faction)
}

/// What a laser weapon is doing this frame
#[derive(Debug, Clone, Copy, PartialEq, Eq)]
pub enum WeaponState {
    /// Weapon is inactive, only cool
    Overheated,
    /// Weapon is already firing. Control lasers
    Firing,
    /// Weapon is initiating fire
    StartFiring,
    /// Weapon is not firing
    Off,
}

/// The state of a laser weapon, from the checks made each frame.
pub open spec fn laser_state_of(
    is_overheated: bool,
    wants_to_fire: bool,
    has_enough_energy: bool,
    has_lasers: bool,
    has_enough_activation_energy: bool,
) -> WeaponState {
    if is_overheated {
        WeaponState::Overheated
    } else if wants_to_fire && has_enough_energy && has_lasers {
        WeaponState::Firing
    } else if wants_to_fire && has_enough_activation_energy {
        WeaponState::StartFiring
    } else {
        WeaponState::Off
    }
}

/// Decide the state of a laser weapon: an overheated weapon only cools; one that
/// wants to fire keeps firing while it has energy and a beam, starts a beam when
/// it has the activation energy, and is otherwise off.
pub fn laser_state(
    is_overheated: bool,
    wants_to_fire: bool,
    has_enough_energy: bool,
    has_lasers: bool,
    has_enough_activation_energy: bool,
) -> (r: WeaponState)
    ensures
        r == laser_state_of(
            is_overheated,
            wants_to_fire,
            has_enough_energy,
            has_lasers,
            has_enough_activation_energy,
        ),
        // an overheated weapon, or one that does not want to fire, never fires
        (is_overheated || !wants_to_fire) ==> !(r is Firing || r is StartFiring),
        is_overheated ==> r is Overheated,
        !is_overheated && !wants_to_fire ==> r is Off,
        // a beam that is there keeps firing while there is energy for this
        // frame, whether or not there is enough to start one
        !is_overheated && wants_to_fire && has_enough_energy && has_lasers ==> r is Firing,
        // otherwise a beam starts only with the activation energy
        !is_overheated && wants_to_fire && !(has_enough_energy && has_lasers) ==> (r is StartFiring
            <==> has_enough_activation_energy) && (r is Off <==> !has_enough_activation_energy),
{
    if is_overheated {
        WeaponState::Overheated
    } else if wants_to_fire && has_enough_energy && has_lasers {
        WeaponState::Firing
    } else if wants_to_fire && has_enough_activation_energy {
        WeaponState::StartFiring
    } else {
        WeaponState::Off
    }
}

/// What the laser system does for a weapon in a given state
#[derive(Debug, Clone, Copy, PartialEq, Eq)]
pub struct LaserCommand {
    /// Remove the weapon's beams
    pub despawn_lasers: bool,
    /// Draw this frame's energy
    pub consume_energy: bool,
    /// Create a beam
    pub spawn_laser: bool,
    /// The weapon heats up (otherwise it cools down)
    pub heating: bool,
}

/// What the laser system does in `state`, given whether beams exist.
pub open spec fn laser_command_of(state: WeaponState, has_lasers: bool) -> LaserCommand {
    match state {
        WeaponState::Overheated => LaserCommand {
            despawn_lasers: true,
            consume_energy: false,
            spawn_laser: false,
            heating: false,
        },
        WeaponState::Firing => LaserCommand {
            despawn_lasers: false,
            consume_energy: true,
            spawn_laser: false,
            heating: true,
        },
        WeaponState::StartFiring => LaserCommand {
            despawn_lasers: false,
            consume_energy: true,
            spawn_laser: true,
            heating: true,
        },
        WeaponState::Off => LaserCommand {
            despawn_lasers: has_lasers,
            consume_energy: false,
            spawn_laser: false,
            heating: false,
        },
    }
}

/// The work to do for a laser weapon in `state`: an overheated weapon loses
/// its beams, a firing one draws energy, a starting one also creates a beam, an
/// off one loses any beams; firing heats the weapon, anything else cools it.
pub fn laser_command(state: WeaponState, has_lasers: bool) -> (r: LaserCommand)
    ensures
        r == laser_command_of(state, has_lasers),
{
    match state {
        WeaponState::Overheated => LaserCommand {
            despawn_lasers: true,
            consume_energy: false,
            spawn_laser: false,
            heating: false,
        },
        WeaponState::Firing => LaserCommand {
            despawn_lasers: false,
            consume_energy: true,
            spawn_laser: false,
            heating: true,
        },
        WeaponState::StartFiring => LaserCommand {
            despawn_lasers: false,
            consume_energy: true,
            spawn_laser: true,
            heating: true,
        },
        WeaponState::Off => LaserCommand {
            despawn_lasers: has_lasers,
            consume_energy: false,
            spawn_laser: false,
            heating: false,
        },
    }
}

/// A shot without an alliegance damages anything it hits.
pub proof fn lemma_unaligned_shot_hits_all(target: Option<Alliegance>)
    ensures
        hostile_to(None, target),
{
}

/// A laser that wants to fire, is not overheated and has a beam and the
/// energy for this frame fires, whatever its activation energy; without a
/// beam or the frame's energy it starts a beam exactly when it has the
/// activation energy, and is off otherwise.
pub proof fn lemma_firing_needs_no_activation(
    wants_to_fire: bool,
    has_enough_energy: bool,
    has_lasers: bool,
    has_enough_activation_energy: bool,
)
    ensures
        wants_to_fire && has_enough_energy && has_lasers ==> laser_state_of(
            false,
            wants_to_fire,
            has_enough_energy,
            has_lasers,
            has_enough_activation_energy,
        ) is Firing,
        laser_state_of(false, wants_to_fire, has_enough_energy, has_lasers, true) is Off
            ==> !wants_to_fire,
        laser_state_of(false, wants_to_fire, has_enough_energy, has_lasers, false) is StartFiring
            ==> false,
        wants_to_fire && !(has_enough_energy && has_lasers) ==> laser_state_of(
            false,
            wants_to_fire,
            has_enough_energy,
            has_lasers,
            true,
        ) is StartFiring && laser_state_of(
            false,
            wants_to_fire,
            has_enough_energy,
            has_lasers,
            false,
        ) is Off,
{
}

/// A laser only draws energy or heats up while firing, and the beam is only
/// created when it starts firing.
pub proof fn lemma_laser_energy_only_when_firing(state: WeaponState, has_lasers: bool)
    ensures
        laser_command_of(state, has_lasers).consume_energy <==> (state is Firing || state is StartFiring),
        laser_command_of(state, has_lasers).heating <==> (state is Firing || state is StartFiring),
        laser_command_of(state, has_lasers).spawn_laser <==> state is StartFiring,
{
}

} // verus!

use qz::ai::actions::{attack_step, idle_step, persue_step, ActionState, IdleCommand, PersueCommand};
use qz::ai::planning::{generate_task_registry, Condition, WorldState};
use qz::ai::task::{Attack, Persue, Search};
use qz::ai::{Requirement, TaskLabel};

#[test]
fn requirement_names() {
    assert_eq!(Requirement::EnemiesInView.name(), "enemies_in_range");
    assert_eq!(Requirement::TargetInWeaponsRange.name(), "target_in_weapons_range");
    assert_eq!(Requirement::TargetDestroyed.name(), "target_destroyed");
}

#[test]
fn task_names() {
    assert_eq!(Search::NAME, "search");
    assert_eq!(Persue::NAME, "persue");
    assert_eq!(Attack::NAME, "attack");
}

fn c(requirement: Requirement, value: bool) -> Condition {
    Condition { requirement, value }
}

#[test]
fn task_registry() {
    let tasks = generate_task_registry();
    assert_eq!(tasks.len(), 3);
    assert_eq!(tasks[0].name, "search");
    assert_eq!(
        tasks[0].requirements,
        vec![
            c(Requirement::EnemiesInView, false),
            c(Requirement::TargetInWeaponsRange, false),
            c(Requirement::TargetDestroyed, false)
        ]
    );
    assert_eq!(
        tasks[0].effects,
        vec![c(Requirement::EnemiesInView, true), c(Requirement::TargetInWeaponsRange, false)]
    );
    assert_eq!(tasks[1].name, "persue");
    assert_eq!(
        tasks[1].effects,
        vec![c(Requirement::EnemiesInView, true), c(Requirement::TargetInWeaponsRange, true)]
    );
    assert_eq!(tasks[2].name, "attack");
    assert_eq!(
        tasks[2].requirements,
        vec![c(Requirement::EnemiesInView, true), c(Requirement::TargetInWeaponsRange, true)]
    );
    assert_eq!(tasks[2].effects, vec![c(Requirement::TargetDestroyed, true)]);
}

#[test]
fn default_world_state_is_all_false() {
    let s = WorldState::default_world_state();
    assert!(!s.enemies_in_view && !s.target_in_weapons_range && !s.target_destroyed);
}

#[test]
fn attack_steps() {
    assert_eq!(attack_step(ActionState::Requested), (Some(ActionState::Executing), Some(true)));
    assert_eq!(attack_step(ActionState::Executing), (None, Some(true)));
    assert_eq!(attack_step(ActionState::Cancelled), (Some(ActionState::Success), None));
    assert_eq!(attack_step(ActionState::Success), (None, Some(false)));
    assert_eq!(attack_step(ActionState::Failure), (None, Some(false)));
    assert_eq!(attack_step(ActionState::Init), (None, None));
}

#[test]
fn persue_steps() {
    assert_eq!(
        persue_step(ActionState::Requested, Some(12)),
        (Some(ActionState::Executing), PersueCommand::Target(12))
    );
    assert_eq!(
        persue_step(ActionState::Requested, None),
        (Some(ActionState::Failure), PersueCommand::Keep)
    );
    assert_eq!(
        persue_step(ActionState::Cancelled, Some(1)),
        (Some(ActionState::Success), PersueCommand::Keep)
    );
    assert_eq!(persue_step(ActionState::Success, None), (None, PersueCommand::Clear));
    assert_eq!(persue_step(ActionState::Executing, Some(3)), (None, PersueCommand::Keep));
}

#[test]
fn idle_steps() {
    assert_eq!(
        idle_step(ActionState::Requested),
        (Some(ActionState::Executing), IdleCommand::HoldPosition)
    );
    assert_eq!(idle_step(ActionState::Executing), (None, IdleCommand::Wander));
    assert_eq!(idle_step(ActionState::Cancelled), (Some(ActionState::Success), IdleCommand::Keep));
    assert_eq!(idle_step(ActionState::Failure), (None, IdleCommand::Clear));
    assert_eq!(idle_step(ActionState::Init), (None, IdleCommand::Keep));
}

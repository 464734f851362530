use vstd::prelude::*;

verus! {

/// The state of an action an AI has chosen
#[derive(Debug, Clone, Copy, PartialEq, Eq)]
pub enum ActionState {
    /// Not yet requested
    Init,
    /// The action was chosen and should begin
    Requested,
    /// The action is running
    Executing,
    /// The action should stop
    Cancelled,
    /// The action ended well
    Success,
    /// The action ended badly
    Failure,
}

/// One step of the attack action: the state it moves to, if it changes, and
/// whether every weapon should be set to fire (`Some(true)`), to hold fire
/// (`Some(false)`), or be left alone (`None`).
pub open spec fn attack_transition(state: ActionState) -> (Option<ActionState>, Option<bool>) {
    match state {
        ActionState::Requested => (Some(ActionState::Executing), Some(true)),
        ActionState::Executing => (None, Some(true)),
        ActionState::Cancelled => (Some(ActionState::Success), None),
        ActionState::Failure | ActionState::Success => (None, Some(false)),
        ActionState::Init => (None, None),
    }
}

/// Step the attack action: weapons fire while it is requested or running and
/// hold fire once it has ended; a cancelled attack succeeds.
pub fn attack_step(state: ActionState) -> (r: (Option<ActionState>, Option<bool>))
    ensures
        r == attack_transition(state),
        state is Requested ==> r == (Some(ActionState::Executing), Some(true)),
        state is Executing ==> r == (None::<ActionState>, Some(true)),
        state is Cancelled ==> r == (Some(ActionState::Success), None::<bool>),
        (state is Success || state is Failure) ==> r == (None::<ActionState>, Some(false)),
        state is Init ==> r == (None::<ActionState>, None::<bool>),
{
    match state {
        ActionState::Requested => (Some(ActionState::Executing), Some(true)),
        ActionState::Executing => (None, Some(true)),
        ActionState::Cancelled => (Some(ActionState::Success), None),
        ActionState::Failure | ActionState::Success => (None, Some(false)),
        _ => (None, None),
    }
}

/// What the persue action does to the actor's target
#[derive(Debug, Clone, Copy, PartialEq, Eq)]
pub enum PersueCommand {
    /// Head for and target this entity
    Target(u64),
    /// Forget the waypoint and target
    Clear,
    /// Leave them as they are
    Keep,
}

/// One step of the persue action, given the nearest enemy in range.
pub open spec fn persue_transition(state: ActionState, nearest_enemy: Option<u64>) -> (
    Option<ActionState>,
    PersueCommand,
) {
    match state {
        ActionState::Requested => match nearest_enemy {
            Some(e) => (Some(ActionState::Executing), PersueCommand::Target(e)),
            None => (Some(ActionState::Failure), PersueCommand::Keep),
        },
        ActionState::Cancelled => (Some(ActionState::Success), PersueCommand::Keep),
        ActionState::Failure | ActionState::Success => (None, PersueCommand::Clear),
        _ => (None, PersueCommand::Keep),
    }
}

/// Step the persue action: when requested, head for the nearest enemy in range,
/// failing if there is none; once ended, forget the waypoint and target.
pub fn persue_step(state: ActionState, nearest_enemy: Option<u64>) -> (r: (
    Option<ActionState>,
    PersueCommand,
))
    ensures
        r == persue_transition(state, nearest_enemy),
        state is Requested ==> r == (match nearest_enemy {
            Some(e) => (Some(ActionState::Executing), PersueCommand::Target(e)),
            None => (Some(ActionState::Failure), PersueCommand::Keep),
        }),
        state is Cancelled ==> r == (Some(ActionState::Success), PersueCommand::Keep),
        (state is Success || state is Failure) ==> r == (None::<ActionState>, PersueCommand::Clear),
        (state is Init || state is Executing) ==> r == (None::<ActionState>, PersueCommand::Keep),
{
    match state {
        ActionState::Requested => match nearest_enemy {
            Some(e) => (Some(ActionState::Executing), PersueCommand::Target(e)),
            None => (Some(ActionState::Failure), PersueCommand::Keep),
        },
        ActionState::Cancelled => (Some(ActionState::Success), PersueCommand::Keep),
        ActionState::Failure | ActionState::Success => (None, PersueCommand::Clear),
        _ => (None, PersueCommand::Keep),
    }
}

/// What the idle action does to the actor's waypoint
#[derive(Debug, Clone, Copy, PartialEq, Eq)]
pub enum IdleCommand {
    /// Set the waypoint to where the actor stands
    HoldPosition,
    /// Pick a new random waypoint once the current one is reached
    Wander,
    /// Forget the waypoint
    Clear,
    /// Leave it as it is
    Keep,
}

/// One step of the idle action.
pub open spec fn idle_transition(state: ActionState) -> (Option<ActionState>, IdleCommand) {
    match state {
        ActionState::Requested => (Some(ActionState::Executing), IdleCommand::HoldPosition),
        ActionState::Executing => (None, IdleCommand::Wander),
        ActionState::Cancelled => (Some(ActionState::Success), IdleCommand::Keep),
        ActionState::Failure | ActionState::Success => (None, IdleCommand::Clear),
        ActionState::Init => (None, IdleCommand::Keep),
    }
}

/// Step the idle action: start by holding position, wander while running, and
/// forget the waypoint once ended.
pub fn idle_step(state: ActionState) -> (r: (Option<ActionState>, IdleCommand))
    ensures
        r == idle_transition(state),
        state is Requested ==> r == (Some(ActionState::Executing), IdleCommand::HoldPosition),
        state is Executing ==> r == (None::<ActionState>, IdleCommand::Wander),
        state is Cancelled ==> r == (Some(ActionState::Success), IdleCommand::Keep),
        (state is Success || state is Failure) ==> r == (None::<ActionState>, IdleCommand::Clear),
        state is Init ==> r == (None::<ActionState>, IdleCommand::Keep),
{
    match state {
        ActionState::Requested => (Some(ActionState::Executing), IdleCommand::HoldPosition),
        ActionState::Executing => (None, IdleCommand::Wander),
        ActionState::Cancelled => (Some(ActionState::Success), IdleCommand::Keep),
        ActionState::Failure | ActionState::Success => (None, IdleCommand::Clear),
        _ => (None, IdleCommand::Keep),
    }
}

/// Every action reaches an end from a cancellation in one step, and an ended
/// action is never moved to another state.
pub proof fn lemma_actions_end(nearest_enemy: Option<u64>)
    ensures
        attack_transition(ActionState::Cancelled).0 == Some(ActionState::Success),
        persue_transition(ActionState::Cancelled, nearest_enemy).0 == Some(ActionState::Success),
        idle_transition(ActionState::Cancelled).0 == Some(ActionState::Success),
        attack_transition(ActionState::Success).0 is None,
        attack_transition(ActionState::Failure).0 is None,
        persue_transition(ActionState::Success, nearest_enemy).0 is None,
        persue_transition(ActionState::Failure, nearest_enemy).0 is None,
        idle_transition(ActionState::Success).0 is None,
        idle_transition(ActionState::Failure).0 is None,
{
}

/// An ended action, whether it succeeded or failed, stays ended and undoes
/// what it set: the attack holds fire, and the persue and idle actions forget
/// their waypoint. Only a running or requested action sets anything.
pub proof fn lemma_ended_actions_clear(state: ActionState, nearest_enemy: Option<u64>)
    ensures
        (state is Success || state is Failure) ==> {
            &&& attack_transition(state) == (None::<ActionState>, Some(false))
            &&& persue_transition(state, nearest_enemy) == (None::<ActionState>, PersueCommand::Clear)
            &&& idle_transition(state) == (None::<ActionState>, IdleCommand::Clear)
        },
        attack_transition(state).1 == Some(true) <==> (state is Requested || state is Executing),
        idle_transition(state).1 is Clear <==> (state is Success || state is Failure),
        persue_transition(state, nearest_enemy).1 is Clear <==> (state is Success || state is Failure),
{
}

} // verus!

use vstd::prelude::*;

use crate::ai::requirement::Requirement;
use crate::ai::task::{Attack, Persue, Search, TaskLabel};

verus! {

/// A requirement holding a given value
#[derive(Debug, Clone, Copy, PartialEq, Eq)]
pub struct Condition {
    /// The requirement
    pub requirement: Requirement,
    /// Its value
    pub value: bool,
}

/// What planning knows of the world: the value of each requirement
#[derive(Debug, Clone, Copy, PartialEq, Eq)]
pub struct WorldState {
    /// Value of [`Requirement::EnemiesInView`]
    pub enemies_in_view: bool,
    /// Value of [`Requirement::TargetInWeaponsRange`]
    pub target_in_weapons_range: bool,
    /// Value of [`Requirement::TargetDestroyed`]
    pub target_destroyed: bool,
}

impl WorldState {
    /// The value of `r` in this state
    pub open spec fn value(self, r: Requirement) -> bool {
        match r {
            Requirement::EnemiesInView => self.enemies_in_view,
            Requirement::TargetInWeaponsRange => self.target_in_weapons_range,
            Requirement::TargetDestroyed => self.target_destroyed,
        }
    }

    /// Every condition holds in this state
    pub open spec fn satisfies(self, conditions: Seq<Condition>) -> bool {
        forall|i: int|
            0 <= i < conditions.len() ==> self.value(#[trigger] conditions[i].requirement)
                == conditions[i].value
    }

    /// This state with `r` set to `value`
    pub open spec fn with(self, r: Requirement, value: bool) -> WorldState {
        match r {
            Requirement::EnemiesInView => WorldState { enemies_in_view: value, ..self },
            Requirement::TargetInWeaponsRange => WorldState {
                target_in_weapons_range: value,
                ..self
            },
            Requirement::TargetDestroyed => WorldState { target_destroyed: value, ..self },
        }
    }

    /// This state after the effects are set, in order
    pub open spec fn applied(self, effects: Seq<Condition>) -> WorldState
        decreases effects.len(),
    {
        if effects.len() == 0 {
            self
        } else {
            self.applied(effects.drop_last()).with(effects.last().requirement, effects.last().value)
        }
    }

    /// The state every newly spawned creature starts with: nothing known
    pub open spec fn initial() -> WorldState {
        WorldState { enemies_in_view: false, target_in_weapons_range: false, target_destroyed: false }
    }

    /// The state every newly spawned creature starts with: nothing known
    pub fn default_world_state() -> (r: WorldState)
        ensures
            r == WorldState::initial(),
    {
        WorldState { enemies_in_view: false, target_in_weapons_range: false, target_destroyed: false }
    }
}

/// A task the planner may use: its name, what must hold before it, and what
/// holds after it
pub struct TaskSpec {
    /// The task's name
    pub name: &'static str,
    /// Conditions that must hold to start the task
    pub requirements: Vec<Condition>,
    /// Conditions set by completing the task
    pub effects: Vec<Condition>,
}

/// A condition on a requirement
pub open spec fn cond(r: Requirement, value: bool) -> Condition {
    Condition { requirement: r, value }
}

/// What searching needs: nothing in view, in range, or destroyed
pub open spec fn search_requirements() -> Seq<Condition> {
    seq![
        cond(Requirement::EnemiesInView, false),
        cond(Requirement::TargetInWeaponsRange, false),
        cond(Requirement::TargetDestroyed, false),
    ]
}

/// What searching achieves: an enemy in view, not yet in range
pub open spec fn search_effects() -> Seq<Condition> {
    seq![cond(Requirement::EnemiesInView, true), cond(Requirement::TargetInWeaponsRange, false)]
}

/// What persuing needs: an enemy in view, not in range
pub open spec fn persue_requirements() -> Seq<Condition> {
    seq![cond(Requirement::EnemiesInView, true), cond(Requirement::TargetInWeaponsRange, false)]
}

/// What persuing achieves: the enemy in view and in range
pub open spec fn persue_effects() -> Seq<Condition> {
    seq![cond(Requirement::EnemiesInView, true), cond(Requirement::TargetInWeaponsRange, true)]
}

/// What attacking needs: the enemy in view and in range
pub open spec fn attack_requirements() -> Seq<Condition> {
    seq![cond(Requirement::EnemiesInView, true), cond(Requirement::TargetInWeaponsRange, true)]
}

/// What attacking achieves: the target destroyed
pub open spec fn attack_effects() -> Seq<Condition> {
    seq![cond(Requirement::TargetDestroyed, true)]
}

/// The goal every creature plans for: destroy the enemy
pub open spec fn destroy_enemy_goal() -> Seq<Condition> {
    seq![cond(Requirement::TargetDestroyed, true)]
}

/// Build a condition list from exactly the given conditions
fn conditions(items: &[Condition]) -> (r: Vec<Condition>)
    ensures
        r@ == items@,
{
    let mut v: Vec<Condition> = Vec::new();
    let mut i: usize = 0;
    while i < items.len()
        invariant
            0 <= i <= items@.len(),
            v@ == items@.subrange(0, i as int),
        decreases items@.len() - i,
    {
        v.push(items[i]);
        proof {
            assert(items@.subrange(0, i + 1) =~= items@.subrange(0, i as int).push(items@[i as int]));
        }
        i = i + 1;
    }
    proof {
        assert(items@.subrange(0, items@.len() as int) =~= items@);
    }
    v
}

/// The tasks of every creature, each with what it needs and what it achieves
pub fn generate_task_registry() -> (r: Vec<TaskSpec>)
    ensures
        r@.len() == 3,
        r@[0].name == Search::NAME,
        r@[0].requirements@ == search_requirements(),
        r@[0].effects@ == search_effects(),
        r@[1].name == Persue::NAME,
        r@[1].requirements@ == persue_requirements(),
        r@[1].effects@ == persue_effects(),
        r@[2].name == Attack::NAME,
        r@[2].requirements@ == attack_requirements(),
        r@[2].effects@ == attack_effects(),
{
    let mut tasks: Vec<TaskSpec> = Vec::new();
    let search = TaskSpec {
        name: Search::NAME,
        requirements: conditions(
            &[
                Condition { requirement: Requirement::EnemiesInView, value: false },
                Condition { requirement: Requirement::TargetInWeaponsRange, value: false },
                Condition { requirement: Requirement::TargetDestroyed, value: false },
            ],
        ),
        effects: conditions(
            &[
                Condition { requirement: Requirement::EnemiesInView, value: true },
                Condition { requirement: Requirement::TargetInWeaponsRange, value: false },
            ],
        ),
    };
    tasks.push(search);
    let persue = TaskSpec {
        name: Persue::NAME,
        requirements: conditions(
            &[
                Condition { requirement: Requirement::EnemiesInView, value: true },
                Condition { requirement: Requirement::TargetInWeaponsRange, value: false },
            ],
        ),
        effects: conditions(
            &[
                Condition { requirement: Requirement::EnemiesInView, value: true },
                Condition { requirement: Requirement::TargetInWeaponsRange, value: true },
            ],
        ),
    };
    tasks.push(persue);
    let attack = TaskSpec {
        name: Attack::NAME,
        requirements: conditions(
            &[
                Condition { requirement: Requirement::EnemiesInView, value: true },
                Condition { requirement: Requirement::TargetInWeaponsRange, value: true },
            ],
        ),
        effects: conditions(&[Condition { requirement: Requirement::TargetDestroyed, value: true }]),
    };
    tasks.push(attack);
    proof {
        assert(tasks@[0].requirements@ =~= search_requirements());
        assert(tasks@[0].effects@ =~= search_effects());
        assert(tasks@[1].requirements@ =~= persue_requirements());
        assert(tasks@[1].effects@ =~= persue_effects());
        assert(tasks@[2].requirements@ =~= attack_requirements());
        assert(tasks@[2].effects@ =~= attack_effects());
    }
    tasks
}

/// From the state a creature starts in, searching, then persuing, then
/// attacking is a valid plan for the goal of destroying the enemy: each task's
/// requirements hold when it starts, and the goal holds at the end.
pub proof fn lemma_destroy_enemy_plan()
    ensures
        ({
            let s0 = WorldState::initial();
            let s1 = s0.applied(search_effects());
            let s2 = s1.applied(persue_effects());
            let s3 = s2.applied(attack_effects());
            &&& s0.satisfies(search_requirements())
            &&& s1.satisfies(persue_requirements())
            &&& s2.satisfies(attack_requirements())
            &&& s3.satisfies(destroy_enemy_goal())
        }),
{
    let s0 = WorldState::initial();
    reveal_with_fuel(WorldState::applied, 3);
    assert(search_effects().drop_last() =~= seq![cond(Requirement::EnemiesInView, true)]);
    assert(seq![cond(Requirement::EnemiesInView, true)].drop_last() =~= Seq::<Condition>::empty());
    assert(persue_effects().drop_last() =~= seq![cond(Requirement::EnemiesInView, true)]);
    assert(attack_effects().drop_last() =~= Seq::<Condition>::empty());
    let s1 = s0.applied(search_effects());
    let s2 = s1.applied(persue_effects());
    let s3 = s2.applied(attack_effects());
    assert(s1 == WorldState { enemies_in_view: true, target_in_weapons_range: false, target_destroyed: false });
    assert(s2 == WorldState { enemies_in_view: true, target_in_weapons_range: true, target_destroyed: false });
    assert(s3 == WorldState { enemies_in_view: true, target_in_weapons_range: true, target_destroyed: true });
    assert(s0.satisfies(search_requirements()));
    assert(s1.satisfies(persue_requirements()));
    assert(s2.satisfies(attack_requirements()));
    assert(s3.satisfies(destroy_enemy_goal()));
}

} // verus!

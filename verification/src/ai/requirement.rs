use vstd::prelude::*;

verus! {

/// A fact about the world that AI tasks require or bring about
#[derive(Debug, Clone, Copy, PartialEq, Eq)]
pub enum Requirement {
    /// Some enemy is in view
    EnemiesInView,
    /// The target is within reach of the weapons
    TargetInWeaponsRange,
    /// The target has been destroyed
    TargetDestroyed,
}

/// The key under which a requirement is stored in an agent's world state.
pub open spec fn requirement_name(r: Requirement) -> Seq<char> {
    match r {
        Requirement::EnemiesInView => "enemies_in_range"@,
        Requirement::TargetInWeaponsRange => "target_in_weapons_range"@,
        Requirement::TargetDestroyed => "target_destroyed"@,
    }
}

impl Requirement {
    /// The key under which this requirement is stored in an agent's world state
    pub fn name(&self) -> (r: &'static str)
        ensures
            r@ == requirement_name(*self),
    {
        match self {
            Requirement::EnemiesInView => "enemies_in_range",
            Requirement::TargetInWeaponsRange => "target_in_weapons_range",
            Requirement::TargetDestroyed => "target_destroyed",
        }
    }
}

/// Distinct requirements are stored under distinct keys, so setting one never
/// overwrites another.
pub proof fn lemma_requirement_names_distinct(a: Requirement, b: Requirement)
    ensures
        requirement_name(a) == requirement_name(b) <==> a == b,
{
    reveal_strlit("enemies_in_range");
    reveal_strlit("target_in_weapons_range");
    reveal_strlit("target_destroyed");
    if a != b {
        let (x, y) = (requirement_name(a), requirement_name(b));
        if x.len() == y.len() {
            // names of equal length differ in their first letter
            assert(x[0] != y[0]);
        }
    }
}

} // verus!

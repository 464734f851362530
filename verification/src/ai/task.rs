use vstd::prelude::*;

verus! {

/// A task an AI agent can plan with, known by its name
pub trait TaskLabel {
    /// The name the task is registered under
    const NAME: &'static str;
}

/// Seek out a new target to persue
#[derive(Debug, Default, Clone, Copy)]
pub struct Search;

impl TaskLabel for Search {
    const NAME: &'static str = "search";
}

/// Close distance to target
#[derive(Debug, Default, Clone, Copy)]
pub struct Persue;

impl TaskLabel for Persue {
    const NAME: &'static str = "persue";
}

/// Follow target and attack
#[derive(Debug, Default, Clone, Copy)]
pub struct Attack;

impl TaskLabel for Attack {
    const NAME: &'static str = "attack";
}

} // verus!

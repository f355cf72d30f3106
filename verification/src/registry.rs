//! The sessions that are running, by their identifiers.

use std::collections::HashSet;
use vstd::prelude::*;

verus! {

broadcast use vstd::std_specs::hash::group_hash_axioms;

/// The identifiers of the sessions that are running.
pub struct Registry {
    games: HashSet<u32>,
}

impl View for Registry {
    type V = Set<u32>;

    closed spec fn view(&self) -> Set<u32> {
        self.games@
    }
}

impl Registry {
    /// A registry without sessions.
    pub fn new() -> (registry: Registry)
        ensures
            registry@ == Set::<u32>::empty(),
    {
        Registry { games: HashSet::new() }
    }

    /// Finds the session for a connection that asked for `game_id`. Tells
    /// whether the session has to be started first; from then on it is
    /// running.
    pub fn route(&mut self, game_id: u32) -> (start: bool)
        ensures
            start == !old(self)@.contains(game_id),
            final(self)@ == old(self)@.insert(game_id),
    {
        self.games.insert(game_id)
    }

    /// Forgets a session that has ended. Tells whether it was running.
    pub fn reap(&mut self, game_id: u32) -> (known: bool)
        ensures
            known == old(self)@.contains(game_id),
            final(self)@ == old(self)@.remove(game_id),
    {
        self.games.remove(&game_id)
    }

    /// Whether the session is running.
    pub fn is_running(&self, game_id: u32) -> (running: bool)
        ensures
            running == self@.contains(game_id),
    {
        self.games.contains(&game_id)
    }
}

} // verus!

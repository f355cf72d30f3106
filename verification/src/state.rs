//! The state that the host shares with its clients, and the increments by
//! which it changes.

use crate::fixed::Fixed;
use std::collections::HashMap;
use vstd::prelude::*;

verus! {

broadcast use vstd::std_specs::hash::group_hash_axioms;

/// A position or a velocity in the plane.
#[derive(Clone, Copy, Debug, PartialEq, Eq, Structural)]
pub struct Point {
    pub x: Fixed,
    pub y: Fixed,
}

/// Everything a client has to know to draw the game.
#[derive(Debug, PartialEq)]
pub struct GameState {
    pub hoop_x: Fixed,
    pub ball_positions: HashMap<u32, Point>,
}

/// The mathematical content of a [`GameState`].
pub struct GameStateView {
    pub hoop_x: Fixed,
    pub ball_positions: Map<u32, Point>,
}

impl View for GameState {
    type V = GameStateView;

    open spec fn view(&self) -> GameStateView {
        GameStateView { hoop_x: self.hoop_x, ball_positions: self.ball_positions@ }
    }
}

impl Clone for GameState {
    fn clone(&self) -> (copy: GameState)
        ensures
            copy@ == self@,
    {
        GameState { hoop_x: self.hoop_x, ball_positions: self.ball_positions.clone() }
    }
}

/// One incremental change of a [`GameState`].
#[derive(Clone, Copy, Debug, PartialEq, Eq, Structural)]
pub enum UpdateState {
    MoveHoop { x: Fixed },
    AddBall { id: u32, position: Point },
    MoveBall { id: u32, position: Point },
    RemoveBall { id: u32 },
}

impl UpdateState {
    /// The state that results from this update. A move of a ball that the
    /// state does not hold is dropped: it changes nothing.
    pub open spec fn applied(self, state: GameStateView) -> GameStateView {
        match self {
            UpdateState::MoveHoop { x } => GameStateView { hoop_x: x, ..state },
            UpdateState::AddBall { id, position } => GameStateView {
                ball_positions: state.ball_positions.insert(id, position),
                ..state
            },
            UpdateState::MoveBall { id, position } => if state.ball_positions.contains_key(id) {
                GameStateView { ball_positions: state.ball_positions.insert(id, position), ..state }
            } else {
                state
            },
            UpdateState::RemoveBall { id } => GameStateView {
                ball_positions: state.ball_positions.remove(id),
                ..state
            },
        }
    }

    /// Brings `state` up to date with this update.
    pub fn apply(&self, state: &mut GameState)
        ensures
            final(state)@ == self.applied(old(state)@),
    {
        match self {
            UpdateState::MoveHoop { x } => {
                state.hoop_x = *x;
            },
            UpdateState::AddBall { id, position } => {
                let _previous = state.ball_positions.insert(*id, *position);
            },
            UpdateState::MoveBall { id, position } => {
                if state.ball_positions.contains_key(id) {
                    let _previous = state.ball_positions.insert(*id, *position);
                }
            },
            UpdateState::RemoveBall { id } => {
                let _previous = state.ball_positions.remove(id);
            },
        }
    }
}

/// The state after a whole sequence of updates, applied in order.
pub open spec fn applied_all(updates: Seq<UpdateState>, state: GameStateView) -> GameStateView
    decreases updates.len(),
{
    if updates.len() == 0 {
        state
    } else {
        updates.last().applied(applied_all(updates.drop_last(), state))
    }
}

} // verus!

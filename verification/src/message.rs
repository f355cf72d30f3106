//! The messages that clients and the host exchange.

use crate::fixed::{Angle, Fixed};
use crate::state::{GameState, GameStateView, UpdateState};
use vstd::prelude::*;

verus! {

#[derive(Clone, Copy, Debug, PartialEq, Eq, Structural)]
pub enum HorizontalDirection {
    Left,
    Right,
}

/// What the host sends to a client.
#[derive(Debug, PartialEq)]
pub enum ToClientMessage {
    InitialState(GameState),
    EstablishAsHoop,
    EstablishAsBall { id: u32 },
    EstablishAsObserver,
    UpdateState(UpdateState),
}

/// The mathematical content of a [`ToClientMessage`].
pub enum ToClientMessageView {
    InitialState(GameStateView),
    EstablishAsHoop,
    EstablishAsBall { id: u32 },
    EstablishAsObserver,
    UpdateState(UpdateState),
}

impl View for ToClientMessage {
    type V = ToClientMessageView;

    open spec fn view(&self) -> ToClientMessageView {
        match *self {
            ToClientMessage::InitialState(state) => ToClientMessageView::InitialState(state@),
            ToClientMessage::EstablishAsHoop => ToClientMessageView::EstablishAsHoop,
            ToClientMessage::EstablishAsBall { id } => ToClientMessageView::EstablishAsBall { id },
            ToClientMessage::EstablishAsObserver => ToClientMessageView::EstablishAsObserver,
            ToClientMessage::UpdateState(update) => ToClientMessageView::UpdateState(update),
        }
    }
}

impl Clone for ToClientMessage {
    fn clone(&self) -> (copy: ToClientMessage)
        ensures
            copy@ == self@,
    {
        match self {
            ToClientMessage::InitialState(state) => ToClientMessage::InitialState(state.clone()),
            ToClientMessage::EstablishAsHoop => ToClientMessage::EstablishAsHoop,
            ToClientMessage::EstablishAsBall { id } => ToClientMessage::EstablishAsBall { id: *id },
            ToClientMessage::EstablishAsObserver => ToClientMessage::EstablishAsObserver,
            ToClientMessage::UpdateState(update) => ToClientMessage::UpdateState(*update),
        }
    }
}

/// What a client sends to the host.
#[derive(Clone, Copy, Debug, PartialEq, Eq, Structural)]
pub enum ToServerMessage {
    Hello { game_id: u32 },
    MoveHoop { direction: HorizontalDirection, seconds_pressed: Fixed },
    ShootBall { id: u32, angle: Angle, seconds_pressed: Fixed },
}

} // verus!

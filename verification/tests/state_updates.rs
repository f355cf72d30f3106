use nope_the_hoop::fixed::Fixed;
use nope_the_hoop::state::{GameState, Point, UpdateState};
use std::collections::HashMap;

fn fx(raw: i64) -> Fixed {
    Fixed { raw }
}

fn point(x: i64, y: i64) -> Point {
    Point { x: fx(x), y: fx(y) }
}

fn state(hoop_x: i64, balls: &[(u32, Point)]) -> GameState {
    let mut ball_positions = HashMap::new();
    for (id, position) in balls.iter() {
        ball_positions.insert(*id, *position);
    }
    GameState { hoop_x: fx(hoop_x), ball_positions }
}

#[test]
fn move_hoop_sets_the_hoop() {
    let mut held = state(5, &[(0, point(1, 2))]);
    UpdateState::MoveHoop { x: fx(77) }.apply(&mut held);
    assert_eq!(held, state(77, &[(0, point(1, 2))]));
}

#[test]
fn add_ball_adds_a_ball() {
    let mut held = state(5, &[(0, point(1, 2))]);
    UpdateState::AddBall { id: 3, position: point(8, 9) }.apply(&mut held);
    assert_eq!(held, state(5, &[(0, point(1, 2)), (3, point(8, 9))]));
}

#[test]
fn add_ball_replaces_a_ball_of_the_same_id() {
    let mut held = state(5, &[(0, point(1, 2))]);
    UpdateState::AddBall { id: 0, position: point(8, 9) }.apply(&mut held);
    assert_eq!(held, state(5, &[(0, point(8, 9))]));
}

#[test]
fn move_ball_moves_a_ball() {
    let mut held = state(5, &[(0, point(1, 2)), (1, point(3, 4))]);
    UpdateState::MoveBall { id: 1, position: point(-8, -9) }.apply(&mut held);
    assert_eq!(held, state(5, &[(0, point(1, 2)), (1, point(-8, -9))]));
}

#[test]
fn move_ball_of_an_unknown_ball_is_dropped() {
    let mut held = state(5, &[]);
    UpdateState::MoveBall { id: 4, position: point(6, 7) }.apply(&mut held);
    assert_eq!(held, state(5, &[]));
    let mut held = state(5, &[(0, point(1, 2))]);
    UpdateState::MoveBall { id: 4, position: point(6, 7) }.apply(&mut held);
    assert_eq!(held, state(5, &[(0, point(1, 2))]));
}

#[test]
fn remove_ball_removes_a_ball() {
    let mut held = state(5, &[(0, point(1, 2)), (1, point(3, 4))]);
    UpdateState::RemoveBall { id: 0 }.apply(&mut held);
    assert_eq!(held, state(5, &[(1, point(3, 4))]));
}

#[test]
fn remove_ball_of_an_unknown_ball_changes_nothing() {
    let mut held = state(5, &[(0, point(1, 2))]);
    UpdateState::RemoveBall { id: 9 }.apply(&mut held);
    assert_eq!(held, state(5, &[(0, point(1, 2))]));
}

#[test]
fn a_clone_of_a_state_equals_it() {
    let held = state(5, &[(0, point(1, 2)), (1, point(3, 4))]);
    assert_eq!(held.clone(), held);
}

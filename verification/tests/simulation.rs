use nope_the_hoop::fixed::{Angle, Fixed};
use nope_the_hoop::message::{HorizontalDirection, ToClientMessage};
use nope_the_hoop::sim::{
    calculate_ball_velocity, Game, BALL_MAX_SPEED, BALL_SPEED_PER_SECOND_PRESSED, GRAVITY,
    HOOP_MAX_X, HOOP_MIN_X, HOOP_SPEED, INITIAL_HOOP_X, SINGLE_BALL_ID, SINGLE_BALL_X,
    SINGLE_BALL_Y,
};
use nope_the_hoop::state::{GameState, Point, UpdateState};
use std::collections::HashMap;

fn fx(raw: i64) -> Fixed {
    Fixed { raw }
}

fn point(x: i64, y: i64) -> Point {
    Point { x: fx(x), y: fx(y) }
}

fn angle(cos: i64, sin: i64) -> Angle {
    Angle { cos: fx(cos), sin: fx(sin) }
}

fn east() -> Angle {
    angle(1_000_000, 0)
}

fn north() -> Angle {
    angle(0, 1_000_000)
}

fn one_ball_at(x: i64, y: i64) -> HashMap<u32, Point> {
    let mut balls = HashMap::new();
    balls.insert(0, point(x, y));
    balls
}

#[test]
fn constants_have_their_values() {
    assert_eq!(INITIAL_HOOP_X, 100_000_000);
    assert_eq!(HOOP_MIN_X, 0);
    assert_eq!(HOOP_MAX_X, 200_000_000);
    assert_eq!(HOOP_SPEED, 100_000_000);
    assert_eq!(SINGLE_BALL_ID, 0);
    assert_eq!(SINGLE_BALL_X, -100_000_000);
    assert_eq!(SINGLE_BALL_Y, 10_000_000);
    assert_eq!(BALL_SPEED_PER_SECOND_PRESSED, 100_000_000);
    assert_eq!(BALL_MAX_SPEED, 100_000_000);
    assert_eq!(GRAVITY, 9_810_000);
}

#[test]
fn a_game_starts_with_the_hoop_in_the_middle_and_one_ball() {
    let game = Game::default();
    assert_eq!(
        *game.state(),
        GameState { hoop_x: fx(100_000_000), ball_positions: one_ball_at(-100_000_000, 10_000_000) }
    );
}

#[test]
fn the_hoop_moves_by_speed_times_duration() {
    let mut game = Game::default();
    game.move_hoop(HorizontalDirection::Right, fx(250_000));
    assert_eq!(game.state().hoop_x, fx(125_000_000));
    game.move_hoop(HorizontalDirection::Left, fx(500_000));
    assert_eq!(game.state().hoop_x, fx(75_000_000));
    game.move_hoop(HorizontalDirection::Left, fx(16_000));
    assert_eq!(game.state().hoop_x, fx(73_400_000));
}

#[test]
fn the_hoop_stops_at_the_right_wall() {
    let mut game = Game::default();
    game.move_hoop(HorizontalDirection::Right, fx(1_000_000));
    assert_eq!(game.state().hoop_x, fx(200_000_000));
    game.move_hoop(HorizontalDirection::Right, fx(5_000_000));
    assert_eq!(game.state().hoop_x, fx(200_000_000));
}

#[test]
fn the_hoop_stops_at_the_left_wall() {
    let mut game = Game::default();
    game.move_hoop(HorizontalDirection::Left, fx(1_000_000));
    assert_eq!(game.state().hoop_x, fx(0));
    game.move_hoop(HorizontalDirection::Left, fx(3_000_000));
    assert_eq!(game.state().hoop_x, fx(0));
}

#[test]
fn the_hoop_stays_between_the_walls_whatever_the_duration() {
    let durations = [i64::MAX, i64::MIN, -1, 0, 1, 999_999, 1_000_001, -5_000_000];
    let mut game = Game::default();
    for &duration in durations.iter() {
        for direction in [HorizontalDirection::Left, HorizontalDirection::Right] {
            game.move_hoop(direction, fx(duration));
            let x = game.state().hoop_x.raw;
            assert!(HOOP_MIN_X <= x && x <= HOOP_MAX_X);
        }
    }
}

#[test]
fn a_negative_duration_moves_the_hoop_the_other_way() {
    let mut game = Game::default();
    game.move_hoop(HorizontalDirection::Right, fx(-100_000));
    assert_eq!(game.state().hoop_x, fx(90_000_000));
}

#[test]
fn moving_the_hoop_leaves_the_balls() {
    let mut game = Game::default();
    game.move_hoop(HorizontalDirection::Right, fx(100_000));
    assert_eq!(game.state().ball_positions, one_ball_at(-100_000_000, 10_000_000));
}

#[test]
fn a_shot_gains_speed_with_the_press() {
    assert_eq!(calculate_ball_velocity(east(), fx(500_000)), point(50_000_000, 0));
    assert_eq!(calculate_ball_velocity(north(), fx(250_000)), point(0, 25_000_000));
}

#[test]
fn a_shot_is_no_faster_than_the_greatest_speed() {
    assert_eq!(calculate_ball_velocity(east(), fx(1_000_000)), point(100_000_000, 0));
    assert_eq!(calculate_ball_velocity(east(), fx(7_000_000)), point(100_000_000, 0));
    assert_eq!(calculate_ball_velocity(east(), fx(i64::MAX)), point(100_000_000, 0));
}

#[test]
fn a_shot_with_a_negative_press_has_no_speed() {
    assert_eq!(calculate_ball_velocity(east(), fx(-1_000_000)), point(0, 0));
    assert_eq!(calculate_ball_velocity(north(), fx(i64::MIN)), point(0, 0));
}

#[test]
fn a_shot_points_along_its_angle() {
    // 60 degrees: cos 0.5, sin 0.866025
    assert_eq!(
        calculate_ball_velocity(angle(500_000, 866_025), fx(1_000_000)),
        point(50_000_000, 86_602_500)
    );
    // 180 degrees
    assert_eq!(
        calculate_ball_velocity(angle(-1_000_000, 0), fx(300_000)),
        point(-30_000_000, 0)
    );
}

#[test]
fn a_ball_at_rest_stays_and_is_not_reported() {
    let mut game = Game::default();
    let mut updates = Vec::new();
    game.update(fx(100_000), &mut updates);
    assert_eq!(updates, Vec::<ToClientMessage>::new());
    assert_eq!(game.state().ball_positions, one_ball_at(-100_000_000, 10_000_000));
}

#[test]
fn a_shot_ball_moves_with_its_velocity() {
    let mut game = Game::default();
    game.shoot_ball(0, east(), fx(1_000_000));
    let mut updates = Vec::new();
    game.update(fx(100_000), &mut updates);
    assert_eq!(
        updates,
        vec![ToClientMessage::UpdateState(UpdateState::MoveBall {
            id: 0,
            position: point(-90_000_000, 10_000_000),
        })]
    );
    assert_eq!(game.state().ball_positions, one_ball_at(-90_000_000, 10_000_000));
}

#[test]
fn gravity_acts_after_the_move() {
    let mut game = Game::default();
    game.shoot_ball(0, east(), fx(1_000_000));
    let mut updates = Vec::new();
    // the first tick moves the ball level, and takes 9.81 * 0.1 off the
    // upward speed
    game.update(fx(100_000), &mut updates);
    // so the second tick moves it down by 0.981 * 0.1
    game.update(fx(100_000), &mut updates);
    assert_eq!(
        updates,
        vec![
            ToClientMessage::UpdateState(UpdateState::MoveBall {
                id: 0,
                position: point(-90_000_000, 10_000_000),
            }),
            ToClientMessage::UpdateState(UpdateState::MoveBall {
                id: 0,
                position: point(-80_000_000, 9_901_900),
            }),
        ]
    );
    // and the third by (0.981 + 0.981) * 0.1
    game.update(fx(100_000), &mut updates);
    assert_eq!(game.state().ball_positions, one_ball_at(-70_000_000, 9_705_700));
}

#[test]
fn update_appends_to_what_is_there() {
    let mut game = Game::default();
    game.shoot_ball(0, north(), fx(100_000));
    let mut updates = vec![ToClientMessage::EstablishAsObserver];
    game.update(fx(1_000_000), &mut updates);
    assert_eq!(
        updates,
        vec![
            ToClientMessage::EstablishAsObserver,
            ToClientMessage::UpdateState(UpdateState::MoveBall {
                id: 0,
                position: point(-100_000_000, 20_000_000),
            }),
        ]
    );
}

#[test]
fn a_tick_of_no_time_reports_the_ball_where_it_is() {
    let mut game = Game::default();
    game.shoot_ball(0, east(), fx(1_000_000));
    let mut updates = Vec::new();
    game.update(fx(0), &mut updates);
    assert_eq!(
        updates,
        vec![ToClientMessage::UpdateState(UpdateState::MoveBall {
            id: 0,
            position: point(-100_000_000, 10_000_000),
        })]
    );
}

#[test]
fn shooting_a_ball_that_is_not_there_changes_nothing() {
    let mut game = Game::default();
    game.shoot_ball(7, east(), fx(1_000_000));
    let mut updates = Vec::new();
    game.update(fx(100_000), &mut updates);
    assert_eq!(updates, Vec::<ToClientMessage>::new());
    assert_eq!(
        *game.state(),
        GameState { hoop_x: fx(100_000_000), ball_positions: one_ball_at(-100_000_000, 10_000_000) }
    );
}

#[test]
fn a_second_shot_replaces_the_velocity() {
    let mut game = Game::default();
    game.shoot_ball(0, east(), fx(1_000_000));
    game.shoot_ball(0, north(), fx(500_000));
    let mut updates = Vec::new();
    game.update(fx(200_000), &mut updates);
    assert_eq!(game.state().ball_positions, one_ball_at(-100_000_000, 20_000_000));
}

#[test]
fn shooting_and_ticking_leave_the_hoop() {
    let mut game = Game::default();
    game.shoot_ball(0, east(), fx(1_000_000));
    let mut updates = Vec::new();
    game.update(fx(100_000), &mut updates);
    assert_eq!(game.state().hoop_x, fx(100_000_000));
}

#[test]
fn a_ball_far_out_stops_at_the_end_of_the_range() {
    let mut game = Game::default();
    game.shoot_ball(0, angle(i64::MAX, 0), fx(1_000_000));
    let mut updates = Vec::new();
    game.update(fx(i64::MAX), &mut updates);
    assert_eq!(game.state().ball_positions, one_ball_at(i64::MAX - 100_000_000, 10_000_000));
    game.update(fx(i64::MAX), &mut updates);
    assert_eq!(game.state().ball_positions, one_ball_at(i64::MAX, i64::MIN + 10_000_000));
}

#[test]
fn the_updates_of_a_tick_applied_to_the_old_state_give_the_new_state() {
    let mut game = Game::default();
    game.shoot_ball(0, angle(600_000, 800_000), fx(700_000));
    let mut mirror = game.state().clone();
    for elapsed in [16_000, 17_000, 0, 250_000, 1_000_000] {
        let mut updates = Vec::new();
        game.update(fx(elapsed), &mut updates);
        for message in updates.iter() {
            match message {
                ToClientMessage::UpdateState(update) => update.apply(&mut mirror),
                other => panic!("not an update: {:?}", other),
            }
        }
        assert_eq!(mirror, *game.state());
    }
}

#[test]
fn two_ticks_move_a_ball_sideways_like_one_tick_of_both_durations() {
    let shot = angle(333_333, 942_809);
    let mut twice = Game::default();
    twice.shoot_ball(0, shot, fx(777_777));
    let mut once = Game::default();
    once.shoot_ball(0, shot, fx(777_777));
    let mut updates = Vec::new();
    twice.update(fx(16_667), &mut updates);
    twice.update(fx(33_336), &mut updates);
    once.update(fx(50_003), &mut updates);
    let two = twice.state().ball_positions[&0].x.raw;
    let one = once.state().ball_positions[&0].x.raw;
    assert_eq!(one, -98_703_629);
    assert_eq!(two, -98_703_630);
    assert!((two - one).abs() <= 1);
}

#[test]
fn many_ticks_add_up_to_one_tick_of_the_whole_duration_but_for_rounding() {
    let shot = angle(-707_107, 707_107);
    let durations = [16_667i64, 16_666, 0, 33_333, 1, 999, 250_000, 16_667];
    let whole: i64 = durations.iter().sum();
    let ticks = durations.len() as i64;
    let mut many = Game::default();
    many.shoot_ball(0, shot, fx(654_321));
    let mut once = Game::default();
    once.shoot_ball(0, shot, fx(654_321));
    let mut updates = Vec::new();
    for duration in durations {
        many.update(fx(duration), &mut updates);
    }
    once.update(fx(whole), &mut updates);
    let x_many = many.state().ball_positions[&0].x.raw;
    let x_once = once.state().ball_positions[&0].x.raw;
    assert!((x_many - x_once).abs() <= ticks);
    // one more tick shows the upward speed that each game has reached
    let y_many = many.state().ball_positions[&0].y.raw;
    let y_once = once.state().ball_positions[&0].y.raw;
    many.update(fx(1_000_000), &mut updates);
    once.update(fx(1_000_000), &mut updates);
    let up_many = many.state().ball_positions[&0].y.raw - y_many;
    let up_once = once.state().ball_positions[&0].y.raw - y_once;
    assert!(0 <= up_many - up_once && up_many - up_once <= ticks);
}

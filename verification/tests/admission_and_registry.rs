use nope_the_hoop::admission::{process_hello, HelloError, HelloRead, HELLO_TIMEOUT_MILLIS};
use nope_the_hoop::fixed::{Angle, Fixed};
use nope_the_hoop::host::GameHost;
use nope_the_hoop::message::{HorizontalDirection, ToServerMessage};
use nope_the_hoop::registry::Registry;

#[test]
fn a_client_has_half_a_second_to_say_hello() {
    assert_eq!(HELLO_TIMEOUT_MILLIS, 500);
}

#[test]
fn a_hello_names_the_session() {
    assert_eq!(process_hello(HelloRead::Message(ToServerMessage::Hello { game_id: 7 })), Ok(7));
    assert_eq!(process_hello(HelloRead::Message(ToServerMessage::Hello { game_id: 0 })), Ok(0));
    assert_eq!(
        process_hello(HelloRead::Message(ToServerMessage::Hello { game_id: u32::MAX })),
        Ok(u32::MAX)
    );
}

#[test]
fn a_timeout_is_a_failure() {
    assert_eq!(process_hello(HelloRead::TimedOut), Err(HelloError::TimedOut));
}

#[test]
fn a_closed_connection_is_a_failure() {
    assert_eq!(process_hello(HelloRead::Closed), Err(HelloError::ClosedBeforeHello));
}

#[test]
fn a_failed_read_is_a_failure() {
    assert_eq!(process_hello(HelloRead::Failed), Err(HelloError::ReadFailed));
}

#[test]
fn another_message_is_a_failure() {
    let moved = ToServerMessage::MoveHoop {
        direction: HorizontalDirection::Left,
        seconds_pressed: Fixed { raw: 5 },
    };
    assert_eq!(process_hello(HelloRead::Message(moved)), Err(HelloError::NotHello { got: moved }));
    let shot = ToServerMessage::ShootBall {
        id: 0,
        angle: Angle { cos: Fixed { raw: 0 }, sin: Fixed { raw: 1_000_000 } },
        seconds_pressed: Fixed { raw: 5 },
    };
    assert_eq!(process_hello(HelloRead::Message(shot)), Err(HelloError::NotHello { got: shot }));
}

#[test]
fn a_session_is_started_for_the_first_connection_only() {
    let mut registry = Registry::new();
    assert!(!registry.is_running(7));
    assert!(registry.route(7));
    assert!(registry.is_running(7));
    assert!(!registry.route(7));
    assert!(!registry.route(7));
    assert!(registry.route(8));
    assert!(registry.is_running(7));
    assert!(registry.is_running(8));
}

#[test]
fn a_session_that_was_reaped_is_started_anew() {
    let mut registry = Registry::new();
    assert!(registry.route(7));
    assert!(registry.route(8));
    assert!(registry.reap(7));
    assert!(!registry.is_running(7));
    assert!(registry.is_running(8));
    assert!(registry.route(7));
}

#[test]
fn reaping_an_unknown_session_changes_nothing() {
    let mut registry = Registry::new();
    assert!(registry.route(8));
    assert!(!registry.reap(7));
    assert!(registry.is_running(8));
    assert!(!registry.is_running(7));
}

#[test]
fn the_session_of_a_hello_is_hosted_until_it_ends() {
    let mut registry = Registry::new();
    let game_id = process_hello(HelloRead::Message(ToServerMessage::Hello { game_id: 7 }))
        .expect("hello");
    assert!(registry.route(game_id));
    let mut host = GameHost::new(game_id);
    host.new_client();
    assert_eq!(host.await_end(), None);
    host.handle(nope_the_hoop::host::Event::WriteFailed { client: 0 });
    let ended = host.await_end().expect("ended");
    assert!(registry.reap(ended));
    assert!(!registry.is_running(7));
}

//! Admission of a connection: the first thing a client sends has to be a
//! hello that names the session it wants to join.

use crate::message::ToServerMessage;
use vstd::prelude::*;

verus! {

/// How long a client is given to say hello, in milliseconds.
pub const HELLO_TIMEOUT_MILLIS: u64 = 500;

/// How the wait for the first message of a connection ended.
#[derive(Clone, Copy, Debug, PartialEq, Eq, Structural)]
pub enum HelloRead {
    /// Nothing came in time.
    TimedOut,
    /// The client closed the connection.
    Closed,
    /// Reading or decoding failed.
    Failed,
    /// A message came.
    Message(ToServerMessage),
}

/// Why a connection is not admitted.
#[derive(Clone, Copy, Debug, PartialEq, Eq, Structural)]
pub enum HelloError {
    /// Nothing came in time.
    TimedOut,
    /// The client closed the connection before it said hello.
    ClosedBeforeHello,
    /// The hello could not be read.
    ReadFailed,
    /// The client sent something else.
    NotHello { got: ToServerMessage },
}

/// The session that a connection asks for: the one its hello names. Any
/// other end of the wait is a failure, and the connection is to be dropped.
pub fn process_hello(read: HelloRead) -> (admitted: Result<u32, HelloError>)
    ensures
        admitted == (match read {
            HelloRead::TimedOut => Err::<u32, HelloError>(HelloError::TimedOut),
            HelloRead::Closed => Err(HelloError::ClosedBeforeHello),
            HelloRead::Failed => Err(HelloError::ReadFailed),
            HelloRead::Message(ToServerMessage::Hello { game_id }) => Ok(game_id),
            HelloRead::Message(other) => Err(HelloError::NotHello { got: other }),
        }),
{
    match read {
        HelloRead::TimedOut => Err(HelloError::TimedOut),
        HelloRead::Closed => Err(HelloError::ClosedBeforeHello),
        HelloRead::Failed => Err(HelloError::ReadFailed),
        HelloRead::Message(client_message) => match client_message {
            ToServerMessage::Hello { game_id } => Ok(game_id),
            _ => Err(HelloError::NotHello { got: client_message }),
        },
    }
}

} // verus!

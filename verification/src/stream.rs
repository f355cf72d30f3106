//! Framing for a caller that is polled for one message at a time.

use crate::frame::{first_frame, framed, take_frame, write_frame, FrameError, Parsed, MAX_MESSAGE_SIZE};
use vstd::prelude::*;

verus! {

/// The receiving end of a stream of frames. It keeps the bytes that have
/// arrived and were not yielded yet.
pub struct MessageStream {
    read_buf: Vec<u8>,
}

impl View for MessageStream {
    type V = Seq<u8>;

    /// The bytes that have arrived and were not yielded yet.
    closed spec fn view(&self) -> Seq<u8> {
        self.read_buf@
    }
}

impl MessageStream {
    /// A stream on which nothing has arrived yet.
    pub fn new() -> (stream: MessageStream)
        ensures
            stream@ == Seq::<u8>::empty(),
    {
        MessageStream { read_buf: Vec::new() }
    }

    /// Takes in bytes that were read.
    pub fn push(&mut self, input: &[u8])
        ensures
            final(self)@ == old(self)@ + input@,
    {
        self.read_buf.extend_from_slice(input);
        assert(self.read_buf@ =~= old(self)@ + input@);
    }

    /// The payload of the next message, once its whole frame has arrived;
    /// `None` while it has not. Fails, and goes on failing, when the frame
    /// announces a length that is not accepted.
    pub fn poll_next(&mut self) -> (next: Option<Result<Vec<u8>, FrameError>>)
        ensures
            match first_frame(old(self)@) {
                Parsed::Incomplete => next is None && final(self)@ == old(self)@,
                Parsed::TooLong { len } => next == Some(
                    Err::<Vec<u8>, FrameError>(FrameError::MessageTooLong { len: len as usize }),
                ) && final(self)@ == old(self)@,
                Parsed::Frame { payload, rest } => {
                    &&& next matches Some(Ok(bytes))
                    &&& bytes@ == payload
                    &&& final(self)@ == rest
                },
            },
    {
        take_frame(&mut self.read_buf)
    }
}

/// The bytes to write for one message: its frame. A payload longer than a
/// frame may hold is refused.
pub fn write_message(payload: &[u8]) -> (frame: Result<Vec<u8>, FrameError>)
    ensures
        match frame {
            Ok(bytes) => payload@.len() <= MAX_MESSAGE_SIZE && bytes@ == framed(payload@),
            Err(error) => payload@.len() > MAX_MESSAGE_SIZE && error == (FrameError::MessageTooLong {
                len: payload@.len() as usize,
            }),
        },
{
    write_frame(payload)
}

} // verus!

//! Framing for a caller that reads whatever bytes are at hand and wants
//! every message that has arrived in full.

use crate::frame::{decoded, framed, payload_views, take_frames, write_frame, FrameError, MAX_MESSAGE_SIZE};
use vstd::prelude::*;

verus! {

/// The receiving end of a stream of frames. It keeps the bytes that have
/// arrived and do not make up a whole frame yet.
pub struct MessageStream {
    read_buf: Vec<u8>,
}

impl View for MessageStream {
    type V = Seq<u8>;

    /// The bytes that have arrived and were not yielded yet.
    closed spec fn view(&self) -> Seq<u8> {
        self.read_buf@
    }
}

/// The kinds of failure of a read that a caller tells apart.
#[derive(Clone, Copy, Debug, PartialEq, Eq, Structural)]
pub enum ReadErrorKind {
    /// Nothing to read at the moment.
    WouldBlock,
    /// Any other failure.
    Other,
}

/// Whether a failed read only means that no more bytes are at hand for now,
/// so that reading stops without an error.
pub fn should_break(io_error_kind: ReadErrorKind) -> (stop: bool)
    ensures
        stop == (io_error_kind is WouldBlock),
{
    match io_error_kind {
        ReadErrorKind::WouldBlock => true,
        _ => false,
    }
}

impl MessageStream {
    /// A stream on which nothing has arrived yet.
    pub fn new() -> (stream: MessageStream)
        ensures
            stream@ == Seq::<u8>::empty(),
    {
        MessageStream { read_buf: Vec::new() }
    }

    /// Takes in the bytes just read and yields the payload of every frame
    /// that is now complete, in order. What follows the last whole frame is
    /// kept for the next call. Fails when a frame announces a length that is
    /// not accepted.
    pub fn read_messages(&mut self, input: &[u8]) -> (messages: Result<Vec<Vec<u8>>, FrameError>)
        ensures
            final(self)@ == decoded(old(self)@ + input@).rest,
            match messages {
                Ok(payloads) => {
                    &&& decoded(old(self)@ + input@).too_long is None
                    &&& payload_views(payloads@) == decoded(old(self)@ + input@).payloads
                },
                Err(error) => {
                    &&& decoded(old(self)@ + input@).too_long matches Some(len)
                    &&& error == (FrameError::MessageTooLong { len: len as usize })
                },
            },
    {
        self.read_buf.extend_from_slice(input);
        assert(self.read_buf@ =~= old(self)@ + input@);
        take_frames(&mut self.read_buf)
    }

    /// The bytes to write for one message: its frame. A payload longer
    /// than a frame may hold is refused.
    pub fn write_message(&self, payload: &[u8]) -> (frame: Result<Vec<u8>, FrameError>)
        ensures
            match frame {
                Ok(bytes) => payload@.len() <= MAX_MESSAGE_SIZE && bytes@ == framed(payload@),
                Err(error) => payload@.len() > MAX_MESSAGE_SIZE && error == (
                FrameError::MessageTooLong { len: payload@.len() as usize }),
            },
    {
        write_frame(payload)
    }
}

} // verus!

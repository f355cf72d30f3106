//! Frames: one message on the wire is its length in two bytes, low byte
//! first, followed by that many bytes of payload.

use vstd::prelude::*;

verus! {

/// The longest payload of a frame: a longer one is neither written nor
/// accepted when read.
pub const MAX_MESSAGE_SIZE: usize = 512;

/// The number of bytes that hold the length of a payload.
pub const LEN_SIZE: usize = 2;

/// Why a frame cannot be written or read.
#[derive(Clone, Copy, Debug, PartialEq, Eq, Structural)]
pub enum FrameError {
    /// The payload has `len` bytes, more than is allowed.
    MessageTooLong { len: usize },
}

/// The two bytes that announce a payload of `len` bytes.
pub open spec fn length_prefix(len: nat) -> Seq<u8>
    recommends
        len <= MAX_MESSAGE_SIZE,
{
    seq![(len % 256) as u8, (len / 256) as u8]
}

/// The length that the first two bytes announce.
pub open spec fn announced_length(bytes: Seq<u8>) -> nat
    recommends
        bytes.len() >= LEN_SIZE,
{
    (bytes[0] as nat) + 256 * (bytes[1] as nat)
}

/// The frame that carries `payload`.
pub open spec fn framed(payload: Seq<u8>) -> Seq<u8>
    recommends
        payload.len() <= MAX_MESSAGE_SIZE,
{
    length_prefix(payload.len()) + payload
}

/// What stands at the start of the bytes received so far.
pub enum Parsed {
    /// No whole frame yet.
    Incomplete,
    /// A length beyond what a reader accepts.
    TooLong { len: nat },
    /// A whole frame, and the bytes that follow it.
    Frame { payload: Seq<u8>, rest: Seq<u8> },
}

/// What stands at the start of `bytes`.
pub open spec fn first_frame(bytes: Seq<u8>) -> Parsed {
    if bytes.len() < LEN_SIZE {
        Parsed::Incomplete
    } else if announced_length(bytes) > MAX_MESSAGE_SIZE {
        Parsed::TooLong { len: announced_length(bytes) }
    } else if bytes.len() < LEN_SIZE + announced_length(bytes) {
        Parsed::Incomplete
    } else {
        Parsed::Frame {
            payload: bytes.subrange(LEN_SIZE as int, LEN_SIZE + announced_length(bytes)),
            rest: bytes.subrange(LEN_SIZE + announced_length(bytes), bytes.len() as int),
        }
    }
}

/// All that a stretch of bytes holds.
pub struct Decoded {
    /// The payloads of the whole frames, in order.
    pub payloads: Seq<Seq<u8>>,
    /// The bytes after the last whole frame.
    pub rest: Seq<u8>,
    /// The length that `rest` announces, if it is beyond what a reader
    /// accepts.
    pub too_long: Option<nat>,
}

/// All that `bytes` holds: frame after frame, up to the first place where no
/// whole frame stands or the announced length is not accepted.
pub open spec fn decoded(bytes: Seq<u8>) -> Decoded
    decreases bytes.len(),
{
    match first_frame(bytes) {
        Parsed::Incomplete => Decoded { payloads: Seq::empty(), rest: bytes, too_long: None },
        Parsed::TooLong { len } => Decoded {
            payloads: Seq::empty(),
            rest: bytes,
            too_long: Some(len),
        },
        Parsed::Frame { payload, rest } => {
            let later = decoded(rest);
            Decoded {
                payloads: seq![payload] + later.payloads,
                rest: later.rest,
                too_long: later.too_long,
            }
        },
    }
}

/// The frames of `payloads`, one after the other.
pub open spec fn framed_all(payloads: Seq<Seq<u8>>) -> Seq<u8>
    decreases payloads.len(),
{
    if payloads.len() == 0 {
        Seq::empty()
    } else {
        framed(payloads.first()) + framed_all(payloads.drop_first())
    }
}

/// The contents of each buffer.
pub open spec fn payload_views(payloads: Seq<Vec<u8>>) -> Seq<Seq<u8>> {
    payloads.map_values(|payload: Vec<u8>| payload@)
}

/// The frame that carries `payload`. A payload longer than a
/// frame may hold is refused.
pub fn write_frame(payload: &[u8]) -> (frame: Result<Vec<u8>, FrameError>)
    ensures
        match frame {
            Ok(bytes) => payload@.len() <= MAX_MESSAGE_SIZE && bytes@ == framed(payload@),
            Err(error) => payload@.len() > MAX_MESSAGE_SIZE && error == (FrameError::MessageTooLong {
                len: payload@.len() as usize,
            }),
        },
{
    let len: usize = payload.len();
    if len > MAX_MESSAGE_SIZE {
        return Err(FrameError::MessageTooLong { len });
    }
    let mut bytes: Vec<u8> = Vec::new();
    bytes.push((len % 256) as u8);
    bytes.push((len / 256) as u8);
    bytes.extend_from_slice(payload);
    assert(bytes@ =~= framed(payload@));
    Ok(bytes)
}

/// Takes the first frame off `buffer`, if a whole one stands there, and
/// yields its payload. While the frame is incomplete, and when the length it
/// announces is not accepted, the buffer stays as it is.
pub fn take_frame(buffer: &mut Vec<u8>) -> (taken: Option<Result<Vec<u8>, FrameError>>)
    ensures
        match first_frame(old(buffer)@) {
            Parsed::Incomplete => taken is None && final(buffer)@ == old(buffer)@,
            Parsed::TooLong { len } => taken == Some(
                Err::<Vec<u8>, FrameError>(FrameError::MessageTooLong { len: len as usize }),
            ) && final(buffer)@ == old(buffer)@,
            Parsed::Frame { payload, rest } => {
                &&& taken matches Some(Ok(bytes))
                &&& bytes@ == payload
                &&& final(buffer)@ == rest
            },
        },
{
    if buffer.len() < LEN_SIZE {
        return None;
    }
    let len: usize = buffer[0] as usize + 256 * (buffer[1] as usize);
    if len > MAX_MESSAGE_SIZE {
        return Some(Err(FrameError::MessageTooLong { len }));
    }
    if buffer.len() < LEN_SIZE + len {
        return None;
    }
    let rest = buffer.split_off(LEN_SIZE + len);
    let payload = buffer.split_off(LEN_SIZE);
    *buffer = rest;
    proof {
        assert(payload@ =~= old(buffer)@.subrange(LEN_SIZE as int, LEN_SIZE + len));
    }
    Some(Ok(payload))
}

/// Takes every whole frame off `buffer` and yields the payloads in order.
/// Fails at the first length that is not accepted; the buffer then starts
/// with that length.
pub fn take_frames(buffer: &mut Vec<u8>) -> (taken: Result<Vec<Vec<u8>>, FrameError>)
    ensures
        final(buffer)@ == decoded(old(buffer)@).rest,
        match taken {
            Ok(payloads) => decoded(old(buffer)@).too_long is None && payload_views(payloads@)
                == decoded(old(buffer)@).payloads,
            Err(error) => decoded(old(buffer)@).too_long matches Some(len) && error == (
            FrameError::MessageTooLong { len: len as usize }),
        },
{
    let mut payloads: Vec<Vec<u8>> = Vec::new();
    assert(payload_views(payloads@) =~= Seq::empty());
    loop
        invariant
            decoded(old(buffer)@).payloads == payload_views(payloads@) + decoded(
                buffer@,
            ).payloads,
            decoded(old(buffer)@).rest == decoded(buffer@).rest,
            decoded(old(buffer)@).too_long == decoded(buffer@).too_long,
        decreases buffer@.len(),
    {
        let ghost before = buffer@;
        let ghost done = payload_views(payloads@);
        match take_frame(buffer) {
            None => {
                assert(done + Seq::<Seq<u8>>::empty() =~= done);
                return Ok(payloads);
            },
            Some(Err(error)) => {
                return Err(error);
            },
            Some(Ok(payload)) => {
                proof {
                    assert(payload_views(payloads@.push(payload)) =~= done.push(payload@));
                    assert(done + (seq![payload@] + decoded(buffer@).payloads) =~= done.push(
                        payload@,
                    ) + decoded(buffer@).payloads);
                }
                payloads.push(payload);
            },
        }
    }
}

/// Reading gives back what was written.
///
/// Bytes that start with the frame of a payload that a reader accepts hold
/// that payload first, and after it whatever followed the frame.
pub proof fn lemma_first_frame_of_framed(payload: Seq<u8>, tail: Seq<u8>)
    requires
        payload.len() <= MAX_MESSAGE_SIZE,
    ensures
        first_frame(framed(payload) + tail) == (Parsed::Frame { payload, rest: tail }),
{
    let bytes = framed(payload) + tail;
    assert(bytes[0] == (payload.len() % 256) as u8);
    assert(bytes[1] == (payload.len() / 256) as u8);
    assert(announced_length(bytes) == payload.len());
    assert(bytes.subrange(LEN_SIZE as int, LEN_SIZE + payload.len()) =~= payload);
    assert(bytes.subrange(LEN_SIZE + payload.len(), bytes.len() as int) =~= tail);
}

/// Reading gives back everything that was written, in order.
///
/// The frames of any payloads that a reader accepts, followed by bytes in
/// which no whole frame stands, hold exactly those payloads and leave those
/// bytes.
pub proof fn lemma_decoded_of_framed_all(payloads: Seq<Seq<u8>>, tail: Seq<u8>)
    requires
        forall|i: int| 0 <= i < payloads.len() ==> (#[trigger] payloads[i]).len() <= MAX_MESSAGE_SIZE,
        first_frame(tail) is Incomplete,
    ensures
        decoded(framed_all(payloads) + tail) == (Decoded { payloads, rest: tail, too_long: None }),
    decreases payloads.len(),
{
    if payloads.len() == 0 {
        assert(framed_all(payloads) + tail =~= tail);
        assert(payloads =~= Seq::empty());
    } else {
        let later = payloads.drop_first();
        assert forall|i: int| 0 <= i < later.len() implies (#[trigger] later[i]).len()
            <= MAX_MESSAGE_SIZE by {
            assert(later[i] == payloads[i + 1]);
        }
        lemma_decoded_of_framed_all(later, tail);
        lemma_first_frame_of_framed(payloads.first(), framed_all(later) + tail);
        assert(framed_all(payloads) + tail =~= framed(payloads.first()) + (framed_all(later)
            + tail));
        assert(seq![payloads.first()] + later =~= payloads);
    }
}

/// It does not matter in how many pieces the bytes arrive.
///
/// Decoding `first`, and then what it left together with `second`, yields
/// the same payloads, the same rest and the same verdict on the length as
/// decoding both at once.
pub proof fn lemma_decoded_in_pieces(first: Seq<u8>, second: Seq<u8>)
    requires
        decoded(first).too_long is None,
    ensures
        decoded(first + second).payloads == decoded(first).payloads + decoded(
            decoded(first).rest + second,
        ).payloads,
        decoded(first + second).rest == decoded(decoded(first).rest + second).rest,
        decoded(first + second).too_long == decoded(decoded(first).rest + second).too_long,
    decreases first.len(),
{
    let both = first + second;
    match first_frame(first) {
        Parsed::Incomplete => {
            assert(Seq::<Seq<u8>>::empty() + decoded(both).payloads =~= decoded(both).payloads);
        },
        Parsed::TooLong { len } => {},
        Parsed::Frame { payload, rest } => {
            assert(both[0] == first[0]);
            assert(both[1] == first[1]);
            let len = announced_length(first);
            assert(both.subrange(LEN_SIZE as int, LEN_SIZE + len) =~= payload);
            assert(both.subrange(LEN_SIZE + len, both.len() as int) =~= rest + second);
            lemma_decoded_in_pieces(rest, second);
            assert(seq![payload] + (decoded(rest).payloads + decoded(
                decoded(rest).rest + second,
            ).payloads) =~= (seq![payload] + decoded(rest).payloads) + decoded(
                decoded(rest).rest + second,
            ).payloads);
        },
    }
}

} // verus!

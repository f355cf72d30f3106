use nope_the_hoop::frame::{
    take_frame, take_frames, write_frame, FrameError, LEN_SIZE, MAX_MESSAGE_SIZE,
};
use nope_the_hoop::stream::{write_message, MessageStream as PolledStream};
use nope_the_hoop::sync::{should_break, MessageStream, ReadErrorKind};

fn text_payload(text: &String) -> Vec<u8> {
    let mut payload = Vec::new();
    ciborium::ser::into_writer(text, &mut payload).expect("serialize");
    payload
}

fn text_of(payload: &Vec<u8>) -> String {
    ciborium::de::from_reader::<String, _>(&payload[..]).expect("deserialize")
}

#[test]
fn limits_have_their_values() {
    assert_eq!(MAX_MESSAGE_SIZE, 512);
    assert_eq!(LEN_SIZE, 2);
}

#[test]
fn a_frame_is_the_length_low_byte_first_and_the_payload() {
    assert_eq!(write_frame(&[7, 8, 9]), Ok(vec![3, 0, 7, 8, 9]));
    assert_eq!(write_frame(&[]), Ok(vec![0, 0]));
    let long = vec![5u8; 258];
    let frame = write_frame(&long).expect("write");
    assert_eq!(frame[0], 2);
    assert_eq!(frame[1], 1);
    assert_eq!(frame[2..], long[..]);
}

#[test]
fn the_longest_frame_holds_512_bytes() {
    let payload = vec![1u8; 512];
    let frame = write_frame(&payload).expect("write");
    assert_eq!(frame.len(), 514);
    assert_eq!(frame[0], 0);
    assert_eq!(frame[1], 2);
    assert_eq!(frame[2..], payload[..]);
    assert_eq!(write_message(&payload), Ok(frame.clone()));
    assert_eq!(MessageStream::new().write_message(&payload), Ok(frame));
}

#[test]
fn a_payload_longer_than_a_frame_may_hold_is_refused() {
    let payload = vec![1u8; 513];
    assert_eq!(write_frame(&payload), Err(FrameError::MessageTooLong { len: 513 }));
    assert_eq!(write_message(&payload), Err(FrameError::MessageTooLong { len: 513 }));
    assert_eq!(
        MessageStream::new().write_message(&payload),
        Err(FrameError::MessageTooLong { len: 513 })
    );
    let payload = vec![1u8; 65536];
    assert_eq!(write_frame(&payload), Err(FrameError::MessageTooLong { len: 65536 }));
}

#[test]
fn whatever_is_written_is_read() {
    for len in [0usize, 1, 2, 255, 256, 257, 511, 512] {
        let payload = vec![7u8; len];
        let mut buffer = write_frame(&payload).expect("write");
        buffer.push(9);
        assert_eq!(take_frame(&mut buffer), Some(Ok(payload)));
        assert_eq!(buffer, vec![9]);
    }
}

#[test]
fn all_three_writers_write_the_same() {
    let payload = [1u8, 2, 3, 4];
    assert_eq!(write_message(&payload), Ok(vec![4, 0, 1, 2, 3, 4]));
    assert_eq!(MessageStream::new().write_message(&payload), Ok(vec![4, 0, 1, 2, 3, 4]));
    assert_eq!(write_frame(&payload), Ok(vec![4, 0, 1, 2, 3, 4]));
}

#[test]
fn take_frame_waits_for_the_whole_frame() {
    let mut buffer: Vec<u8> = vec![];
    assert_eq!(take_frame(&mut buffer), None);
    buffer.push(3);
    assert_eq!(take_frame(&mut buffer), None);
    buffer.push(0);
    assert_eq!(take_frame(&mut buffer), None);
    buffer.extend_from_slice(&[7, 8]);
    assert_eq!(take_frame(&mut buffer), None);
    assert_eq!(buffer, vec![3, 0, 7, 8]);
    buffer.push(9);
    assert_eq!(take_frame(&mut buffer), Some(Ok(vec![7, 8, 9])));
    assert_eq!(buffer, Vec::<u8>::new());
}

#[test]
fn take_frame_leaves_what_follows() {
    let mut buffer: Vec<u8> = vec![1, 0, 42, 2, 0, 5];
    assert_eq!(take_frame(&mut buffer), Some(Ok(vec![42])));
    assert_eq!(buffer, vec![2, 0, 5]);
    assert_eq!(take_frame(&mut buffer), None);
    assert_eq!(buffer, vec![2, 0, 5]);
}

#[test]
fn take_frame_takes_an_empty_payload() {
    let mut buffer: Vec<u8> = vec![0, 0, 1];
    assert_eq!(take_frame(&mut buffer), Some(Ok(vec![])));
    assert_eq!(buffer, vec![1]);
}

#[test]
fn a_length_of_512_is_accepted_and_513_is_not() {
    let mut buffer: Vec<u8> = vec![0, 2];
    buffer.extend_from_slice(&[9u8; 512]);
    assert_eq!(take_frame(&mut buffer), Some(Ok(vec![9u8; 512])));
    let mut buffer: Vec<u8> = vec![1, 2];
    assert_eq!(take_frame(&mut buffer), Some(Err(FrameError::MessageTooLong { len: 513 })));
    assert_eq!(buffer, vec![1, 2]);
    assert_eq!(take_frame(&mut buffer), Some(Err(FrameError::MessageTooLong { len: 513 })));
}

#[test]
fn a_length_that_is_not_accepted_fails_before_the_payload_comes() {
    let mut buffer: Vec<u8> = vec![255, 255];
    assert_eq!(take_frame(&mut buffer), Some(Err(FrameError::MessageTooLong { len: 65535 })));
}

#[test]
fn take_frames_takes_all_whole_frames() {
    let mut buffer: Vec<u8> = vec![1, 0, 42, 0, 0, 2, 0, 5, 6, 3, 0, 1];
    assert_eq!(take_frames(&mut buffer), Ok(vec![vec![42], vec![], vec![5, 6]]));
    assert_eq!(buffer, vec![3, 0, 1]);
    assert_eq!(take_frames(&mut buffer), Ok(vec![]));
    assert_eq!(buffer, vec![3, 0, 1]);
}

#[test]
fn take_frames_fails_at_the_first_length_that_is_not_accepted() {
    let mut buffer: Vec<u8> = vec![1, 0, 42, 1, 2, 7, 7];
    assert_eq!(take_frames(&mut buffer), Err(FrameError::MessageTooLong { len: 513 }));
    assert_eq!(buffer, vec![1, 2, 7, 7]);
}

#[test]
fn read_messages_yields_what_write_message_wrote() {
    let mut stream = MessageStream::new();
    let mut bytes = stream.write_message(&[1, 2, 3]).expect("write");
    bytes.extend(stream.write_message(&[]).expect("write"));
    bytes.extend(stream.write_message(&[4]).expect("write"));
    assert_eq!(stream.read_messages(&bytes), Ok(vec![vec![1, 2, 3], vec![], vec![4]]));
    assert_eq!(stream.read_messages(&[]), Ok(vec![]));
}

#[test]
fn read_messages_does_not_care_where_the_bytes_are_cut() {
    let bytes: Vec<u8> = vec![2, 0, 10, 11, 1, 0, 12, 3, 0, 13, 14, 15];
    for cut in 0..=bytes.len() {
        let mut stream = MessageStream::new();
        let mut messages = stream.read_messages(&bytes[..cut]).expect("read");
        messages.extend(stream.read_messages(&bytes[cut..]).expect("read"));
        assert_eq!(messages, vec![vec![10, 11], vec![12], vec![13, 14, 15]]);
    }
}

#[test]
fn read_messages_byte_by_byte() {
    let bytes: Vec<u8> = vec![2, 0, 10, 11, 1, 0, 12];
    let mut stream = MessageStream::new();
    let mut messages = Vec::new();
    for byte in bytes.iter() {
        messages.extend(stream.read_messages(&[*byte]).expect("read"));
    }
    assert_eq!(messages, vec![vec![10, 11], vec![12]]);
}

#[test]
fn read_messages_fails_on_a_length_that_is_not_accepted() {
    let mut stream = MessageStream::new();
    assert_eq!(stream.read_messages(&[1, 0, 9, 1]), Ok(vec![vec![9]]));
    assert_eq!(stream.read_messages(&[2]), Err(FrameError::MessageTooLong { len: 513 }));
    assert_eq!(stream.read_messages(&[]), Err(FrameError::MessageTooLong { len: 513 }));
}

#[test]
fn only_would_block_stops_a_read_without_an_error() {
    assert!(should_break(ReadErrorKind::WouldBlock));
    assert!(!should_break(ReadErrorKind::Other));
}

#[test]
fn poll_next_yields_one_message_at_a_time() {
    let mut stream = PolledStream::new();
    assert_eq!(stream.poll_next(), None);
    stream.push(&[1, 0, 42, 2, 0]);
    assert_eq!(stream.poll_next(), Some(Ok(vec![42])));
    assert_eq!(stream.poll_next(), None);
    stream.push(&[5]);
    assert_eq!(stream.poll_next(), None);
    stream.push(&[6, 0, 0]);
    assert_eq!(stream.poll_next(), Some(Ok(vec![5, 6])));
    assert_eq!(stream.poll_next(), Some(Ok(vec![])));
    assert_eq!(stream.poll_next(), None);
}

#[test]
fn poll_next_goes_on_failing() {
    let mut stream = PolledStream::new();
    stream.push(&[0, 3]);
    assert_eq!(stream.poll_next(), Some(Err(FrameError::MessageTooLong { len: 768 })));
    stream.push(&[1, 2, 3]);
    assert_eq!(stream.poll_next(), Some(Err(FrameError::MessageTooLong { len: 768 })));
}

#[test]
fn sync_roundtrip() {
    let messages = vec!["hello".to_owned(), "x".repeat(MAX_MESSAGE_SIZE - 3)];
    let mut wire: Vec<u8> = Vec::new();
    let writer = MessageStream::new();
    for message in &messages {
        wire.extend(writer.write_message(&text_payload(message)).expect("write"));
    }
    let mut stream = MessageStream::new();
    let mut read_messages: Vec<String> = vec![];
    // the bytes arrive in pieces, as they do from a socket
    for piece in wire.chunks(100) {
        let payloads = stream.read_messages(piece).expect("read");
        read_messages.extend(payloads.iter().map(text_of));
    }
    assert_eq!(messages, read_messages);
}

#[test]
fn stream_roundtrip() {
    let messages = vec!["hello".to_owned(), "x".repeat(MAX_MESSAGE_SIZE - 3)];
    let mut wire: Vec<u8> = Vec::new();
    for message in &messages {
        wire.extend(write_message(&text_payload(message)).expect("write"));
    }
    let mut stream = PolledStream::new();
    let mut read_messages: Vec<String> = vec![];
    for piece in wire.chunks(7) {
        stream.push(piece);
        while let Some(result) = stream.poll_next() {
            read_messages.push(text_of(&result.expect("read")));
        }
    }
    assert_eq!(messages, read_messages);
}

#[test]
fn a_text_one_longer_than_the_roundtrip_allows_is_not_written() {
    let payload = text_payload(&"x".repeat(MAX_MESSAGE_SIZE - 2));
    assert_eq!(payload.len(), 513);
    assert_eq!(write_message(&payload), Err(FrameError::MessageTooLong { len: 513 }));
}

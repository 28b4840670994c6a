use ensemble::codec::{
    encode_length, parse_length, read_message, write_message, CodecError, MAX_FRAME_SIZE,
};

#[test]
fn a_frame_is_its_length_and_its_payload() {
    assert_eq!(write_message(&vec![7, 8, 9]), vec![3, 0, 0, 0, 7, 8, 9]);
    assert_eq!(write_message(&vec![]), vec![0, 0, 0, 0]);
    assert_eq!(encode_length(0x0102_0304), [4, 3, 2, 1]);
}

#[test]
fn frame_too_large_is_rejected() {
    let len = MAX_FRAME_SIZE + 1;
    assert_eq!(
        parse_length(&len.to_le_bytes()),
        Err(CodecError::FrameTooLarge { size: len })
    );
    assert_eq!(
        read_message(&len.to_le_bytes().to_vec(), 0).err(),
        Some(CodecError::FrameTooLarge { size: len })
    );
    assert_eq!(
        parse_length(&MAX_FRAME_SIZE.to_le_bytes()),
        Ok(MAX_FRAME_SIZE as usize)
    );
}

#[test]
fn empty_stream_returns_connection_closed() {
    assert_eq!(
        read_message(&vec![], 0).err(),
        Some(CodecError::ConnectionClosed)
    );
}

#[test]
fn truncated_length_returns_connection_closed() {
    assert_eq!(
        read_message(&vec![0x01, 0x00], 0).err(),
        Some(CodecError::ConnectionClosed)
    );
}

#[test]
fn a_cut_payload_is_an_error() {
    let mut bytes = write_message(&vec![1, 2, 3]);
    bytes.pop();
    assert_eq!(read_message(&bytes, 0).err(), Some(CodecError::UnexpectedEof));
}

#[test]
fn multiple_messages_in_sequence() {
    let payloads: Vec<Vec<u8>> = vec![vec![1], vec![], vec![2, 3, 4], vec![0; 300]];
    let mut stream = Vec::new();
    for p in &payloads {
        stream.extend(write_message(p));
    }
    let mut at = 0;
    for p in &payloads {
        let frame = read_message(&stream, at).unwrap();
        assert_eq!(&frame.payload, p);
        at = frame.next;
    }
    assert_eq!(
        read_message(&stream, at).err(),
        Some(CodecError::ConnectionClosed)
    );
}

use corro_types::{
    ActorId, Change, Message, MessageDecodeError, MessageEncodeError, MessageV1, EFFECTIVE_CAP,
    EFFECTIVE_HTTP_BROADCAST_SIZE, FRAGMENTS_AT, HTTP_BROADCAST_SIZE, MAX_FRAME_LEN,
};

fn sample() -> Message {
    Message::V1(MessageV1::Change {
        actor_id: ActorId(0x0102_0304_0506_0708_090a_0b0c_0d0e_0f10),
        version: -2,
        changeset: vec![Change { data: vec![0xaa, 0xbb] }, Change { data: vec![] }],
    })
}

fn encoded(m: &Message) -> Vec<u8> {
    let mut buf = Vec::new();
    m.encode(&mut buf).unwrap();
    buf
}

#[test]
fn chunking_constants() {
    assert_eq!(FRAGMENTS_AT, 1372);
    assert_eq!(EFFECTIVE_CAP, 1371);
    assert_eq!(HTTP_BROADCAST_SIZE, 65536);
    assert_eq!(EFFECTIVE_HTTP_BROADCAST_SIZE, 65535);
}

#[test]
fn encode_layout_is_exact() {
    let buf = encoded(&sample());
    let mut payload = vec![0, 0, 0, 0];
    payload.extend_from_slice(&0x0102_0304_0506_0708_090a_0b0c_0d0e_0f10u128.to_le_bytes());
    payload.extend_from_slice(&(-2i64).to_le_bytes());
    payload.extend_from_slice(&[2, 0, 0, 0]);
    payload.extend_from_slice(&[2, 0, 0, 0, 0xaa, 0xbb]);
    payload.extend_from_slice(&[0, 0, 0, 0]);
    let mut expected = ((payload.len() + 4) as u32).to_be_bytes().to_vec();
    expected.extend_from_slice(&payload);
    expected.extend_from_slice(&crc32fast::hash(&payload).to_be_bytes());
    assert_eq!(buf, expected);
}

#[test]
fn encode_appends_to_buffer() {
    let mut buf = vec![9u8, 9];
    sample().encode(&mut buf).unwrap();
    assert_eq!(&buf[..2], &[9, 9]);
    assert_eq!(&buf[2..], &encoded(&sample())[..]);
}

#[test]
fn round_trip() {
    let m = sample();
    let mut buf = encoded(&m);
    buf.extend_from_slice(&[1, 2, 3]);
    assert_eq!(Message::decode(&mut buf), Ok(Some(m)));
    assert_eq!(buf, vec![1, 2, 3]);
}

#[test]
fn round_trip_two_frames() {
    let a = sample();
    let b = Message::V1(MessageV1::Change { actor_id: ActorId(u128::MAX), version: i64::MAX, changeset: vec![] });
    let mut buf = encoded(&a);
    b.encode(&mut buf).unwrap();
    assert_eq!(Message::decode(&mut buf), Ok(Some(a)));
    assert_eq!(Message::decode(&mut buf), Ok(Some(b)));
    assert!(buf.is_empty());
    assert_eq!(Message::decode(&mut buf), Ok(None));
}

#[test]
fn every_single_bit_flip_is_detected() {
    let m = sample();
    let frame = encoded(&m);
    for byte in 4..frame.len() {
        for bit in 0..8 {
            let mut buf = frame.clone();
            buf[byte] ^= 1 << bit;
            match Message::decode(&mut buf) {
                Err(MessageDecodeError::Corrupted(_, _)) | Err(MessageDecodeError::Decode) => {}
                other => panic!("flip at byte {byte} bit {bit} gave {other:?}"),
            }
        }
    }
}

#[test]
fn corruption_reports_both_checksums() {
    let frame = encoded(&sample());
    let mut body = frame[4..].to_vec();
    let n = body.len();
    body[0] ^= 0x80;
    let carried = u32::from_be_bytes([body[n - 4], body[n - 3], body[n - 2], body[n - 1]]);
    let computed = crc32fast::hash(&body[..n - 4]);
    assert_eq!(Message::from_buf(&body), Err(MessageDecodeError::Corrupted(carried, computed)));
}

#[test]
fn incomplete_frame_waits() {
    let frame = encoded(&sample());
    for cut in 0..frame.len() {
        let mut buf = frame[..cut].to_vec();
        assert_eq!(Message::decode(&mut buf), Ok(None));
        assert_eq!(buf, frame[..cut].to_vec());
    }
}

#[test]
fn oversized_length_prefix_is_refused() {
    let mut buf = vec![0x00, 0x80, 0x00, 0x01, 0, 0];
    assert_eq!(Message::decode(&mut buf), Err(MessageDecodeError::FrameTooLarge(0x0080_0001)));
}

#[test]
fn short_frame_body_is_malformed() {
    assert_eq!(Message::from_buf(&[1, 2, 3]), Err(MessageDecodeError::Decode));
}

#[test]
fn malformed_payload_with_valid_checksum() {
    let payload = vec![1u8, 0, 0, 0];
    let mut body = payload.clone();
    body.extend_from_slice(&crc32fast::hash(&payload).to_be_bytes());
    assert_eq!(Message::from_buf(&body), Err(MessageDecodeError::Decode));
}

#[test]
fn from_slice_reads_payload() {
    let frame = encoded(&sample());
    let payload = &frame[4..frame.len() - 4];
    assert_eq!(Message::from_slice(payload), Ok(sample()));
    let mut longer = payload.to_vec();
    longer.push(0);
    assert_eq!(Message::from_slice(&longer), Err(MessageDecodeError::Decode));
    assert_eq!(Message::from_slice(&payload[..payload.len() - 1]), Err(MessageDecodeError::Decode));
}

#[test]
fn oversized_message_is_not_encoded() {
    let m = Message::V1(MessageV1::Change {
        actor_id: ActorId(1),
        version: 1,
        changeset: vec![Change { data: vec![0u8; MAX_FRAME_LEN] }],
    });
    let mut buf = vec![7u8];
    assert_eq!(m.encode(&mut buf), Err(MessageEncodeError::FrameTooLarge));
    assert_eq!(buf, vec![7u8]);
}

#[test]
fn largest_message_is_encoded() {
    let data_len = MAX_FRAME_LEN - 4 - 32 - 4;
    let m = Message::V1(MessageV1::Change {
        actor_id: ActorId(1),
        version: 1,
        changeset: vec![Change { data: vec![1u8; data_len] }],
    });
    let mut buf = Vec::new();
    assert_eq!(m.encode(&mut buf), Ok(()));
    assert_eq!(buf.len(), MAX_FRAME_LEN + 4);
    assert_eq!(Message::decode(&mut buf), Ok(Some(m)));
}

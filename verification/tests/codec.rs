use hmpc_rs::codec::{
    build_signature_input, decode_frame, encode_signed_frame, parse_signed_frame,
    MESSAGE_FEATURE_FLAGS, MESSAGE_FORMAT_VERSION,
};
use hmpc_rs::crypto::{PrivateKey, VerificationKeys};
use hmpc_rs::errors::{ReadExactFault, ServerError, SignatureError};
use hmpc_rs::kind::MessageKind;
use hmpc_rs::metadata::Message;

fn new_key() -> PrivateKey {
    let rng = ring::rand::SystemRandom::new();
    let document = ring::signature::Ed25519KeyPair::generate_pkcs8(&rng).unwrap();
    PrivateKey::new(document.as_ref()).unwrap()
}

fn roster_with(id: u16, key: &PrivateKey) -> VerificationKeys {
    let mut keys = VerificationKeys::new();
    keys.insert(id, key.verification_key());
    keys
}

const SESSION: u128 = 0x1234_5678_9abc_def0_1122_3344_5566_7788;

fn sample_message(kind: MessageKind, size: u64) -> Message {
    Message::new(kind, 1, 4, 0, 77, size)
}

#[test]
fn signed_frame_round_trips() {
    let key = new_key();
    let payload = vec![4u8, 1, 2, 3, 4];
    let metadata = sample_message(MessageKind::Broadcast, payload.len() as u64);
    let frame = encode_signed_frame(&metadata, SESSION, &payload, &key);

    let keys = roster_with(4, &key);
    let (message, signature) = parse_signed_frame(frame.as_slice(), SESSION, &keys).unwrap();
    assert_eq!(message.metadata, metadata);
    assert_eq!(message.data, payload);
    assert_eq!(signature.len(), 64);
}

#[test]
fn any_flipped_byte_is_rejected() {
    let key = new_key();
    let payload = vec![10u8, 20, 30];
    let metadata = sample_message(MessageKind::Broadcast, payload.len() as u64);
    let frame = encode_signed_frame(&metadata, SESSION, &payload, &key);
    let keys = roster_with(4, &key);

    for i in 0..frame.len() {
        let mut corrupted = frame.clone();
        corrupted[i] ^= 0x01;
        assert!(
            parse_signed_frame(corrupted.as_slice(), SESSION, &keys).is_err(),
            "flipping byte {i} was not rejected"
        );
    }
}

#[test]
fn unknown_sender_is_rejected() {
    let sender_key = new_key();
    let payload = vec![1u8, 2, 3];
    let metadata = sample_message(MessageKind::Broadcast, payload.len() as u64);
    let frame = encode_signed_frame(&metadata, SESSION, &payload, &sender_key);

    // a roster that knows another party, but not the sender
    let other_key = new_key();
    let keys = roster_with(9, &other_key);
    let outcome = parse_signed_frame(frame.as_slice(), SESSION, &keys);
    assert_eq!(
        outcome.unwrap_err(),
        ServerError::Signature(SignatureError::UnknownSender)
    );

    // a roster that knows the sender under the wrong key
    let keys = roster_with(4, &other_key);
    let outcome = parse_signed_frame(frame.as_slice(), SESSION, &keys);
    assert_eq!(
        outcome.unwrap_err(),
        ServerError::Signature(SignatureError::SignatureVerification)
    );
}

#[test]
fn version_mismatch_is_rejected() {
    let key = new_key();
    let payload = vec![9u8];
    let metadata = sample_message(MessageKind::Send, payload.len() as u64);
    let mut frame = encode_signed_frame(&metadata, SESSION, &payload, &key);
    assert_eq!(frame[0], MESSAGE_FORMAT_VERSION);
    frame[0] = 1;
    let keys = roster_with(4, &key);
    let outcome = parse_signed_frame(frame.as_slice(), SESSION, &keys);
    assert_eq!(outcome.unwrap_err(), ServerError::VersionMismatch);
}

#[test]
fn feature_mismatch_is_rejected() {
    let key = new_key();
    let payload = vec![9u8];
    let metadata = sample_message(MessageKind::Send, payload.len() as u64);
    let mut frame = encode_signed_frame(&metadata, SESSION, &payload, &key);
    assert_eq!(frame[1], MESSAGE_FEATURE_FLAGS);
    frame[1] = 0;
    let keys = roster_with(4, &key);
    let outcome = parse_signed_frame(frame.as_slice(), SESSION, &keys);
    assert_eq!(outcome.unwrap_err(), ServerError::FeatureMismatch);
}

#[test]
fn session_mismatch_is_rejected() {
    let key = new_key();
    let payload = vec![5u8, 6];
    let metadata = sample_message(MessageKind::Gather, payload.len() as u64);
    let frame = encode_signed_frame(&metadata, SESSION, &payload, &key);
    let keys = roster_with(4, &key);
    let outcome = parse_signed_frame(frame.as_slice(), SESSION + 1, &keys);
    assert_eq!(outcome.unwrap_err(), ServerError::SessionMismatch);
}

#[test]
fn unknown_kind_is_rejected() {
    let bytes = [MESSAGE_FORMAT_VERSION, MESSAGE_FEATURE_FLAGS, 99u8, 0, 0, 0];
    match decode_frame(&bytes, SESSION) {
        Err(ServerError::FromPrimitive(_)) => (),
        other => panic!("expected an invalid-kind error, got {other:?}"),
    }
}

#[test]
fn truncated_frames_are_rejected() {
    let key = new_key();
    let payload = vec![1u8, 2, 3, 4];
    let metadata = sample_message(MessageKind::AllGather, payload.len() as u64);
    let frame = encode_signed_frame(&metadata, SESSION, &payload, &key);

    // too short for a signature at all
    let keys = roster_with(4, &key);
    let outcome = parse_signed_frame(&frame[..63], SESSION, &keys);
    assert_eq!(
        outcome.unwrap_err(),
        ServerError::ReadExact(ReadExactFault::FinishedEarly(63))
    );

    // header cut inside the message id
    let outcome = decode_frame(&frame[..10], SESSION);
    assert_eq!(
        outcome.unwrap_err(),
        ServerError::ReadExact(ReadExactFault::FinishedEarly(2))
    );
}

#[test]
fn kind_codes_are_stable() {
    assert_eq!(MessageKind::Send.code(), 1);
    assert_eq!(MessageKind::Broadcast.code(), 2);
    assert_eq!(MessageKind::Scatter.code(), 3);
    assert_eq!(MessageKind::Gather.code(), 4);
    assert_eq!(MessageKind::AllGather.code(), 5);
    assert_eq!(MessageKind::AllToAll.code(), 6);
    assert_eq!(MessageKind::ConsistencyCheckBroadcast.code(), 18);
    assert_eq!(MessageKind::ConsistencyCheckAllGather.code(), 21);
    for code in 0u8..=255 {
        match MessageKind::try_from_code(code) {
            Ok(kind) => assert_eq!(kind.code(), code),
            Err(value) => assert_eq!(value, code),
        }
    }
    assert_eq!(
        MessageKind::Broadcast.try_to_check(),
        Ok(MessageKind::ConsistencyCheckBroadcast)
    );
    assert_eq!(
        MessageKind::ConsistencyCheckAllGather.try_from_check(),
        Ok(MessageKind::AllGather)
    );
    assert!(MessageKind::Send.try_to_check().is_err());
    assert!(!MessageKind::Gather.needs_check());
    assert!(MessageKind::ConsistencyCheckBroadcast.is_consistency_check());
}

#[test]
fn wire_layout_is_fixed() {
    let key = new_key();
    let payload = vec![0xaau8, 0xbb];
    let metadata = Message::new(MessageKind::Broadcast, 7, 0x0102, 0x0304, 0x1122334455667788, 2);
    let frame = encode_signed_frame(&metadata, 0x0f0e0d0c0b0a09080706050403020100, &payload, &key);
    assert_eq!(frame.len(), 32 + 2 + 64);
    assert_eq!(frame[0], 0); // format version
    assert_eq!(frame[1], 3); // feature flags: sessions and signing
    assert_eq!(frame[2], 2); // kind code of a broadcast
    assert_eq!(frame[3], 7); // datatype
    assert_eq!(&frame[4..6], &[0x02, 0x01]); // sender, little-endian
    assert_eq!(&frame[6..8], &[0x04, 0x03]); // receiver, little-endian
    assert_eq!(
        &frame[8..16],
        &[0x88, 0x77, 0x66, 0x55, 0x44, 0x33, 0x22, 0x11]
    ); // message id, little-endian
    assert_eq!(
        &frame[16..32],
        &[0, 1, 2, 3, 4, 5, 6, 7, 8, 9, 10, 11, 12, 13, 14, 15]
    ); // session id, little-endian
    assert_eq!(&frame[32..34], &[0xaa, 0xbb]); // payload

    // the signature covers the header and the payload's digest
    let input = build_signature_input(&metadata, 0x0f0e0d0c0b0a09080706050403020100, &payload);
    let verifier = key.verification_key();
    assert!(verifier.verify(input.as_slice(), &frame[34..]));
}

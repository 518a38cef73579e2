use hmpc_rs::buffer::{ArrivalOutcome, MessageBuffer, ReceiveOutcome};
use hmpc_rs::checker::{Checker, ConsistencyCheckMessage};
use hmpc_rs::codec::build_signature_input;
use hmpc_rs::communicator::Communicator;
use hmpc_rs::crypto::{hash, PrivateKey, VerificationKeys};
use hmpc_rs::errors::ConsistencyCheckError;
use hmpc_rs::kind::MessageKind;
use hmpc_rs::metadata::{Broadcast, Collective, Message};

const SESSION: u128 = 42;

fn new_key() -> PrivateKey {
    let rng = ring::rand::SystemRandom::new();
    let document = ring::signature::Ed25519KeyPair::generate_pkcs8(&rng).unwrap();
    PrivateKey::new(document.as_ref()).unwrap()
}

/// The attestation a receiver forwards for a broadcast data frame: the
/// payload's hash, and the sender's signature over the frame it sent to that
/// receiver.
fn attestation(
    sender_key: &PrivateKey,
    sender: u16,
    receiver: u16,
    id: u64,
    payload: &[u8],
) -> ConsistencyCheckMessage {
    let frame = Message::new(
        MessageKind::Broadcast,
        1,
        sender,
        receiver,
        id,
        payload.len() as u64,
    );
    let input = build_signature_input(&frame, SESSION, payload);
    let signature = sender_key.sign(input.as_slice());
    ConsistencyCheckMessage {
        metadata: Message::new(
            MessageKind::ConsistencyCheckBroadcast,
            1,
            sender,
            receiver,
            id,
            96,
        ),
        hash: hash(payload),
        signature,
    }
}

/// The local attestation built from an arrived broadcast data frame: the
/// frame's own metadata, the payload's hash, and the frame's signature.
fn data_attestation(
    sender_key: &PrivateKey,
    sender: u16,
    me: u16,
    id: u64,
    payload: &[u8],
) -> ConsistencyCheckMessage {
    let frame = Message::new(
        MessageKind::Broadcast,
        1,
        sender,
        me,
        id,
        payload.len() as u64,
    );
    let input = build_signature_input(&frame, SESSION, payload);
    let signature = sender_key.sign(input.as_slice());
    ConsistencyCheckMessage { metadata: frame, hash: hash(payload), signature }
}

fn checker_for(sender: u16, sender_key: &PrivateKey, me: u16) -> Checker {
    let mut keys = VerificationKeys::new();
    keys.insert(sender, sender_key.verification_key());
    Checker::new(me, SESSION, keys)
}

fn expectation(sender: u16, id: u64, fellows: &[u16]) -> hmpc_rs::metadata::ConsistencyCheck {
    let collective = Collective::Broadcast(Broadcast::new(1, sender, 5));
    collective.to_consistency_check(sender, Communicator::from_parties(&fellows.to_vec()), id)
}

#[test]
fn matching_attestations_close_the_record() {
    // party 0 received a broadcast by party 4 and expects parties 1 to 3 to
    // attest the same payload
    let sender_key = new_key();
    let payload = vec![4u8, 1, 2, 3, 4];
    let mut checker = checker_for(4, &sender_key, 0);
    assert_eq!(checker.wait_status(), Ok(true));

    let effects = checker.handle_request(&expectation(4, 7, &[1, 2, 3]));
    assert!(effects.is_empty());
    assert_eq!(checker.wait_status(), Ok(false));

    // the own data frame arrives: the checker announces the observed hash
    // and the sender's signature to the fellow receivers
    let own = data_attestation(&sender_key, 4, 0, 7, &payload);
    let effects = checker.handle_received_data(own);
    assert_eq!(effects.len(), 3);
    let targets: Vec<u16> = effects.iter().map(|e| e.0).collect();
    assert_eq!(targets, vec![1, 2, 3]);
    assert_eq!(effects[0].1.metadata.kind, MessageKind::ConsistencyCheckBroadcast);
    assert_eq!(effects[0].1.metadata.receiver, 0);
    assert_eq!(effects[0].1.data.len(), 96);

    // every fellow receiver attests the same payload: the record closes
    for fellow in [1u16, 2, 3] {
        assert_eq!(checker.wait_status(), Ok(false));
        checker.handle_received_check(attestation(&sender_key, 4, fellow, 7, &payload));
    }
    assert_eq!(checker.wait_status(), Ok(true));
}

#[test]
fn equivocation_is_detected() {
    // the sender gave party 1 a different payload than party 0 observed
    let sender_key = new_key();
    let payload = vec![4u8, 1, 2, 3, 4];
    let forged = vec![4u8, 1, 2, 3, 5];
    let mut checker = checker_for(4, &sender_key, 0);

    let _ = checker.handle_request(&expectation(4, 7, &[1, 2, 3]));
    let _ = checker.handle_received_data(data_attestation(&sender_key, 4, 0, 7, &payload));
    checker.handle_received_check(attestation(&sender_key, 4, 1, 7, &forged));
    assert_eq!(
        checker.wait_status(),
        Err(ConsistencyCheckError::InconsistentCollectiveCommunication)
    );
}

#[test]
fn forged_attestations_fail_verification() {
    // an attestation whose signature is not the sender's is refused
    let sender_key = new_key();
    let impostor_key = new_key();
    let payload = vec![9u8, 9, 9];
    let mut checker = checker_for(4, &sender_key, 0);

    let _ = checker.handle_request(&expectation(4, 3, &[1]));
    let _ = checker.handle_received_data(data_attestation(&sender_key, 4, 0, 3, &payload));
    checker.handle_received_check(attestation(&impostor_key, 4, 1, 3, &payload));
    assert_eq!(
        checker.wait_status(),
        Err(ConsistencyCheckError::InconsistentSignatureVerification)
    );
}

#[test]
fn unknown_sender_in_checker() {
    // nobody holds a key for party 9, so its frames can never close a record
    let sender_key = new_key();
    let payload = vec![1u8];
    let mut checker = checker_for(4, &sender_key, 0);
    let _ = checker.handle_request(&expectation(9, 5, &[1]));
    let _ = checker.handle_received_data(data_attestation(&sender_key, 9, 0, 5, &payload));
    checker.handle_received_check(attestation(&sender_key, 9, 1, 5, &payload));
    assert_eq!(checker.wait_status(), Err(ConsistencyCheckError::UnknownSender));
}

#[test]
fn duplicate_attestations_are_errors() {
    let sender_key = new_key();
    let payload = vec![1u8, 2];
    let mut checker = checker_for(4, &sender_key, 0);
    let _ = checker.handle_request(&expectation(4, 1, &[1, 2]));
    checker.handle_received_check(attestation(&sender_key, 4, 1, 1, &payload));
    checker.handle_received_check(attestation(&sender_key, 4, 1, 1, &payload));
    assert_eq!(checker.wait_status(), Err(ConsistencyCheckError::MultipleChecks));
}

#[test]
fn duplicate_requests_are_errors() {
    let sender_key = new_key();
    let mut checker = checker_for(4, &sender_key, 0);
    let _ = checker.handle_request(&expectation(4, 1, &[1, 2]));
    let _ = checker.handle_request(&expectation(4, 1, &[1, 2]));
    assert_eq!(checker.wait_status(), Err(ConsistencyCheckError::MultipleRequests));
}

#[test]
fn duplicate_data_frames_are_errors() {
    let sender_key = new_key();
    let payload = vec![1u8, 2];
    let mut checker = checker_for(4, &sender_key, 0);
    let _ = checker.handle_request(&expectation(4, 1, &[1]));
    let _ = checker.handle_received_data(data_attestation(&sender_key, 4, 0, 1, &payload));
    let _ = checker.handle_received_data(data_attestation(&sender_key, 4, 0, 1, &payload));
    assert_eq!(checker.wait_status(), Err(ConsistencyCheckError::MultipleMessages));
}

#[test]
fn unexpected_attestations_are_errors() {
    // party 9 was never expected to attest this message
    let sender_key = new_key();
    let payload = vec![1u8, 2];
    let mut checker = checker_for(4, &sender_key, 0);
    let _ = checker.handle_request(&expectation(4, 1, &[1, 2]));
    checker.handle_received_check(attestation(&sender_key, 4, 9, 1, &payload));
    assert_eq!(checker.wait_status(), Err(ConsistencyCheckError::UnknownCheck));
}

#[test]
fn buffer_rendezvous() {
    let mut buffer = MessageBuffer::new();
    let metadata = Message::new(MessageKind::Broadcast, 1, 4, 0, 7, 3);
    let other = Message::new(MessageKind::Broadcast, 1, 4, 0, 8, 3);

    // an early request parks; the arrival wakes it
    assert!(matches!(buffer.request(metadata), ReceiveOutcome::Parked));
    assert!(matches!(buffer.request(metadata), ReceiveOutcome::AlreadyWaiting));
    match buffer.arrived(metadata, vec![1, 2, 3]) {
        ArrivalOutcome::Woken(data) => assert_eq!(data, vec![1, 2, 3]),
        other => panic!("expected the parked request to wake, got {other:?}"),
    }

    // an early arrival is held; the request takes it
    assert!(matches!(buffer.arrived(other, vec![4, 5, 6]), ArrivalOutcome::Stored));
    assert!(matches!(buffer.arrived(other, vec![7, 8, 9]), ArrivalOutcome::Replaced));
    match buffer.request(other) {
        ReceiveOutcome::Delivered(data) => assert_eq!(data, vec![7, 8, 9]),
        outcome => panic!("expected a delivery, got {outcome:?}"),
    }
}

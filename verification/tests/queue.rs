use hmpc_rs::communicator::Communicator;
use hmpc_rs::kind::MessageKind;
use hmpc_rs::metadata::{AllGather, AllToAll, Broadcast, Collective, Gather};
use hmpc_rs::planner::{Action, Plan, PlanError, Planner};

fn communicator(parties: &[u16]) -> Communicator {
    Communicator::from_parties(&parties.to_vec())
}

fn plan_for(planner: &mut Planner, message: Broadcast, parties: &[u16]) -> Plan {
    planner
        .multi_broadcast(&vec![message], &communicator(parties), 1)
        .unwrap()
}

#[test]
fn broadcast_sender_fans_out() {
    // a broadcast of five 32-bit words by party 4 over parties 0 to 4
    let message = Broadcast::new(1, 4, 20);
    let mut planner = Planner::new(4, true);
    let plan = plan_for(&mut planner, message, &[0, 1, 2, 3, 4]);
    assert!(plan.flush_first);
    assert_eq!(plan.actions.len(), 4);
    for (i, action) in plan.actions.iter().enumerate() {
        match action {
            Action::Send { message, data } => {
                assert_eq!(message.kind, MessageKind::Broadcast);
                assert_eq!(message.sender, 4);
                assert_eq!(message.receiver, i as u16);
                assert_eq!(message.size, 20);
                assert_eq!(*data, 0);
            }
            other => panic!("expected a send, got {other:?}"),
        }
    }
}

#[test]
fn broadcast_receiver_expects_checks() {
    let message = Broadcast::new(1, 4, 20);
    let mut planner = Planner::new(0, true);
    let plan = plan_for(&mut planner, message, &[0, 1, 2, 3, 4]);
    assert!(!plan.flush_first);
    assert_eq!(plan.actions.len(), 2);
    match &plan.actions[0] {
        Action::Check { check } => {
            assert_eq!(check.kind, MessageKind::Broadcast);
            assert_eq!(check.sender, 4);
            // the fellow receivers, the planner and the sender left out
            assert_eq!(check.receivers.to_vec(), vec![1, 2, 3]);
        }
        other => panic!("expected a check, got {other:?}"),
    }
    match &plan.actions[1] {
        Action::Receive { message, data } => {
            assert_eq!(message.sender, 4);
            assert_eq!(message.receiver, 0);
            assert_eq!(*data, 0);
        }
        other => panic!("expected a receive, got {other:?}"),
    }

    // with the consistency feature off there is no check action
    let mut plain = Planner::new(0, false);
    let plan = plan_for(&mut plain, message, &[0, 1, 2, 3, 4]);
    assert_eq!(plan.actions.len(), 1);
    assert!(matches!(plan.actions[0], Action::Receive { .. }));
}

#[test]
fn peers_derive_identical_message_ids() {
    // any two peers running the same calls in the same order derive the
    // same message-id sequence, whatever their own ids
    let comm = communicator(&[0, 1, 2, 3, 4]);
    let mut a = Planner::new(0, true);
    let mut b = Planner::new(4, true);
    let calls = [
        Collective::Broadcast(Broadcast::new(1, 4, 20)),
        Collective::Broadcast(Broadcast::new(1, 4, 20)),
        Collective::Gather(Gather::new(2, 0, 8)),
        Collective::AllGather(AllGather::new(1, 24)),
        Collective::AllToAll(AllToAll::new(3, 4)),
    ];
    for call in calls {
        let id_a = a.next_message_id(&call, &comm);
        let id_b = b.next_message_id(&call, &comm);
        assert_eq!(id_a, id_b);
    }
}

#[test]
fn repeated_calls_get_fresh_ids() {
    let comm = communicator(&[0, 1, 2]);
    let mut planner = Planner::new(0, true);
    let call = Collective::Broadcast(Broadcast::new(1, 0, 4));
    let first = planner.next_message_id(&call, &comm);
    let second = planner.next_message_id(&call, &comm);
    let third = planner.next_message_id(&call, &comm);
    assert_eq!(second, first.wrapping_add(1));
    assert_eq!(third, first.wrapping_add(2));
}

#[test]
fn distinct_communicators_decorrelate_ids() {
    let call = Collective::Broadcast(Broadcast::new(1, 0, 4));
    let mut a = Planner::new(0, true);
    let mut b = Planner::new(0, true);
    let id_a = a.next_message_id(&call, &communicator(&[0, 1, 2]));
    let id_b = b.next_message_id(&call, &communicator(&[0, 1, 3]));
    assert_ne!(id_a, id_b);

    // the kind's identifying fields enter the digest as well
    let mut c = Planner::new(0, true);
    let other_sender = Collective::Broadcast(Broadcast::new(1, 1, 4));
    let id_c = c.next_message_id(&other_sender, &communicator(&[0, 1, 2]));
    assert_ne!(id_a, id_c);
}

#[test]
fn broadcast_validation_errors() {
    let message = Broadcast::new(1, 4, 20);
    let mut planner = Planner::new(4, true);
    let empty = communicator(&[]);
    assert!(matches!(
        planner.multi_broadcast(&vec![message], &empty, 1),
        Err(PlanError::InvalidCommunicator)
    ));
    let comm = communicator(&[0, 1, 2, 3, 4]);
    assert!(matches!(
        planner.multi_broadcast(&vec![message], &comm, 2),
        Err(PlanError::InvalidSize)
    ));
}

#[test]
fn gather_plans_and_validation() {
    // parties 10 to 14, receiver 14, one buffer row of five entries
    let message = Gather::new(1, 14, 20);
    let comm = communicator(&[10, 11, 12, 13, 14]);

    let mut receiver = Planner::new(14, true);
    let plan = receiver.multi_gather(&vec![message], &comm, 1, 5).unwrap();
    assert!(!plan.flush_first);
    assert_eq!(plan.actions.len(), 4);
    for (j, action) in plan.actions.iter().enumerate() {
        match action {
            Action::Receive { message, data } => {
                assert_eq!(message.sender, (10 + j) as u16);
                assert_eq!(message.receiver, 14);
                assert_eq!(*data, j);
            }
            other => panic!("expected a receive, got {other:?}"),
        }
    }

    let mut contributor = Planner::new(10, true);
    let plan = contributor.multi_gather(&vec![message], &comm, 1, 1).unwrap();
    assert!(plan.flush_first);
    assert_eq!(plan.actions.len(), 1);
    match &plan.actions[0] {
        Action::Send { message, data } => {
            assert_eq!(message.sender, 10);
            assert_eq!(message.receiver, 14);
            assert_eq!(*data, 0);
        }
        other => panic!("expected a send, got {other:?}"),
    }

    // mixed receivers are contradictory metadata
    let mut mixed = Planner::new(14, true);
    let messages = vec![Gather::new(1, 14, 4), Gather::new(1, 10, 4)];
    assert!(matches!(
        mixed.multi_gather(&messages, &comm, 2, 5),
        Err(PlanError::InvalidMetadata)
    ));

    // a receiver outside the communicator (for another caller) is rejected
    let mut outside = Planner::new(10, true);
    let stray = Gather::new(1, 99, 4);
    assert!(matches!(
        outside.multi_gather(&vec![stray], &comm, 1, 1),
        Err(PlanError::InvalidMetadata)
    ));

    // the row width must match the communicator for the receiver
    let mut wrong = Planner::new(14, true);
    assert!(matches!(
        wrong.multi_gather(&vec![message], &comm, 1, 4),
        Err(PlanError::InvalidSize)
    ));
}

#[test]
fn all_gather_fans_out_per_sender() {
    // parties 20 to 23, six 32-bit words each
    let message = AllGather::new(1, 24);
    let comm = communicator(&[20, 21, 22, 23]);
    let mut planner = Planner::new(20, true);
    let plan = planner.multi_all_gather(&vec![message], &comm, 1, 4).unwrap();
    assert!(plan.flush_first);
    // three sends of the own value, and a check and a receive per other sender
    assert_eq!(plan.actions.len(), 3 + 3 * 2);
    match &plan.actions[0] {
        Action::Send { message, data } => {
            assert_eq!(message.sender, 20);
            assert_eq!(message.receiver, 21);
            assert_eq!(*data, 0);
        }
        other => panic!("expected a send, got {other:?}"),
    }
    match &plan.actions[3] {
        Action::Check { check } => {
            assert_eq!(check.kind, MessageKind::AllGather);
            assert_eq!(check.sender, 21);
            assert_eq!(check.receivers.to_vec(), vec![22, 23]);
        }
        other => panic!("expected a check, got {other:?}"),
    }
    match &plan.actions[4] {
        Action::Receive { message, data } => {
            assert_eq!(message.sender, 21);
            assert_eq!(message.receiver, 20);
            assert_eq!(*data, 1);
        }
        other => panic!("expected a receive, got {other:?}"),
    }
}

#[test]
fn extended_all_gather_checks_nesting() {
    let message = AllGather::new(1, 8);
    let senders = communicator(&[1, 2]);
    let receivers = communicator(&[0, 1, 2]);
    let mut planner = Planner::new(0, true);
    let plan = planner
        .extended_multi_all_gather(&vec![message], &senders, &receivers, 1, 2)
        .unwrap();
    assert!(!plan.flush_first);
    assert_eq!(plan.actions.len(), 4);

    // the senders must nest inside the receivers
    let stray_senders = communicator(&[1, 3]);
    assert!(matches!(
        planner.extended_multi_all_gather(&vec![message], &stray_senders, &receivers, 1, 2),
        Err(PlanError::InvalidCommunicator)
    ));

    // the planner must be a receiver
    let mut outsider = Planner::new(9, true);
    assert!(matches!(
        outsider.extended_multi_all_gather(&vec![message], &senders, &receivers, 1, 2),
        Err(PlanError::InvalidCommunicator)
    ));
}

#[test]
fn all_to_all_pairs_sends_and_receives() {
    let message = AllToAll::new(1, 4);
    let comm = communicator(&[0, 1, 2]);
    let mut planner = Planner::new(1, true);
    let plan = planner
        .multi_all_to_all(&vec![message], &comm, 1, 3, 1, 3)
        .unwrap();
    assert!(plan.flush_first);
    assert_eq!(plan.actions.len(), 4);
    match (&plan.actions[0], &plan.actions[1]) {
        (
            Action::Send { message: send, data: send_data },
            Action::Receive { message: receive, data: receive_data },
        ) => {
            assert_eq!(send.sender, 1);
            assert_eq!(send.receiver, 0);
            assert_eq!(*send_data, 0);
            assert_eq!(receive.sender, 0);
            assert_eq!(receive.receiver, 1);
            assert_eq!(*receive_data, 0);
        }
        other => panic!("expected a send and a receive, got {other:?}"),
    }

    // the planner must be in the communicator
    let mut outsider = Planner::new(9, true);
    assert!(matches!(
        outsider.multi_all_to_all(&vec![message], &comm, 1, 3, 1, 3),
        Err(PlanError::InvalidCommunicator)
    ));
}

#[test]
fn statistics_count_traffic_and_rounds() {
    let message = Broadcast::new(1, 4, 20);
    let mut sender = Planner::new(4, true);
    let _ = plan_for(&mut sender, message, &[0, 1, 2, 3, 4]);
    let stats = sender.network_statistics();
    assert_eq!(stats.sent, 4 * 20);
    assert_eq!(stats.received, 0);
    assert_eq!(stats.rounds, 1);

    let mut receiver = Planner::new(0, true);
    let _ = plan_for(&mut receiver, message, &[0, 1, 2, 3, 4]);
    let stats = receiver.network_statistics();
    assert_eq!(stats.sent, 0);
    assert_eq!(stats.received, 20);
    assert_eq!(stats.rounds, 1);
}

#[test]
fn all_to_all() {
    // TODO
}

use byzcast::basic::BasicQueues;
use byzcast::basic::Message;
use byzcast::basic::RecvObject;
use byzcast::basic::basic_message;
use byzcast::basic::broadcast_targets;
use byzcast::codec::decode_recv_object;
use byzcast::codec::encode_message;

/// Frame a message, carry it across the wire, decode it at the receiver
/// and file it under its sender's queue, as the transport edge does.
fn deliver(queues: &mut BasicQueues, m: &Message) {
    let frame = encode_message(m);
    let object = decode_recv_object(frame.as_str()).expect("a message frame decodes");
    assert!(queues.store_message(object));
}

fn receive_payload(queues: &mut BasicQueues, from: Option<u32>, round: u32) -> (u32, String) {
    let protocol = String::from("basic");
    match queues.try_receive(from, &protocol, None, round) {
        Some(RecvObject::Message(m)) => (m.id, m.message),
        Some(RecvObject::Collection(_)) => panic!("expected a message, found a collection"),
        None => panic!("expected a matching message"),
    }
}

#[test]
fn basic_three_participants_send_and_broadcast() {
    // Three participants: one direct send each way and one broadcast.
    // Every receipt names the queue the payload came from.
    let mut q0 = BasicQueues::new(3);
    let mut q1 = BasicQueues::new(3);
    let mut q2 = BasicQueues::new(3);

    let m01 = basic_message(0, String::from("m01"), 0);
    deliver(&mut q1, &m01);
    let m12 = basic_message(1, String::from("m12"), 0);
    deliver(&mut q2, &m12);
    let b0 = basic_message(0, String::from("b0"), 0);
    for target in broadcast_targets(3) {
        match target {
            0 => deliver(&mut q0, &b0),
            1 => deliver(&mut q1, &b0),
            2 => deliver(&mut q2, &b0),
            _ => unreachable!(),
        }
    }

    let (sender, payload) = receive_payload(&mut q1, Some(0), 0);
    assert_eq!((sender, payload.as_str()), (0, "m01"));
    let (sender, payload) = receive_payload(&mut q1, Some(0), 0);
    assert_eq!((sender, payload.as_str()), (0, "b0"));

    let (sender, payload) = receive_payload(&mut q2, Some(1), 0);
    assert_eq!((sender, payload.as_str()), (1, "m12"));
    let (sender, payload) = receive_payload(&mut q2, Some(0), 0);
    assert_eq!((sender, payload.as_str()), (0, "b0"));

    // The broadcast reached its own sender too.
    let (sender, payload) = receive_payload(&mut q0, Some(0), 0);
    assert_eq!((sender, payload.as_str()), (0, "b0"));
}

#[test]
fn broadcast_targets_include_every_id_in_order() {
    let targets = broadcast_targets(4);
    assert_eq!(targets, vec![0, 1, 2, 3]);
}

#[test]
fn receive_matches_round_and_protocol() {
    let mut q = BasicQueues::new(2);
    deliver(&mut q, &basic_message(1, String::from("early"), 0));
    deliver(&mut q, &basic_message(1, String::from("late"), 1));
    // Asking for round one skips the round-zero message.
    let protocol = String::from("basic");
    match q.try_receive(Some(1), &protocol, None, 1) {
        Some(RecvObject::Message(m)) => assert_eq!(m.message.as_str(), "late"),
        _ => panic!("the round-one message matches"),
    }
    match q.try_receive(Some(1), &protocol, None, 0) {
        Some(RecvObject::Message(m)) => assert_eq!(m.message.as_str(), "early"),
        _ => panic!("the round-zero message matches"),
    }
    assert!(q.try_receive(Some(1), &protocol, None, 0).is_none());
}

#[test]
fn receive_without_sender_scans_queues_in_id_order() {
    let mut q = BasicQueues::new(3);
    deliver(&mut q, &basic_message(2, String::from("from two"), 0));
    deliver(&mut q, &basic_message(1, String::from("from one"), 0));
    let protocol = String::from("basic");
    match q.try_receive(None, &protocol, None, 0) {
        Some(RecvObject::Message(m)) => assert_eq!(m.id, 1),
        _ => panic!("the lowest-id queue is scanned first"),
    }
    match q.try_receive(None, &protocol, None, 0) {
        Some(RecvObject::Message(m)) => assert_eq!(m.id, 2),
        _ => panic!("the next queue follows"),
    }
}

#[test]
fn store_refuses_out_of_range_sender() {
    let mut q = BasicQueues::new(2);
    let stray = basic_message(7, String::from("stray"), 0);
    let frame = encode_message(&stray);
    let object = decode_recv_object(frame.as_str()).expect("decodes");
    assert!(!q.store_message(object));
}

#[test]
fn undecodable_payload_is_dropped_before_the_queues() {
    // The transport edge decodes first; garbage never reaches a queue.
    assert!(decode_recv_object("not a frame at all").is_none());
    assert!(decode_recv_object("\u{fffd}\u{fffd}").is_none());
}

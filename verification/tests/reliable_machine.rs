use std::collections::VecDeque;

use byzcast::agreement_threshold;
use byzcast::basic::Message;
use byzcast::codec::decode_signal;
use byzcast::codec::encode_signal;
use byzcast::reliable::RbStep;
use byzcast::reliable::ReliableBroadcastMonitor;
use byzcast::reliable::ReliableDelivery;
use byzcast::reliable::Signal;
use byzcast::reliable::dispatch_reliable_delivery;
use byzcast::reliable::get_instance_id;
use byzcast::reliable::instance_key;
use byzcast::reliable::reliable_input_signal;
use byzcast::validity_threshold;

/// Run the base reliable layer over an in-memory network: every signal is
/// framed, fanned out to every participant, decoded, and stepped through
/// that participant's per-instance monitors. Participants in `silent`
/// never process their inbox.
fn run_reliable_network(
    n: u32,
    initial_frames: Vec<String>,
    silent: &[u32],
) -> (Vec<ReliableBroadcastMonitor>, Vec<Vec<Message>>) {
    let v = validity_threshold(n);
    let a = agreement_threshold(n);
    let mut monitors: Vec<ReliableBroadcastMonitor> = Vec::new();
    let mut inboxes: Vec<VecDeque<String>> = Vec::new();
    let mut delivered: Vec<Vec<Message>> = Vec::new();
    for _ in 0..n {
        monitors.push(ReliableBroadcastMonitor::new());
        inboxes.push(VecDeque::new());
        delivered.push(Vec::new());
    }
    for frame in initial_frames {
        for inbox in inboxes.iter_mut() {
            inbox.push_back(frame.clone());
        }
    }
    loop {
        let mut progressed = false;
        for i in 0..n as usize {
            if silent.contains(&(i as u32)) {
                continue;
            }
            if let Some(frame) = inboxes[i].pop_front() {
                progressed = true;
                let signal = match decode_signal(frame.as_str()) {
                    Some(s) => s,
                    None => continue, // a malformed frame is dropped
                };
                match monitors[i].handle_signal(i as u32, v, a, signal) {
                    RbStep::Fatal => panic!("unexpected fatal transition"),
                    RbStep::Ignore => {}
                    RbStep::BroadcastEcho(echo) => {
                        let out = encode_signal(&echo);
                        for inbox in inboxes.iter_mut() {
                            inbox.push_back(out.clone());
                        }
                    }
                    RbStep::BroadcastVote(vote) => {
                        let out = encode_signal(&vote);
                        for inbox in inboxes.iter_mut() {
                            inbox.push_back(out.clone());
                        }
                    }
                    RbStep::Deliver(content) => match dispatch_reliable_delivery(content) {
                        ReliableDelivery::DeliverMessage(m) => delivered[i].push(m),
                        ReliableDelivery::Incompatible => panic!("incompatible delivery"),
                    },
                }
            }
        }
        if !progressed {
            break;
        }
    }
    (monitors, delivered)
}

#[test]
fn rb_four_participants_all_deliver() {
    // One sender, four participants: every correct participant delivers
    // the same payload and ends fully through the echo/vote milestones.
    let input = reliable_input_signal(0, String::from("hello"), 0, 0);
    let frame = encode_signal(&input);
    let (monitors, delivered) = run_reliable_network(4, vec![frame], &[]);
    for i in 0..4u32 {
        assert_eq!(delivered[i as usize].len(), 1);
        let m = &delivered[i as usize][0];
        assert_eq!(m.protocol_information.as_str(), "reliable");
        assert_eq!(m.id, 0);
        assert_eq!(m.message.as_str(), "hello");
        assert_eq!(m.instance_number, Some(0));
        assert_eq!(m.round_number, 0);
        let probe = reliable_input_signal(0, String::from("hello"), 0, 0);
        let key = instance_key(i, &probe);
        let monitor = monitors[i as usize]
            .get_monitor(&key)
            .expect("the instance was registered");
        assert!(monitor.state.echo);
        assert!(monitor.state.vote);
        assert!(monitor.state.deliver);
        assert!(monitor.count.echo <= 4);
        assert!(monitor.count.vote <= 4);
    }
}

#[test]
fn rb_broadcast_reaches_the_sender_itself() {
    // A broadcast includes the sender: the sender's own basic queue gets
    // the payload, with no special path.
    let input = reliable_input_signal(2, String::from("mine too"), 0, 0);
    let frame = encode_signal(&input);
    let (_, delivered) = run_reliable_network(4, vec![frame], &[]);
    assert_eq!(delivered[2].len(), 1);
    assert_eq!(delivered[2][0].message.as_str(), "mine too");
}

#[test]
fn rb_single_participant_stalls_below_validity() {
    // With one participant the validity threshold is two, so its single
    // echo can never trigger a vote: the instance echoes and then stalls.
    let input = reliable_input_signal(0, String::from("solo"), 0, 0);
    let frame = encode_signal(&input);
    let (monitors, delivered) = run_reliable_network(1, vec![frame], &[]);
    assert!(delivered[0].is_empty());
    let probe = reliable_input_signal(0, String::from("solo"), 0, 0);
    let key = instance_key(0, &probe);
    let monitor = monitors[0].get_monitor(&key).expect("registered");
    assert!(monitor.state.echo);
    assert!(!monitor.state.vote);
    assert!(!monitor.state.deliver);
    assert_eq!(monitor.count.echo, 1);
}

#[test]
fn rb_one_silent_participant_stalls_below_validity() {
    // With four participants the validity threshold equals four, so one
    // silent participant leaves every observer at three echoes: nobody
    // votes and nobody delivers.
    let input = reliable_input_signal(0, String::from("quorum?"), 0, 0);
    let frame = encode_signal(&input);
    let (monitors, delivered) = run_reliable_network(4, vec![frame], &[3]);
    for i in 0..3u32 {
        assert!(delivered[i as usize].is_empty());
        let probe = reliable_input_signal(0, String::from("quorum?"), 0, 0);
        let key = instance_key(i, &probe);
        let monitor = monitors[i as usize].get_monitor(&key).expect("registered");
        assert_eq!(monitor.count.echo, 3);
        assert!(!monitor.state.vote);
        assert!(!monitor.state.deliver);
    }
}

#[test]
fn rb_repeated_input_is_fatal() {
    let mut monitor = ReliableBroadcastMonitor::new();
    let first = reliable_input_signal(0, String::from("once"), 0, 0);
    let again = reliable_input_signal(0, String::from("once"), 0, 0);
    match monitor.handle_signal(1, 4, 2, first) {
        RbStep::BroadcastEcho(_) => {}
        _ => panic!("a fresh input is echoed"),
    }
    assert!(matches!(monitor.handle_signal(1, 4, 2, again), RbStep::Fatal));
}

#[test]
fn rb_echo_for_unknown_instance_is_fatal() {
    let mut monitor = ReliableBroadcastMonitor::new();
    let input = reliable_input_signal(0, String::from("m"), 5, 0);
    let echo = Signal::new(
        byzcast::reliable::SignalType::Echo,
        input.content,
        5,
        0,
    );
    assert!(matches!(monitor.handle_signal(0, 4, 2, echo), RbStep::Fatal));
}

#[test]
fn rb_counts_track_signals_one_each() {
    // Tallies count one per signal handled, so with at most one echo and
    // one vote per participant they stay at or below the group size.
    let n: u32 = 4;
    let v = validity_threshold(n);
    let a = agreement_threshold(n);
    let mut monitor = ReliableBroadcastMonitor::new();
    let input = reliable_input_signal(0, String::from("m"), 0, 0);
    let probe = reliable_input_signal(0, String::from("m"), 0, 0);
    let key = instance_key(0, &probe);
    monitor.handle_signal(0, v, a, input);
    for _ in 0..n {
        let echo = Signal::new(
            byzcast::reliable::SignalType::Echo,
            reliable_input_signal(0, String::from("m"), 0, 0).content,
            0,
            0,
        );
        monitor.handle_signal(0, v, a, echo);
    }
    let m = monitor.get_monitor(&key).expect("registered");
    assert_eq!(m.count.echo, n);
    assert!(m.state.vote);
}

#[test]
fn instance_id_renders_all_parts() {
    let input = reliable_input_signal(1, String::from("m"), 2, 3);
    let id = get_instance_id(0, &input);
    assert_eq!(id.as_str(), "0::reliable::1::message::2::3");
}

#[test]
fn rb_recovers_after_malformed_frame() {
    // A garbage frame is dropped silently and a following clean
    // broadcast still delivers everywhere.
    let input = reliable_input_signal(0, String::from("after noise"), 0, 0);
    let frames = vec![String::from("\u{0}not a frame;;"), encode_signal(&input)];
    let (_, delivered) = run_reliable_network(4, frames, &[]);
    for d in &delivered {
        assert_eq!(d.len(), 1);
        assert_eq!(d[0].message.as_str(), "after noise");
    }
}

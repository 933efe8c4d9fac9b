use std::collections::VecDeque;

use byzcast::agreement_threshold;
use byzcast::barycentric_agreement::BarycentricDelivery;
use byzcast::barycentric_agreement::BarycentricMonitorMap;
use byzcast::barycentric_agreement::BarycentricRoundContent;
use byzcast::barycentric_agreement::BarycentricRoundCount;
use byzcast::barycentric_agreement::barycentric_input_signal;
use byzcast::barycentric_agreement::dispatch_barycentric_delivery;
use byzcast::barycentric_agreement::initial_barycentric_report;
use byzcast::barycentric_agreement::initialize_buddies;
use byzcast::barycentric_agreement::initialize_trusted;
use byzcast::basic::Message;
use byzcast::codec::decode_object;
use byzcast::codec::decode_signal;
use byzcast::codec::encode_barycentric_report;
use byzcast::codec::encode_message;
use byzcast::codec::encode_signal;
use byzcast::reliable::RbStep;
use byzcast::reliable::ReliableBroadcastMonitor;
use byzcast::reliable::barycentric_report_input_signal;
use byzcast::validity_threshold;
use byzcast::witness::Report;
use byzcast::witness::ReportType;

/// Run the barycentric layer over an in-memory network: messages and
/// barycentric reports travel by reliable broadcast; deliveries feed
/// each participant's barycentric handler.
fn run_barycentric_network(
    n: u32,
    initial_frames: Vec<String>,
) -> (Vec<BarycentricMonitorMap>, Vec<Vec<Report>>) {
    let v = validity_threshold(n);
    let a = agreement_threshold(n);
    let mut rb: Vec<ReliableBroadcastMonitor> = Vec::new();
    let mut ba: Vec<BarycentricMonitorMap> = Vec::new();
    let mut rb_inboxes: Vec<VecDeque<String>> = Vec::new();
    let mut ba_inboxes: Vec<VecDeque<String>> = Vec::new();
    let mut terminals: Vec<Vec<Report>> = Vec::new();
    for _ in 0..n {
        rb.push(ReliableBroadcastMonitor::new());
        ba.push(BarycentricMonitorMap::new());
        rb_inboxes.push(VecDeque::new());
        ba_inboxes.push(VecDeque::new());
        terminals.push(Vec::new());
    }
    for frame in initial_frames {
        for inbox in rb_inboxes.iter_mut() {
            inbox.push_back(frame.clone());
        }
    }
    loop {
        let mut progressed = false;
        for i in 0..n as usize {
            if let Some(frame) = rb_inboxes[i].pop_front() {
                progressed = true;
                let signal = match decode_signal(frame.as_str()) {
                    Some(s) => s,
                    None => continue,
                };
                match rb[i].handle_signal(i as u32, v, a, signal) {
                    RbStep::Fatal => panic!("unexpected fatal reliable transition"),
                    RbStep::Ignore => {}
                    RbStep::BroadcastEcho(s) | RbStep::BroadcastVote(s) => {
                        let out = encode_signal(&s);
                        for inbox in rb_inboxes.iter_mut() {
                            inbox.push_back(out.clone());
                        }
                    }
                    RbStep::Deliver(content) => match dispatch_barycentric_delivery(content) {
                        BarycentricDelivery::ToBasic(_) => {}
                        BarycentricDelivery::Dropped => {}
                        BarycentricDelivery::ToHandlerMessage(m) => {
                            ba_inboxes[i].push_back(encode_message(&m));
                        }
                        BarycentricDelivery::ToHandlerReport(q) => {
                            ba_inboxes[i].push_back(encode_barycentric_report(&q));
                        }
                        BarycentricDelivery::Fatal => panic!("unexpected fatal delivery"),
                    },
                }
            }
            if let Some(frame) = ba_inboxes[i].pop_front() {
                progressed = true;
                let object = match decode_object(frame.as_str()) {
                    Some(o) => o,
                    None => continue,
                };
                let step = ba[i].handle_object(i as u32, n, v, a, object);
                assert!(!step.fatal, "unexpected fatal barycentric transition");
                if let Some(report) = step.broadcast_report {
                    let out = encode_signal(&barycentric_report_input_signal(report));
                    for inbox in rb_inboxes.iter_mut() {
                        inbox.push_back(out.clone());
                    }
                }
                if let Some(report) = step.deliver_trusted {
                    terminals[i].push(report);
                }
            }
        }
        if !progressed {
            break;
        }
    }
    (ba, terminals)
}

fn barycentric_value(id: u32) -> Message {
    Message::new(
        String::from("barycentric"),
        id,
        format!("distinct value of {}", id),
        None,
        Some(0),
        0,
    )
}

#[test]
fn ba_six_participants_trust_all_slots() {
    // Six participants each barycentric-broadcast a distinct value: all
    // six end with every peer slot filled, a full trusted set, and the
    // buddy milestone reached with a terminal report of the trusted
    // messages.
    let n: u32 = 6;
    let mut frames = Vec::new();
    for i in 0..n {
        let input = barycentric_input_signal(i, format!("distinct value of {}", i), 0);
        frames.push(encode_signal(&input));
    }
    let (ba, terminals) = run_barycentric_network(n, frames);
    for i in 0..n as usize {
        let monitor = ba[i].get_round(0).expect("round observed");
        assert_eq!(monitor.count.messages, n);
        assert!(monitor.state.messages);
        assert!(monitor.state.trusted);
        for j in 0..n as usize {
            let slot = &monitor.content.messages[j];
            assert_eq!(slot.id, j as u32);
            assert_eq!(slot.message, format!("distinct value of {}", j));
        }
        assert!(monitor.state.buddies, "participant {} reaches the buddy milestone", i);
        assert_eq!(monitor.count.buddies, n);
        assert_eq!(terminals[i].len(), 1);
        let terminal = &terminals[i][0];
        assert!(matches!(terminal.report_type, ReportType::Witness));
        assert_eq!(terminal.protocol_information.as_str(), "barycentric");
        assert_eq!(terminal.messages.len(), n as usize);
        for j in 0..n {
            assert!(byzcast::basic::contains_message(
                &terminal.messages,
                &barycentric_value(j)
            ));
        }
    }
}

#[test]
fn trusted_needs_the_agreement_threshold() {
    // Two attestations are needed at threshold two: a slot attested by a
    // single report stays untrusted.
    let n: u32 = 3;
    let mut content = BarycentricRoundContent::new(n);
    let mut count = BarycentricRoundCount::new();
    let m1 = barycentric_value(1);
    content.messages[1] = m1.clone();
    let mut listed = vec![
        byzcast::barycentric_agreement::initial_message(),
        m1.clone(),
        byzcast::barycentric_agreement::initial_message(),
    ];
    let report = byzcast::barycentric_agreement::BarycentricReport::new(
        String::from("barycentric"),
        0,
        listed.clone(),
        1,
        0,
    );
    content.barycentric_reports[0] = report;
    let trusted = initialize_trusted(0, 2, &mut count, &mut content);
    assert!(trusted.is_empty(), "one attestation is below the threshold");
    listed[1] = m1.clone();
    let second = byzcast::barycentric_agreement::BarycentricReport::new(
        String::from("barycentric"),
        2,
        listed,
        1,
        0,
    );
    content.barycentric_reports[2] = second;
    let trusted = initialize_trusted(0, 2, &mut count, &mut content);
    assert_eq!(trusted.len(), 1);
    assert!(byzcast::basic::message_eq(&trusted[0], &m1));
}

#[test]
fn buddies_require_matching_views_and_no_placeholder() {
    let n: u32 = 3;
    let mut content = BarycentricRoundContent::new(n);
    let mut count = BarycentricRoundCount::new();
    for j in 0..n {
        content.messages[j as usize] = barycentric_value(j);
    }
    // Peer 1 reports exactly the observer's view; peer 0 stays the
    // placeholder; peer 2 reports a different view.
    let matching = byzcast::barycentric_agreement::BarycentricReport::new(
        String::from("barycentric"),
        1,
        content.messages.clone(),
        3,
        0,
    );
    content.barycentric_reports[1] = matching;
    let different = byzcast::barycentric_agreement::BarycentricReport::new(
        String::from("barycentric"),
        2,
        vec![barycentric_value(0)],
        1,
        0,
    );
    content.barycentric_reports[2] = different;
    let _ = initial_barycentric_report();
    let mut messages = content.messages;
    let mut buddies = content.buddies;
    let mut reports = content.barycentric_reports;
    initialize_buddies(0, &mut messages, &mut buddies, &mut reports, &mut count);
    assert_eq!(buddies, vec![false, true, false]);
    assert_eq!(count.buddies, 1);
}

#[test]
fn barycentric_handler_refuses_reports_and_stray_ids() {
    let mut map = BarycentricMonitorMap::new();
    let stray_kind = Report::new(
        ReportType::Report,
        String::from("witness"),
        0,
        Vec::new(),
        None,
        0,
        0,
    );
    let step = map.handle_object(0, 3, 4, 1, byzcast::reliable::ObjectContent::Report(stray_kind));
    assert!(step.fatal);
    // A message from a sender id outside the participant range has no
    // slot to land in.
    let stray_id = barycentric_value(9);
    let step = map.handle_object(0, 3, 4, 1, byzcast::reliable::ObjectContent::Message(stray_id));
    assert!(step.fatal);
    assert!(step.broadcast_report.is_none());
    assert!(step.deliver_trusted.is_none());
}

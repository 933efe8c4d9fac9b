use std::collections::VecDeque;

use byzcast::agreement_threshold;
use byzcast::basic::Message;
use byzcast::codec::decode_object;
use byzcast::codec::decode_signal;
use byzcast::codec::encode_message;
use byzcast::codec::encode_report;
use byzcast::codec::encode_signal;
use byzcast::reliable::RbStep;
use byzcast::reliable::ReliableBroadcastMonitor;
use byzcast::reliable::report_input_signal;
use byzcast::validity_threshold;
use byzcast::witness::Report;
use byzcast::witness::ReportType;
use byzcast::witness::WitnessDelivery;
use byzcast::witness::WitnessMonitorMap;
use byzcast::witness::WitnessRoundContent;
use byzcast::witness::WitnessRoundCount;
use byzcast::witness::contains_report;
use byzcast::witness::dispatch_witness_delivery;
use byzcast::witness::initialize_witnesses;
use byzcast::witness::messages_subset;
use byzcast::witness::update_witnesses;
use byzcast::witness::witness_input_signal;

/// Run the witness layer over an in-memory network: reliable-broadcast
/// signals fan out to every participant; deliveries feed each
/// participant's witness handler, whose own report broadcasts re-enter
/// the network and whose terminal witness reports are collected.
fn run_witness_network(
    n: u32,
    initial_frames: Vec<String>,
) -> (Vec<WitnessMonitorMap>, Vec<Vec<Report>>) {
    let v = validity_threshold(n);
    let a = agreement_threshold(n);
    let mut rb: Vec<ReliableBroadcastMonitor> = Vec::new();
    let mut wb: Vec<WitnessMonitorMap> = Vec::new();
    let mut rb_inboxes: Vec<VecDeque<String>> = Vec::new();
    let mut wb_inboxes: Vec<VecDeque<String>> = Vec::new();
    let mut terminals: Vec<Vec<Report>> = Vec::new();
    for _ in 0..n {
        rb.push(ReliableBroadcastMonitor::new());
        wb.push(WitnessMonitorMap::new());
        rb_inboxes.push(VecDeque::new());
        wb_inboxes.push(VecDeque::new());
        terminals.push(Vec::new());
    }
    for frame in initial_frames {
        for inbox in rb_inboxes.iter_mut() {
            inbox.push_back(frame.clone());
        }
    }
    loop {
        let mut progressed = false;
        for i in 0..n as usize {
            if let Some(frame) = rb_inboxes[i].pop_front() {
                progressed = true;
                let signal = match decode_signal(frame.as_str()) {
                    Some(s) => s,
                    None => continue,
                };
                match rb[i].handle_signal(i as u32, v, a, signal) {
                    RbStep::Fatal => panic!("unexpected fatal reliable transition"),
                    RbStep::Ignore => {}
                    RbStep::BroadcastEcho(s) | RbStep::BroadcastVote(s) => {
                        let out = encode_signal(&s);
                        for inbox in rb_inboxes.iter_mut() {
                            inbox.push_back(out.clone());
                        }
                    }
                    RbStep::Deliver(content) => match dispatch_witness_delivery(content) {
                        WitnessDelivery::ToBasic(_) => {}
                        WitnessDelivery::Dropped => {}
                        WitnessDelivery::ToHandlerMessage(m) => {
                            wb_inboxes[i].push_back(encode_message(&m));
                        }
                        WitnessDelivery::ToHandlerReport(q) => {
                            wb_inboxes[i].push_back(encode_report(&q));
                        }
                        WitnessDelivery::Fatal => panic!("unexpected fatal delivery"),
                    },
                }
            }
            if let Some(frame) = wb_inboxes[i].pop_front() {
                progressed = true;
                let object = match decode_object(frame.as_str()) {
                    Some(o) => o,
                    None => continue,
                };
                let step = wb[i].handle_object(i as u32, v, object);
                assert!(!step.fatal, "unexpected fatal witness transition");
                if let Some(report) = step.broadcast_report {
                    let out = encode_signal(&report_input_signal(report));
                    for inbox in rb_inboxes.iter_mut() {
                        inbox.push_back(out.clone());
                    }
                }
                if let Some(report) = step.deliver_witness {
                    terminals[i].push(report);
                }
            }
        }
        if !progressed {
            break;
        }
    }
    (wb, terminals)
}

fn witness_value(id: u32, round: u32) -> Message {
    Message::new(
        String::from("witness"),
        id,
        format!("tagged value of {}", id),
        None,
        Some(0),
        round,
    )
}

#[test]
fn wb_six_participants_deliver_one_witness_each() {
    // Six participants each witness-broadcast a tagged value: every
    // participant ends with exactly one terminal witness report whose
    // message list holds all six broadcast values.
    let n: u32 = 6;
    let mut frames = Vec::new();
    for i in 0..n {
        let input = witness_input_signal(i, format!("tagged value of {}", i), 0);
        frames.push(encode_signal(&input));
    }
    let (wb, terminals) = run_witness_network(n, frames);
    for i in 0..n as usize {
        assert_eq!(terminals[i].len(), 1, "participant {} has one terminal report", i);
        let report = &terminals[i][0];
        assert!(matches!(report.report_type, ReportType::Witness));
        assert_eq!(report.protocol_information.as_str(), "witness");
        assert_eq!(report.id, i as u32);
        assert_eq!(report.messages.len(), n as usize);
        for j in 0..n {
            let expected = witness_value(j, 0);
            assert!(byzcast::basic::contains_message(&report.messages, &expected));
        }
        // The round monitor has all six values and six promoted
        // witnesses.
        let monitor = wb[i].get_round(0).expect("round observed");
        assert_eq!(monitor.content.values.len(), n as usize);
        assert_eq!(monitor.count.witnesses, n);
        assert!(monitor.state.report);
        assert!(monitor.state.witnesses);
        // Every recorded witness is justified by the local values.
        for w in &monitor.content.witnesses {
            assert!(messages_subset(&w.messages, &monitor.content.values));
        }
    }
}

#[test]
fn promotion_is_idempotent_on_the_witness_tally() {
    // Re-applying the promotion rule to already-promoted reports changes
    // neither the reports nor the witness tally.
    let values = vec![witness_value(0, 0), witness_value(1, 0)];
    let justified = Report::new(
        ReportType::Report,
        String::from("witness"),
        1,
        vec![witness_value(0, 0)],
        None,
        0,
        0,
    );
    let unjustified = Report::new(
        ReportType::Report,
        String::from("witness"),
        2,
        vec![witness_value(5, 0)],
        None,
        0,
        0,
    );
    let mut content = WitnessRoundContent::new();
    content.values = values;
    content.reports = vec![justified, unjustified];
    let mut count = WitnessRoundCount::new();
    count.values = 2;
    count.reports = 2;
    update_witnesses(9, &mut count, &mut content);
    assert_eq!(count.witnesses, 1);
    assert_eq!(content.witnesses.len(), 1);
    assert!(matches!(content.reports[0].report_type, ReportType::Witness));
    assert!(matches!(content.reports[1].report_type, ReportType::Report));
    update_witnesses(9, &mut count, &mut content);
    assert_eq!(count.witnesses, 1, "a second pass promotes nothing");
    assert_eq!(content.witnesses.len(), 1);
}

#[test]
fn justified_report_is_promoted_once() {
    let mut report = Report::new(
        ReportType::Report,
        String::from("witness"),
        0,
        vec![witness_value(0, 0)],
        None,
        0,
        0,
    );
    let mut witnesses: Vec<Report> = Vec::new();
    let mut count = WitnessRoundCount::new();
    let values = vec![witness_value(0, 0), witness_value(1, 0)];
    initialize_witnesses(7, &mut report, &mut witnesses, &mut count, values);
    assert!(matches!(report.report_type, ReportType::Witness));
    assert_eq!(witnesses.len(), 1);
    assert_eq!(count.witnesses, 1);
    assert!(contains_report(&witnesses, &report));
}

#[test]
fn unjustified_report_is_left_alone() {
    let mut report = Report::new(
        ReportType::Report,
        String::from("witness"),
        0,
        vec![witness_value(3, 0)],
        None,
        0,
        0,
    );
    let mut witnesses: Vec<Report> = Vec::new();
    let mut count = WitnessRoundCount::new();
    let values = vec![witness_value(0, 0)];
    initialize_witnesses(7, &mut report, &mut witnesses, &mut count, values);
    assert!(matches!(report.report_type, ReportType::Report));
    assert!(witnesses.is_empty());
    assert_eq!(count.witnesses, 0);
}

#[test]
fn witness_handler_refuses_aggregated_content() {
    let mut map = WitnessMonitorMap::new();
    let stray = byzcast::aggregated_witness::AggregatedReport::new(
        ReportType::Report,
        String::from("aggregated witness"),
        0,
        Vec::new(),
        0,
        0,
    );
    let step = map.handle_object(0, 4, byzcast::reliable::ObjectContent::AggregatedReport(stray));
    assert!(step.fatal);
    assert!(step.broadcast_report.is_none());
    assert!(step.deliver_witness.is_none());
}

#[test]
fn witness_dispatch_refuses_promoted_reports() {
    // A report already marked as a witness cannot be delivered through
    // the reliable layer.
    let promoted = Report::new(
        ReportType::Witness,
        String::from("witness"),
        0,
        Vec::new(),
        None,
        0,
        0,
    );
    let outcome = dispatch_witness_delivery(byzcast::reliable::ObjectContent::Report(promoted));
    assert!(matches!(outcome, WitnessDelivery::Fatal));
}

#[test]
fn promotion_fires_when_values_reach_the_threshold_exactly() {
    // A held report justified by the values becomes a witness as soon as
    // the values tally reaches the validity threshold, not only above it.
    let v: u32 = 2;
    let mut map = WitnessMonitorMap::new();
    let held = Report::new(
        ReportType::Report,
        String::from("witness"),
        1,
        vec![witness_value(0, 0), witness_value(1, 0)],
        None,
        0,
        0,
    );
    let step = map.handle_object(0, v, byzcast::reliable::ObjectContent::Report(held));
    assert!(!step.fatal);
    let step = map.handle_object(
        0,
        v,
        byzcast::reliable::ObjectContent::Message(witness_value(0, 0)),
    );
    assert!(!step.fatal);
    let monitor = map.get_round(0).expect("round observed");
    assert_eq!(monitor.count.witnesses, 0, "one value is below the threshold");
    let step = map.handle_object(
        0,
        v,
        byzcast::reliable::ObjectContent::Message(witness_value(1, 0)),
    );
    assert!(!step.fatal);
    let monitor = map.get_round(0).expect("round observed");
    assert_eq!(monitor.count.values, v);
    assert_eq!(monitor.count.witnesses, 1, "the report promotes at exactly the threshold");
    assert!(matches!(monitor.content.reports[0].report_type, ReportType::Witness));
}

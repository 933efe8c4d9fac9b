use std::collections::VecDeque;

use byzcast::agreement_threshold;
use byzcast::aggregated_witness::AggregatedWitnessDelivery;
use byzcast::aggregated_witness::aggregated_witness_input_signal;
use byzcast::aggregated_witness::dispatch_aggregated_delivery;
use byzcast::aggregated_witness::handle_aggregated_object;
use byzcast::aggregated_witness::reports_subset;
use byzcast::codec::decode_object;
use byzcast::codec::decode_signal;
use byzcast::codec::encode_aggregated_report;
use byzcast::codec::encode_message;
use byzcast::codec::encode_report;
use byzcast::codec::encode_signal;
use byzcast::reliable::RbStep;
use byzcast::reliable::ReliableBroadcastMonitor;
use byzcast::reliable::aggregated_report_input_signal;
use byzcast::reliable::report_input_signal;
use byzcast::validity_threshold;
use byzcast::witness::Report;
use byzcast::witness::ReportType;
use byzcast::witness::WitnessMonitorMap;

/// Run the aggregated witness layer over an in-memory network, as the
/// witness harness does, with the extra aggregated-report traffic.
fn run_aggregated_network(
    n: u32,
    initial_frames: Vec<String>,
) -> (Vec<WitnessMonitorMap>, Vec<Vec<Report>>, Vec<Vec<Report>>) {
    let v = validity_threshold(n);
    let a = agreement_threshold(n);
    let mut rb: Vec<ReliableBroadcastMonitor> = Vec::new();
    let mut wb: Vec<WitnessMonitorMap> = Vec::new();
    let mut rb_inboxes: Vec<VecDeque<String>> = Vec::new();
    let mut wb_inboxes: Vec<VecDeque<String>> = Vec::new();
    let mut witness_terminals: Vec<Vec<Report>> = Vec::new();
    let mut aggregated_terminals: Vec<Vec<Report>> = Vec::new();
    for _ in 0..n {
        rb.push(ReliableBroadcastMonitor::new());
        wb.push(WitnessMonitorMap::new());
        rb_inboxes.push(VecDeque::new());
        wb_inboxes.push(VecDeque::new());
        witness_terminals.push(Vec::new());
        aggregated_terminals.push(Vec::new());
    }
    for frame in initial_frames {
        for inbox in rb_inboxes.iter_mut() {
            inbox.push_back(frame.clone());
        }
    }
    loop {
        let mut progressed = false;
        for i in 0..n as usize {
            if let Some(frame) = rb_inboxes[i].pop_front() {
                progressed = true;
                let signal = match decode_signal(frame.as_str()) {
                    Some(s) => s,
                    None => continue,
                };
                match rb[i].handle_signal(i as u32, v, a, signal) {
                    RbStep::Fatal => panic!("unexpected fatal reliable transition"),
                    RbStep::Ignore => {}
                    RbStep::BroadcastEcho(s) | RbStep::BroadcastVote(s) => {
                        let out = encode_signal(&s);
                        for inbox in rb_inboxes.iter_mut() {
                            inbox.push_back(out.clone());
                        }
                    }
                    RbStep::Deliver(content) => match dispatch_aggregated_delivery(content) {
                        AggregatedWitnessDelivery::ToBasic(_) => {}
                        AggregatedWitnessDelivery::Dropped => {}
                        AggregatedWitnessDelivery::ToHandlerMessage(m) => {
                            wb_inboxes[i].push_back(encode_message(&m));
                        }
                        AggregatedWitnessDelivery::ToHandlerReport(q) => {
                            wb_inboxes[i].push_back(encode_report(&q));
                        }
                        AggregatedWitnessDelivery::ToHandlerAggregated(q) => {
                            wb_inboxes[i].push_back(encode_aggregated_report(&q));
                        }
                        AggregatedWitnessDelivery::Fatal => panic!("unexpected fatal delivery"),
                    },
                }
            }
            if let Some(frame) = wb_inboxes[i].pop_front() {
                progressed = true;
                let object = match decode_object(frame.as_str()) {
                    Some(o) => o,
                    None => continue,
                };
                let step = handle_aggregated_object(&mut wb[i], i as u32, v, object);
                assert!(!step.fatal, "unexpected fatal aggregated transition");
                if let Some(report) = step.broadcast_report {
                    let out = encode_signal(&report_input_signal(report));
                    for inbox in rb_inboxes.iter_mut() {
                        inbox.push_back(out.clone());
                    }
                }
                if let Some(report) = step.broadcast_aggregated {
                    let out = encode_signal(&aggregated_report_input_signal(report));
                    for inbox in rb_inboxes.iter_mut() {
                        inbox.push_back(out.clone());
                    }
                }
                if let Some(report) = step.deliver_witness {
                    witness_terminals[i].push(report);
                }
                if let Some(report) = step.deliver_aggregated {
                    aggregated_terminals[i].push(report);
                }
            }
        }
        if !progressed {
            break;
        }
    }
    (wb, witness_terminals, aggregated_terminals)
}

#[test]
fn awb_six_participants_promote_and_deliver() {
    // Six participants each aggregated-witness-broadcast: every
    // participant collects the aggregated reports, promotes them all to
    // aggregated witnesses, and delivers one terminal witness report.
    let n: u32 = 6;
    let mut frames = Vec::new();
    for i in 0..n {
        let input = aggregated_witness_input_signal(i, format!("aggregated value of {}", i), 0);
        frames.push(encode_signal(&input));
    }
    let (wb, witness_terminals, aggregated_terminals) = run_aggregated_network(n, frames);
    for i in 0..n as usize {
        // The witness tag never fires here, the aggregated terminal does.
        assert!(witness_terminals[i].is_empty());
        assert_eq!(aggregated_terminals[i].len(), 1);
        let terminal = &aggregated_terminals[i][0];
        assert!(matches!(terminal.report_type, ReportType::Witness));
        assert_eq!(terminal.protocol_information.as_str(), "aggregated witness");
        assert_eq!(terminal.messages.len(), n as usize);
        let monitor = wb[i].get_round(0).expect("round observed");
        assert_eq!(monitor.content.values.len(), n as usize);
        assert_eq!(monitor.count.witnesses, n);
        assert_eq!(monitor.content.aggregated_reports.len(), n as usize);
        assert_eq!(monitor.count.aggregated_witnesses, n);
        assert!(monitor.state.report);
        assert!(monitor.state.witnesses);
        assert!(monitor.state.aggregated_witnesses);
        // Each promoted aggregated report's reports are all local
        // witnesses.
        for aw in &monitor.content.aggregated_witnesses {
            assert!(reports_subset(&aw.reports, &monitor.content.witnesses));
        }
    }
}

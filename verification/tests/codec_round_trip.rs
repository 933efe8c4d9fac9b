use byzcast::aggregated_witness::AggregatedReport;
use byzcast::aggregated_witness::aggregated_report_eq;
use byzcast::barycentric_agreement::BarycentricReport;
use byzcast::barycentric_agreement::barycentric_report_eq;
use byzcast::basic::Message;
use byzcast::basic::RecvObject;
use byzcast::basic::message_eq;
use byzcast::codec::decode_aggregated_report;
use byzcast::codec::decode_barycentric_report;
use byzcast::codec::decode_message;
use byzcast::codec::decode_object;
use byzcast::codec::decode_recv_object;
use byzcast::codec::decode_report;
use byzcast::codec::decode_signal;
use byzcast::codec::encode_aggregated_report;
use byzcast::codec::encode_barycentric_report;
use byzcast::codec::encode_message;
use byzcast::codec::encode_report;
use byzcast::codec::encode_signal;
use byzcast::reliable::ObjectContent;
use byzcast::reliable::Signal;
use byzcast::reliable::SignalType;
use byzcast::witness::Report;
use byzcast::witness::ReportType;
use byzcast::witness::report_eq;

fn sample_message(id: u32, payload: &str) -> Message {
    Message::new(
        String::from("witness"),
        id,
        String::from(payload),
        None,
        Some(0),
        7,
    )
}

#[test]
fn message_round_trip() {
    let m = sample_message(3, "hello");
    let frame = encode_message(&m);
    let back = decode_message(frame.as_str()).expect("a frame encoded from a message decodes");
    assert!(message_eq(&m, &back));
}

#[test]
fn message_round_trip_awkward_payload() {
    // Payloads that collide with the framing's own separators must come
    // back untouched.
    let m = Message::new(
        String::from("12;34:n s"),
        9,
        String::from("7;:Mw''R\u{e9}\u{4e16}"),
        Some(0),
        None,
        u32::MAX,
    );
    let frame = encode_message(&m);
    let back = decode_message(frame.as_str()).expect("decodes");
    assert!(message_eq(&m, &back));
}

#[test]
fn report_round_trip() {
    let messages = vec![sample_message(0, "a"), sample_message(1, "b;b")];
    let q = Report::new(
        ReportType::Witness,
        String::from("witness"),
        2,
        messages,
        None,
        0,
        5,
    );
    let frame = encode_report(&q);
    let back = decode_report(frame.as_str()).expect("decodes");
    assert!(report_eq(&q, &back));
}

#[test]
fn aggregated_report_round_trip() {
    let inner = Report::new(
        ReportType::Report,
        String::from("aggregated witness"),
        1,
        vec![sample_message(0, "x")],
        None,
        0,
        2,
    );
    let a = AggregatedReport::new(
        ReportType::Report,
        String::from("aggregated witness"),
        4,
        vec![inner.clone(), inner],
        0,
        2,
    );
    let frame = encode_aggregated_report(&a);
    let back = decode_aggregated_report(frame.as_str()).expect("decodes");
    assert!(aggregated_report_eq(&a, &back));
}

#[test]
fn barycentric_report_round_trip() {
    let b = BarycentricReport::new(
        String::from("barycentric"),
        5,
        vec![sample_message(0, ""), sample_message(1, "q")],
        3,
        0,
    );
    let frame = encode_barycentric_report(&b);
    let back = decode_barycentric_report(frame.as_str()).expect("decodes");
    assert!(barycentric_report_eq(&b, &back));
}

#[test]
fn signal_round_trip() {
    let sig = Signal::new(
        SignalType::Echo,
        ObjectContent::Message(sample_message(2, "payload")),
        11,
        4,
    );
    let frame = encode_signal(&sig);
    let back = decode_signal(frame.as_str()).expect("decodes");
    assert!(matches!(back.signal, SignalType::Echo));
    assert_eq!(back.instance_number, 11);
    assert_eq!(back.round_number, 4);
    match (&sig.content, &back.content) {
        (ObjectContent::Message(a), ObjectContent::Message(b)) => assert!(message_eq(a, b)),
        _ => panic!("the content kind survived the round trip"),
    }
}

#[test]
fn signal_round_trip_report_content() {
    let q = Report::new(
        ReportType::Report,
        String::from("witness"),
        0,
        vec![sample_message(0, "v0")],
        None,
        0,
        0,
    );
    let sig = Signal::new(SignalType::Input, ObjectContent::Report(q.clone()), 0, 0);
    let frame = encode_signal(&sig);
    let back = decode_signal(frame.as_str()).expect("decodes");
    match back.content {
        ObjectContent::Report(b) => assert!(report_eq(&q, &b)),
        _ => panic!("the content kind survived the round trip"),
    }
}

#[test]
fn recv_object_round_trip() {
    let m = sample_message(1, "basic payload");
    let frame = encode_message(&m);
    match decode_recv_object(frame.as_str()) {
        Some(RecvObject::Message(back)) => assert!(message_eq(&m, &back)),
        _ => panic!("a message frame reads back as a message"),
    }
    let q = Report::new(
        ReportType::Witness,
        String::from("witness"),
        2,
        vec![m],
        None,
        0,
        0,
    );
    let frame = encode_report(&q);
    match decode_recv_object(frame.as_str()) {
        Some(RecvObject::Collection(back)) => assert!(report_eq(&q, &back)),
        _ => panic!("a report frame reads back as a collection"),
    }
}

#[test]
fn malformed_frames_are_refused() {
    assert!(decode_message("").is_none());
    assert!(decode_message("garbage").is_none());
    assert!(decode_message("M9999999999999999999999999;x").is_none());
    assert!(decode_signal("").is_none());
    assert!(decode_signal("Snot a signal").is_none());
    assert!(decode_recv_object("\u{1F600} not a frame").is_none());
    assert!(decode_object("Z0;").is_none());
    // A frame with trailing characters is not a whole encoding.
    let m = sample_message(0, "x");
    let mut frame = encode_message(&m);
    frame.push('!');
    assert!(decode_message(frame.as_str()).is_none());
}

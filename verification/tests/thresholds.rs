use byzcast::agreement_threshold;
use byzcast::faulty_threads;
use byzcast::validity_threshold;

#[test]
fn thresholds_single_participant() {
    assert_eq!(faulty_threads(1), 0);
    assert_eq!(validity_threshold(1), 2);
    assert_eq!(agreement_threshold(1), 1);
}

#[test]
fn thresholds_three_participants() {
    assert_eq!(faulty_threads(3), 0);
    assert_eq!(validity_threshold(3), 4);
    assert_eq!(agreement_threshold(3), 1);
}

#[test]
fn thresholds_four_participants() {
    assert_eq!(faulty_threads(4), 1);
    assert_eq!(validity_threshold(4), 4);
    assert_eq!(agreement_threshold(4), 2);
}

#[test]
fn thresholds_six_participants() {
    assert_eq!(faulty_threads(6), 1);
    assert_eq!(validity_threshold(6), 6);
    assert_eq!(agreement_threshold(6), 2);
}

#[test]
fn thresholds_seven_participants() {
    assert_eq!(faulty_threads(7), 2);
    assert_eq!(validity_threshold(7), 6);
    assert_eq!(agreement_threshold(7), 3);
}

//! Aggregated witness broadcast: reports over collected witnesses and their
//! promotion to aggregated witnesses.
use vstd::prelude::*;

use crate::basic::Message;
use crate::reliable::ObjectContent;
use crate::reliable::ObjectContentModel;
use crate::reliable::spec_content_protocol;
use crate::reliable::spec_content_round_number;
use crate::spec_sat_add;
use crate::spec_sat_inc;
use crate::witness::Report;
use crate::witness::ReportModel;
use crate::witness::ReportType;
use crate::witness::WitnessMonitorMap;
use crate::witness::WitnessRoundContentModel;
use crate::witness::WitnessRoundCount;
use crate::witness::WitnessRoundMonitorModel;
use crate::witness::WitnessRoundState;
use crate::witness::report_eq;
use crate::witness::spec_contains_report;
use crate::witness::spec_fresh_witness_monitor;
use crate::witness::spec_has_round;
use crate::witness::spec_pass_promotions;
use crate::witness::spec_promote_pass;
use crate::witness::spec_round_monitor;
use crate::witness::spec_subset_messages;

verus! {

/// A participant's attested set of witness reports in a round.
#[derive(Debug)]
pub struct AggregatedReport {
    pub report_type: ReportType,
    pub protocol_information: String,
    pub id: u32,
    pub reports: Vec<Report>,
    pub instance_number: u32,
    pub round_number: u32,
}

/// Abstract value of an `AggregatedReport`.
#[verifier::ext_equal]
pub struct AggregatedReportModel {
    pub report_type: ReportType,
    pub protocol_information: Seq<char>,
    pub id: u32,
    pub reports: Seq<ReportModel>,
    pub instance_number: u32,
    pub round_number: u32,
}

impl View for AggregatedReport {
    type V = AggregatedReportModel;

    open spec fn view(&self) -> AggregatedReportModel {
        AggregatedReportModel {
            report_type: self.report_type,
            protocol_information: self.protocol_information@,
            id: self.id,
            reports: self.reports@.map_values(|q: Report| q@),
            instance_number: self.instance_number,
            round_number: self.round_number,
        }
    }
}

impl Clone for AggregatedReport {
    fn clone(&self) -> (r: Self)
        ensures
            r@ == self@,
    {
        let r = AggregatedReport {
            report_type: self.report_type,
            protocol_information: self.protocol_information.clone(),
            id: self.id,
            reports: crate::witness::clone_reports(&self.reports),
            instance_number: self.instance_number,
            round_number: self.round_number,
        };
        proof {
            assert(r@ =~= self@);
        }
        r
    }
}

impl AggregatedReport {
    pub fn get_report_type(&self) -> (r: &ReportType)
        ensures
            r == self.report_type,
    {
        &self.report_type
    }

    pub fn get_protocol_information(&self) -> (r: &String)
        ensures
            r == self.protocol_information,
    {
        &self.protocol_information
    }

    pub fn get_id(&self) -> (r: u32)
        ensures
            r == self.id,
    {
        self.id
    }

    pub fn get_reports(&self) -> (r: &Vec<Report>)
        ensures
            r == self.reports,
    {
        &self.reports
    }

    pub fn get_instance_number(&self) -> (r: u32)
        ensures
            r == self.instance_number,
    {
        self.instance_number
    }

    pub fn get_round_number(&self) -> (r: u32)
        ensures
            r == self.round_number,
    {
        self.round_number
    }

    pub fn new(
        report_type: ReportType,
        protocol_information: String,
        id: u32,
        reports: Vec<Report>,
        instance_number: u32,
        round_number: u32,
    ) -> (r: AggregatedReport)
        ensures
            r == (AggregatedReport {
                report_type,
                protocol_information,
                id,
                reports,
                instance_number,
                round_number,
            }),
    {
        AggregatedReport {
            report_type,
            protocol_information,
            id,
            reports,
            instance_number,
            round_number,
        }
    }
}

/// Equality of two report vectors, element by element.
pub fn vec_report_eq(a: &Vec<Report>, b: &Vec<Report>) -> (r: bool)
    ensures
        r == (a@.map_values(|q: Report| q@) == b@.map_values(|q: Report| q@)),
{
    let ghost am = a@.map_values(|q: Report| q@);
    let ghost bm = b@.map_values(|q: Report| q@);
    if a.len() != b.len() {
        assert(am.len() != bm.len());
        return false;
    }
    let mut i: usize = 0;
    while i < a.len()
        invariant
            0 <= i <= a.len(),
            a.len() == b.len(),
            am == a@.map_values(|q: Report| q@),
            bm == b@.map_values(|q: Report| q@),
            forall|j: int| 0 <= j < i ==> am[j] == bm[j],
        decreases a.len() - i,
    {
        if !report_eq(&a[i], &b[i]) {
            assert(am[i as int] != bm[i as int]);
            return false;
        }
        i += 1;
    }
    proof {
        assert(am =~= bm);
    }
    true
}

/// Equality of two aggregated reports, decided field by field.
pub fn aggregated_report_eq(a: &AggregatedReport, b: &AggregatedReport) -> (r: bool)
    ensures
        r == (a@ == b@),
{
    let r = a.report_type == b.report_type && a.protocol_information == b.protocol_information
        && a.id == b.id && vec_report_eq(&a.reports, &b.reports) && a.instance_number
        == b.instance_number && a.round_number == b.round_number;
    proof {
        if r {
            assert(a@ == b@);
        }
    }
    r
}

/// Does `v` hold an aggregated report equal to `q`?
pub open spec fn spec_contains_aggregated_report(
    v: Seq<AggregatedReportModel>,
    q: AggregatedReportModel,
) -> bool {
    exists|i: int| 0 <= i < v.len() && v[i] == q
}

/// Linear search for `q` in `v` by `aggregated_report_eq`.
pub fn contains_aggregated_report(v: &Vec<AggregatedReport>, q: &AggregatedReport) -> (r: bool)
    ensures
        r == spec_contains_aggregated_report(v@.map_values(|x: AggregatedReport| x@), q@),
{
    let ghost models = v@.map_values(|x: AggregatedReport| x@);
    let mut i: usize = 0;
    while i < v.len()
        invariant
            0 <= i <= v.len(),
            models == v@.map_values(|x: AggregatedReport| x@),
            forall|j: int| 0 <= j < i ==> models[j] != q@,
        decreases v.len() - i,
    {
        if aggregated_report_eq(&v[i], q) {
            assert(models[i as int] == q@);
            return true;
        }
        i += 1;
    }
    false
}

/// Every report of `sub` occurs in `sup`.
pub open spec fn spec_subset_reports(sub: Seq<ReportModel>, sup: Seq<ReportModel>) -> bool {
    forall|i: int| 0 <= i < sub.len() ==> spec_contains_report(sup, sub[i])
}

/// Is every report of `sub` held by `sup`?
pub fn reports_subset(sub: &Vec<Report>, sup: &Vec<Report>) -> (r: bool)
    ensures
        r == spec_subset_reports(
            sub@.map_values(|q: Report| q@),
            sup@.map_values(|q: Report| q@),
        ),
{
    let ghost subm = sub@.map_values(|q: Report| q@);
    let ghost supm = sup@.map_values(|q: Report| q@);
    let mut i: usize = 0;
    while i < sub.len()
        invariant
            0 <= i <= sub.len(),
            subm == sub@.map_values(|q: Report| q@),
            supm == sup@.map_values(|q: Report| q@),
            forall|j: int| 0 <= j < i ==> spec_contains_report(supm, subm[j]),
        decreases sub.len() - i,
    {
        if !crate::witness::contains_report(sup, &sub[i]) {
            assert(!spec_contains_report(supm, subm[i as int]));
            return false;
        }
        i += 1;
    }
    true
}

/// The same aggregated report with its kind raised to `Witness`.
pub open spec fn spec_flip_aggregated(q: AggregatedReportModel) -> AggregatedReportModel {
    AggregatedReportModel { report_type: ReportType::Witness, ..q }
}

/// Does the aggregated promotion rule fire for `q` against `witnesses`?
/// Only a plain aggregated report all of whose reports are local
/// witnesses is promoted.
pub open spec fn spec_aggregated_promotes(
    q: AggregatedReportModel,
    witnesses: Seq<ReportModel>,
) -> bool {
    q.report_type == ReportType::Report && spec_subset_reports(q.reports, witnesses)
}

/// One pass of the aggregated promotion rule over every aggregated
/// report.
pub open spec fn spec_aggregated_promote_pass(
    aggregated: Seq<AggregatedReportModel>,
    witnesses: Seq<ReportModel>,
) -> Seq<AggregatedReportModel> {
    aggregated.map_values(
        |q: AggregatedReportModel|
            if spec_aggregated_promotes(q, witnesses) {
                spec_flip_aggregated(q)
            } else {
                q
            },
    )
}

/// The aggregated witnesses one pass gains, in report order.
pub open spec fn spec_aggregated_pass_promotions(
    aggregated: Seq<AggregatedReportModel>,
    witnesses: Seq<ReportModel>,
) -> Seq<AggregatedReportModel>
    decreases aggregated.len(),
{
    if aggregated.len() == 0 {
        Seq::empty()
    } else {
        let rest = spec_aggregated_pass_promotions(aggregated.drop_last(), witnesses);
        if spec_aggregated_promotes(aggregated.last(), witnesses) {
            rest.push(spec_flip_aggregated(aggregated.last()))
        } else {
            rest
        }
    }
}

/// Check one aggregated report against the local witnesses and, if every
/// one of its reports is a local witness, raise it to an aggregated
/// witness, record it, and count it.
pub fn initialize_aggregated_witnesses(
    _thread_id: u32,
    aggregated_report: &mut AggregatedReport,
    aggregated_witnesses: &mut Vec<AggregatedReport>,
    count: &mut WitnessRoundCount,
    witnesses: Vec<Report>,
)
    ensures
        ({
            let justified = spec_subset_reports(
                old(aggregated_report)@.reports,
                witnesses@.map_values(|q: Report| q@),
            );
            &&& justified ==> {
                &&& final(aggregated_report)@ == spec_flip_aggregated(old(aggregated_report)@)
                &&& final(aggregated_witnesses)@.map_values(|q: AggregatedReport| q@) == old(
                    aggregated_witnesses,
                )@.map_values(|q: AggregatedReport| q@).push(
                    spec_flip_aggregated(old(aggregated_report)@),
                )
                &&& *final(count) == (WitnessRoundCount {
                    aggregated_witnesses: spec_sat_inc(old(count).aggregated_witnesses),
                    ..*old(count)
                })
            }
            &&& !justified ==> {
                &&& final(aggregated_report)@ == old(aggregated_report)@
                &&& final(aggregated_witnesses)@.map_values(|q: AggregatedReport| q@) == old(
                    aggregated_witnesses,
                )@.map_values(|q: AggregatedReport| q@)
                &&& *final(count) == *old(count)
            }
        }),
{
    if reports_subset(&aggregated_report.reports, &witnesses) {
        aggregated_report.report_type = ReportType::Witness;
        let copy = aggregated_report.clone();
        aggregated_witnesses.push(copy);
        count.aggregated_witnesses = crate::sat_inc(count.aggregated_witnesses);
        proof {
            assert(final(aggregated_report)@ =~= spec_flip_aggregated(old(aggregated_report)@));
            assert(final(aggregated_witnesses)@.map_values(|q: AggregatedReport| q@) =~= old(
                aggregated_witnesses,
            )@.map_values(|q: AggregatedReport| q@).push(
                spec_flip_aggregated(old(aggregated_report)@),
            ));
        }
    }
}

/// Apply the aggregated promotion rule to every plain aggregated report
/// of the round: each one whose reports are all local witnesses becomes
/// an aggregated witness. Already-promoted ones are left alone, so
/// re-running the pass changes nothing.
pub fn update_aggregated_witnesses(
    thread_id: u32,
    count: &mut WitnessRoundCount,
    content: &mut crate::witness::WitnessRoundContent,
)
    ensures
        ({
            let witnesses = old(content)@.witnesses;
            let promotions = spec_aggregated_pass_promotions(
                old(content)@.aggregated_reports,
                witnesses,
            );
            &&& final(content)@.values == old(content)@.values
            &&& final(content)@.reports == old(content)@.reports
            &&& final(content)@.witnesses == old(content)@.witnesses
            &&& final(content)@.aggregated_reports == spec_aggregated_promote_pass(
                old(content)@.aggregated_reports,
                witnesses,
            )
            &&& final(content)@.aggregated_witnesses == old(content)@.aggregated_witnesses
                + promotions
            &&& final(content)@.dimension == old(content)@.dimension
            &&& final(content)@.instance_number == old(content)@.instance_number
            &&& *final(count) == (WitnessRoundCount {
                aggregated_witnesses: spec_sat_add(
                    old(count).aggregated_witnesses,
                    promotions.len(),
                ),
                ..*old(count)
            })
        }),
{
    let ghost witnesses = old(content)@.witnesses;
    let ghost aggregated0 = old(content)@.aggregated_reports;
    let mut i: usize = 0;
    while i < content.aggregated_reports.len()
        invariant
            0 <= i <= content.aggregated_reports.len(),
            witnesses == content@.witnesses,
            content@.aggregated_reports.len() == aggregated0.len(),
            content.witnesses@.map_values(|q: Report| q@) == witnesses,
            forall|j: int|
                0 <= j < i ==> content@.aggregated_reports[j] == spec_aggregated_promote_pass(
                    aggregated0,
                    witnesses,
                )[j],
            forall|j: int|
                i <= j < aggregated0.len() ==> content@.aggregated_reports[j] == aggregated0[j],
            content@.aggregated_witnesses == old(content)@.aggregated_witnesses
                + spec_aggregated_pass_promotions(aggregated0.take(i as int), witnesses),
            content@.values == old(content)@.values,
            content@.reports == old(content)@.reports,
            content@.dimension == old(content)@.dimension,
            content@.instance_number == old(content)@.instance_number,
            *count == (WitnessRoundCount {
                aggregated_witnesses: spec_sat_add(
                    old(count).aggregated_witnesses,
                    spec_aggregated_pass_promotions(aggregated0.take(i as int), witnesses).len(),
                ),
                ..*old(count)
            }),
        decreases content.aggregated_reports.len() - i,
    {
        let ghost promos_before = spec_aggregated_pass_promotions(
            aggregated0.take(i as int),
            witnesses,
        );
        let mut q = content.aggregated_reports[i].clone();
        proof {
            assert(q@ == aggregated0[i as int]);
            assert(aggregated0.take(i as int + 1).drop_last() =~= aggregated0.take(i as int));
            assert(aggregated0.take(i as int + 1).last() == aggregated0[i as int]);
        }
        if matches!(q.report_type, ReportType::Report) {
            let witnesses_copy = crate::witness::clone_reports(&content.witnesses);
            initialize_aggregated_witnesses(
                thread_id,
                &mut q,
                &mut content.aggregated_witnesses,
                count,
                witnesses_copy,
            );
            proof {
                if spec_aggregated_promotes(aggregated0[i as int], witnesses) {
                    crate::lemma_sat_add_step(old(count).aggregated_witnesses, promos_before.len());
                }
            }
        }
        content.aggregated_reports.set(i, q);
        i += 1;
    }
    proof {
        assert(aggregated0.take(aggregated0.len() as int) =~= aggregated0);
        assert(content@.aggregated_reports =~= spec_aggregated_promote_pass(
            aggregated0,
            witnesses,
        ));
    }
}

/// Content that does not belong on the aggregated witness handler: a
/// barycentric report aborts it.
pub open spec fn spec_aggregated_object_fatal(c: ObjectContentModel) -> bool {
    match c {
        ObjectContentModel::BarycentricReport(_) => true,
        _ => false,
    }
}

/// What recording one delivered object does to a round's content and
/// tallies at the aggregated witness handler, with validity threshold
/// `v`. A fresh message is appended; at `v` values or more every plain
/// report and every plain aggregated report are re-checked for
/// promotion, since new witnesses can unblock the latter. A fresh report
/// or aggregated report is appended and checked for promotion at once.
/// Duplicates change nothing.
pub open spec fn spec_awb_insert(
    c: WitnessRoundContentModel,
    k: WitnessRoundCount,
    obj: ObjectContentModel,
    v: u32,
) -> (WitnessRoundContentModel, WitnessRoundCount) {
    match obj {
        ObjectContentModel::Message(m) => {
            if crate::basic::spec_contains_message(c.values, m) {
                (c, k)
            } else {
                let c1 = WitnessRoundContentModel { values: c.values.push(m), ..c };
                let k1 = WitnessRoundCount { values: spec_sat_inc(k.values), ..k };
                let promos = spec_pass_promotions(c1.reports, c1.values);
                let c2 = if k1.values >= v {
                    WitnessRoundContentModel {
                        reports: spec_promote_pass(c1.reports, c1.values),
                        witnesses: c1.witnesses + promos,
                        ..c1
                    }
                } else {
                    c1
                };
                let k2 = if k1.values >= v {
                    WitnessRoundCount { witnesses: spec_sat_add(k1.witnesses, promos.len()), ..k1 }
                } else {
                    k1
                };
                let agg_promos = spec_aggregated_pass_promotions(
                    c2.aggregated_reports,
                    c2.witnesses,
                );
                let c3 = if k2.values >= v {
                    WitnessRoundContentModel {
                        aggregated_reports: spec_aggregated_promote_pass(
                            c2.aggregated_reports,
                            c2.witnesses,
                        ),
                        aggregated_witnesses: c2.aggregated_witnesses + agg_promos,
                        ..c2
                    }
                } else {
                    c2
                };
                let k3 = if k2.values >= v {
                    WitnessRoundCount {
                        aggregated_witnesses: spec_sat_add(
                            k2.aggregated_witnesses,
                            agg_promos.len(),
                        ),
                        ..k2
                    }
                } else {
                    k2
                };
                (c3, k3)
            }
        },
        ObjectContentModel::Report(q) => {
            if spec_contains_report(c.reports, q) {
                (c, k)
            } else {
                let c1 = WitnessRoundContentModel { reports: c.reports.push(q), ..c };
                let k1 = WitnessRoundCount { reports: spec_sat_inc(k.reports), ..k };
                if spec_subset_messages(q.messages, c1.values) {
                    (
                        WitnessRoundContentModel {
                            reports: c1.reports.update(
                                c1.reports.len() - 1,
                                crate::witness::spec_flip_witness(q),
                            ),
                            witnesses: c1.witnesses.push(crate::witness::spec_flip_witness(q)),
                            ..c1
                        },
                        WitnessRoundCount { witnesses: spec_sat_inc(k1.witnesses), ..k1 },
                    )
                } else {
                    (c1, k1)
                }
            }
        },
        ObjectContentModel::AggregatedReport(q) => {
            if spec_contains_aggregated_report(c.aggregated_reports, q) {
                (c, k)
            } else {
                let c1 = WitnessRoundContentModel {
                    aggregated_reports: c.aggregated_reports.push(q),
                    ..c
                };
                let k1 = WitnessRoundCount {
                    aggregated_reports: spec_sat_inc(k.aggregated_reports),
                    ..k
                };
                if spec_subset_reports(q.reports, c1.witnesses) {
                    (
                        WitnessRoundContentModel {
                            aggregated_reports: c1.aggregated_reports.update(
                                c1.aggregated_reports.len() - 1,
                                spec_flip_aggregated(q),
                            ),
                            aggregated_witnesses: c1.aggregated_witnesses.push(
                                spec_flip_aggregated(q),
                            ),
                            ..c1
                        },
                        WitnessRoundCount {
                            aggregated_witnesses: spec_sat_inc(k1.aggregated_witnesses),
                            ..k1
                        },
                    )
                } else {
                    (c1, k1)
                }
            }
        },
        _ => (c, k),
    }
}

/// What the aggregated witness handler emits after recording an object.
/// At `v` values it broadcasts its own report once; at `v` witnesses it
/// either delivers its terminal witness report (under the witness tag) or
/// broadcasts its aggregated report, once; at `v` aggregated witnesses it
/// delivers its terminal aggregated witness report once.
pub open spec fn spec_awb_emissions(
    observer: u32,
    prot: Seq<char>,
    round: u32,
    v: u32,
    c: WitnessRoundContentModel,
    k: WitnessRoundCount,
    s: WitnessRoundState,
) -> (
    WitnessRoundState,
    Option<ReportModel>,
    Option<AggregatedReportModel>,
    Option<ReportModel>,
    Option<ReportModel>,
) {
    let fire_report = k.values >= v && !s.report;
    let s1 = WitnessRoundState { report: s.report || fire_report, ..s };
    let br = if fire_report {
        Option::Some(
            ReportModel {
                report_type: ReportType::Report,
                protocol_information: prot,
                id: observer,
                messages: c.values,
                dimension: Option::None,
                instance_number: 0,
                round_number: round,
            },
        )
    } else {
        Option::None
    };
    let fire_witness = k.witnesses >= v && !s1.witnesses;
    let s2 = WitnessRoundState { witnesses: s1.witnesses || fire_witness, ..s1 };
    let tw = if fire_witness && prot == "witness"@ {
        Option::Some(
            ReportModel {
                report_type: ReportType::Witness,
                protocol_information: "witness"@,
                id: observer,
                messages: c.values,
                dimension: Option::None,
                instance_number: 0,
                round_number: round,
            },
        )
    } else {
        Option::None
    };
    let ba = if fire_witness && prot != "witness"@ {
        Option::Some(
            AggregatedReportModel {
                report_type: ReportType::Report,
                protocol_information: "aggregated witness"@,
                id: observer,
                reports: c.witnesses,
                instance_number: 0,
                round_number: round,
            },
        )
    } else {
        Option::None
    };
    let fire_aggregated = k.aggregated_witnesses >= v && !s2.aggregated_witnesses;
    let s3 = WitnessRoundState {
        aggregated_witnesses: s2.aggregated_witnesses || fire_aggregated,
        ..s2
    };
    let ta = if fire_aggregated {
        Option::Some(
            ReportModel {
                report_type: ReportType::Witness,
                protocol_information: "aggregated witness"@,
                id: observer,
                messages: c.values,
                dimension: Option::None,
                instance_number: 0,
                round_number: round,
            },
        )
    } else {
        Option::None
    };
    (s3, br, ba, tw, ta)
}

/// The outcome of handing one object to the aggregated witness handler.
#[derive(Debug)]
pub struct AggregatedWitnessStep {
    /// The object kind cannot appear on this handler: the handler must
    /// abort.
    pub fatal: bool,
    /// The observer's own report of the round, to be broadcast reliably.
    pub broadcast_report: Option<Report>,
    /// The observer's own aggregated report, to be broadcast reliably.
    pub broadcast_aggregated: Option<AggregatedReport>,
    /// The observer's terminal witness report, to be enqueued onto its
    /// own basic queue.
    pub deliver_witness: Option<Report>,
    /// The observer's terminal aggregated witness report, to be enqueued
    /// onto its own basic queue.
    pub deliver_aggregated: Option<Report>,
}

/// Feed one delivered object to the aggregated witness handler of
/// `thread_id`, with validity threshold `v`.
///
/// Messages, reports and aggregated reports are recorded and checked for
/// promotion as `spec_awb_insert` says; afterwards the handler emits what
/// `spec_awb_emissions` says. Barycentric content does not belong on this
/// handler and is fatal.
#[verifier::rlimit(60)]
pub fn handle_aggregated_object(
    map: &mut WitnessMonitorMap,
    thread_id: u32,
    v: u32,
    object: ObjectContent,
) -> (step: AggregatedWitnessStep)
    requires
        old(map).wf(),
    ensures
        final(map).wf(),
        step.fatal == spec_aggregated_object_fatal(object@),
        step.fatal ==> final(map)@ == old(map)@ && step.broadcast_report is None
            && step.broadcast_aggregated is None && step.deliver_witness is None
            && step.deliver_aggregated is None,
        !step.fatal ==> ({
            let round = spec_content_round_number(object@);
            let prot = spec_content_protocol(object@);
            let m0 = if spec_has_round(old(map)@, round) {
                spec_round_monitor(old(map)@, round)
            } else {
                spec_fresh_witness_monitor()
            };
            let ck = spec_awb_insert(m0.content, m0.count, object@, v);
            let out = spec_awb_emissions(thread_id, prot, round, v, ck.0, ck.1, m0.state);
            &&& spec_has_round(final(map)@, round)
            &&& spec_round_monitor(final(map)@, round) == (WitnessRoundMonitorModel {
                content: ck.0,
                state: out.0,
                count: ck.1,
            })
            &&& (forall|r2: u32|
                r2 != round ==> spec_has_round(final(map)@, r2) == spec_has_round(old(map)@, r2))
            &&& (forall|r2: u32|
                r2 != round && spec_has_round(old(map)@, r2) ==> spec_round_monitor(
                    final(map)@,
                    r2,
                ) == spec_round_monitor(old(map)@, r2))
            &&& (match out.1 {
                Some(b) => step.broadcast_report matches Some(x) && x@ == b,
                None => step.broadcast_report is None,
            })
            &&& (match out.2 {
                Some(b) => step.broadcast_aggregated matches Some(x) && x@ == b,
                None => step.broadcast_aggregated is None,
            })
            &&& (match out.3 {
                Some(w) => step.deliver_witness matches Some(x) && x@ == w,
                None => step.deliver_witness is None,
            })
            &&& (match out.4 {
                Some(w) => step.deliver_aggregated matches Some(x) && x@ == w,
                None => step.deliver_aggregated is None,
            })
        }),
{
    if matches!(&object, ObjectContent::BarycentricReport(_)) {
        return AggregatedWitnessStep {
            fatal: true,
            broadcast_report: None,
            broadcast_aggregated: None,
            deliver_witness: None,
            deliver_aggregated: None,
        };
    }
    let round = object.get_round_number();
    let prot = object.get_protocol_information().clone();
    let mut mon = map.take_round(round);
    let ghost m0 = mon@;
    let ghost ck = spec_awb_insert(m0.content, m0.count, object@, v);
    match object {
        ObjectContent::Message(msg) => {
            if !crate::basic::contains_message(&mon.content.values, &msg) {
                let ghost vals0 = mon@.content.values;
                mon.content.values.push(msg);
                mon.count.values = crate::sat_inc(mon.count.values);
                proof {
                    assert(mon@.content.values =~= vals0.push(msg@));
                }
                if mon.count.values >= v {
                    crate::witness::update_witnesses(thread_id, &mut mon.count, &mut mon.content);
                }
                if mon.count.values >= v {
                    update_aggregated_witnesses(thread_id, &mut mon.count, &mut mon.content);
                }
                proof {
                    assert(mon@.content =~= ck.0);
                    assert(mon.count == ck.1);
                }
            } else {
                proof {
                    assert(mon@.content =~= ck.0);
                }
            }
        },
        ObjectContent::Report(q) => {
            if !crate::witness::contains_report(&mon.content.reports, &q) {
                let ghost reps0 = mon@.content.reports;
                let ghost qm = q@;
                let idx = mon.content.reports.len();
                mon.content.reports.push(q);
                mon.count.reports = crate::sat_inc(mon.count.reports);
                proof {
                    assert(mon@.content.reports =~= reps0.push(qm));
                }
                let mut stored = mon.content.reports[idx].clone();
                let values_copy = crate::basic::clone_messages(&mon.content.values);
                crate::witness::initialize_witnesses(
                    thread_id,
                    &mut stored,
                    &mut mon.content.witnesses,
                    &mut mon.count,
                    values_copy,
                );
                let ghost pre_reports = mon@.content.reports;
                mon.content.reports.set(idx, stored);
                proof {
                    assert(mon@.content.reports =~= pre_reports.update(idx as int, stored@));
                    assert(mon@.content =~= ck.0);
                    assert(mon.count == ck.1);
                }
            } else {
                proof {
                    assert(mon@.content =~= ck.0);
                }
            }
        },
        ObjectContent::AggregatedReport(q) => {
            if !contains_aggregated_report(&mon.content.aggregated_reports, &q) {
                let ghost aggs0 = mon@.content.aggregated_reports;
                let ghost qm = q@;
                let idx = mon.content.aggregated_reports.len();
                mon.content.aggregated_reports.push(q);
                mon.count.aggregated_reports = crate::sat_inc(mon.count.aggregated_reports);
                proof {
                    assert(mon@.content.aggregated_reports =~= aggs0.push(qm));
                }
                let mut stored = mon.content.aggregated_reports[idx].clone();
                let witnesses_copy = crate::witness::clone_reports(&mon.content.witnesses);
                initialize_aggregated_witnesses(
                    thread_id,
                    &mut stored,
                    &mut mon.content.aggregated_witnesses,
                    &mut mon.count,
                    witnesses_copy,
                );
                let ghost pre_aggs = mon@.content.aggregated_reports;
                mon.content.aggregated_reports.set(idx, stored);
                proof {
                    assert(mon@.content.aggregated_reports =~= pre_aggs.update(
                        idx as int,
                        stored@,
                    ));
                    assert(mon@.content =~= ck.0);
                    assert(mon.count == ck.1);
                }
            } else {
                proof {
                    assert(mon@.content =~= ck.0);
                }
            }
        },
        _ => {
            proof {
                assert(false);
            }
        },
    }
    proof {
        assert(mon@.content == ck.0);
        assert(mon.count == ck.1);
        assert(mon.state == m0.state);
    }
    let ghost out = spec_awb_emissions(thread_id, prot@, round, v, ck.0, ck.1, m0.state);
    let mut broadcast_report: Option<Report> = None;
    if mon.count.values >= v && !mon.state.report {
        let rep = Report::new(
            ReportType::Report,
            prot.clone(),
            thread_id,
            crate::basic::clone_messages(&mon.content.values),
            None,
            0,
            round,
        );
        proof {
            assert(rep@ =~= out.1.unwrap());
        }
        broadcast_report = Some(rep);
        mon.state.report = true;
    }
    let mut broadcast_aggregated: Option<AggregatedReport> = None;
    let mut deliver_witness: Option<Report> = None;
    if mon.count.witnesses >= v && !mon.state.witnesses {
        let witness_tag = <String as vstd::string::StringExecFns>::from_str("witness");
        if prot == witness_tag {
            let rep = Report::new(
                ReportType::Witness,
                witness_tag,
                thread_id,
                crate::basic::clone_messages(&mon.content.values),
                None,
                0,
                round,
            );
            proof {
                assert(rep@ =~= out.3.unwrap());
            }
            deliver_witness = Some(rep);
        } else {
            let agg_tag = <String as vstd::string::StringExecFns>::from_str("aggregated witness");
            let rep = AggregatedReport::new(
                ReportType::Report,
                agg_tag,
                thread_id,
                crate::witness::clone_reports(&mon.content.witnesses),
                0,
                round,
            );
            proof {
                assert(rep@ =~= out.2.unwrap());
            }
            broadcast_aggregated = Some(rep);
        }
        mon.state.witnesses = true;
    }
    let mut deliver_aggregated: Option<Report> = None;
    if mon.count.aggregated_witnesses >= v && !mon.state.aggregated_witnesses {
        let agg_tag = <String as vstd::string::StringExecFns>::from_str("aggregated witness");
        let rep = Report::new(
            ReportType::Witness,
            agg_tag,
            thread_id,
            crate::basic::clone_messages(&mon.content.values),
            None,
            0,
            round,
        );
        proof {
            assert(rep@ =~= out.4.unwrap());
        }
        deliver_aggregated = Some(rep);
        mon.state.aggregated_witnesses = true;
    }
    proof {
        assert(mon.state == out.0);
        assert(mon@ =~= (WitnessRoundMonitorModel { content: ck.0, state: out.0, count: ck.1 }));
    }
    map.put_round(round, mon);
    AggregatedWitnessStep {
        fatal: false,
        broadcast_report,
        broadcast_aggregated,
        deliver_witness,
        deliver_aggregated,
    }
}

/// Where a content delivered by the reliable layer goes at the aggregated
/// witness layer.
#[derive(Debug)]
pub enum AggregatedWitnessDelivery {
    /// Enqueue this message onto the observer's own basic queue.
    ToBasic(Message),
    /// The plain-delivery tag carried something other than a message;
    /// nothing is delivered.
    Dropped,
    /// Hand this message to the aggregated witness handler.
    ToHandlerMessage(Message),
    /// Hand this plain report to the aggregated witness handler.
    ToHandlerReport(Report),
    /// Hand this plain aggregated report to the aggregated witness
    /// handler.
    ToHandlerAggregated(AggregatedReport),
    /// An already-promoted report or a barycentric report cannot be
    /// delivered here: the handler must abort.
    Fatal,
}

/// Decide where a content delivered by the aggregated witness layer's
/// reliable handler goes: under the plain-delivery tag a message reaches
/// the observer's own basic queue; under any other tag, messages, plain
/// reports and plain aggregated reports reach the aggregated witness
/// handler; everything else is fatal.
pub fn dispatch_aggregated_delivery(content: ObjectContent) -> (r: AggregatedWitnessDelivery)
    ensures
        ({
            let reliable_tag = spec_content_protocol(content@) == "reliable"@;
            match content@ {
                ObjectContentModel::Message(m) => {
                    if reliable_tag {
                        r matches AggregatedWitnessDelivery::ToBasic(d) && d@ == m
                    } else {
                        r matches AggregatedWitnessDelivery::ToHandlerMessage(d) && d@ == m
                    }
                },
                ObjectContentModel::Report(q) => {
                    if reliable_tag {
                        r matches AggregatedWitnessDelivery::Dropped
                    } else if q.report_type == ReportType::Report {
                        r matches AggregatedWitnessDelivery::ToHandlerReport(d) && d@ == q
                    } else {
                        r matches AggregatedWitnessDelivery::Fatal
                    }
                },
                ObjectContentModel::AggregatedReport(q) => {
                    if reliable_tag {
                        r matches AggregatedWitnessDelivery::Dropped
                    } else if q.report_type == ReportType::Report {
                        r matches AggregatedWitnessDelivery::ToHandlerAggregated(d) && d@ == q
                    } else {
                        r matches AggregatedWitnessDelivery::Fatal
                    }
                },
                ObjectContentModel::BarycentricReport(_) => {
                    if reliable_tag {
                        r matches AggregatedWitnessDelivery::Dropped
                    } else {
                        r matches AggregatedWitnessDelivery::Fatal
                    }
                },
            }
        }),
{
    let tag = <String as vstd::string::StringExecFns>::from_str("reliable");
    let reliable_tag = *content.get_protocol_information() == tag;
    match content {
        ObjectContent::Message(m) => {
            if reliable_tag {
                AggregatedWitnessDelivery::ToBasic(m)
            } else {
                AggregatedWitnessDelivery::ToHandlerMessage(m)
            }
        },
        ObjectContent::Report(q) => {
            if reliable_tag {
                AggregatedWitnessDelivery::Dropped
            } else if matches!(q.report_type, ReportType::Report) {
                AggregatedWitnessDelivery::ToHandlerReport(q)
            } else {
                AggregatedWitnessDelivery::Fatal
            }
        },
        ObjectContent::AggregatedReport(q) => {
            if reliable_tag {
                AggregatedWitnessDelivery::Dropped
            } else if matches!(q.report_type, ReportType::Report) {
                AggregatedWitnessDelivery::ToHandlerAggregated(q)
            } else {
                AggregatedWitnessDelivery::Fatal
            }
        },
        ObjectContent::BarycentricReport(_) => {
            if reliable_tag {
                AggregatedWitnessDelivery::Dropped
            } else {
                AggregatedWitnessDelivery::Fatal
            }
        },
    }
}

/// Aggregated promotion is idempotent: a second pass over
/// already-promoted aggregated reports promotes nothing, and leaves both
/// the aggregated reports and the aggregated witness tally as they were.
pub proof fn lemma_aggregated_promotion_idempotent(
    aggregated: Seq<AggregatedReportModel>,
    witnesses: Seq<ReportModel>,
)
    ensures
        spec_aggregated_pass_promotions(
            spec_aggregated_promote_pass(aggregated, witnesses),
            witnesses,
        ) == Seq::<AggregatedReportModel>::empty(),
        spec_aggregated_promote_pass(
            spec_aggregated_promote_pass(aggregated, witnesses),
            witnesses,
        ) == spec_aggregated_promote_pass(aggregated, witnesses),
    decreases aggregated.len(),
{
    let r1 = spec_aggregated_promote_pass(aggregated, witnesses);
    if aggregated.len() == 0 {
        assert(spec_aggregated_pass_promotions(r1, witnesses) =~= Seq::<
            AggregatedReportModel,
        >::empty());
        assert(spec_aggregated_promote_pass(r1, witnesses) =~= r1);
    } else {
        lemma_aggregated_promotion_idempotent(aggregated.drop_last(), witnesses);
        assert(r1.drop_last() =~= spec_aggregated_promote_pass(aggregated.drop_last(), witnesses));
        assert(!spec_aggregated_promotes(r1.last(), witnesses));
        assert(spec_aggregated_pass_promotions(r1, witnesses) =~= Seq::<
            AggregatedReportModel,
        >::empty());
        assert(spec_aggregated_promote_pass(r1, witnesses) =~= r1);
    }
}


/// Build the Input signal an aggregated witness broadcast starts with:
/// the payload wrapped as a message under the aggregated witness tag, at
/// instance zero of the given round.
pub fn aggregated_witness_input_signal(sender: u32, message: String, round_number: u32) -> (r:
    crate::reliable::Signal)
    ensures
        r@ == (crate::reliable::SignalModel {
            signal: crate::reliable::SignalType::Input,
            content: ObjectContentModel::Message(
                crate::basic::MessageModel {
                    protocol_information: "aggregated witness"@,
                    id: sender,
                    message: message@,
                    dimension: Option::None,
                    instance_number: Option::Some(0),
                    round_number,
                },
            ),
            instance_number: 0,
            round_number,
        }),
{
    let tag = <String as vstd::string::StringExecFns>::from_str("aggregated witness");
    let sent = Message::new(tag, sender, message, None, Some(0), round_number);
    crate::reliable::Signal::new(
        crate::reliable::SignalType::Input,
        ObjectContent::Message(sent),
        0,
        round_number,
    )
}

} // verus!
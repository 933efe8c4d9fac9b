//! Witness broadcast: reports over collected values, their promotion to
//! witnesses, and the per-round bookkeeping of the witness handler.
use vstd::prelude::*;

use crate::aggregated_witness::AggregatedReport;
use crate::aggregated_witness::AggregatedReportModel;
use crate::basic::Message;
use crate::basic::MessageModel;
use crate::basic::message_eq;
use crate::basic::spec_contains_message;
use crate::reliable::ObjectContent;
use crate::reliable::ObjectContentModel;
use crate::reliable::spec_content_protocol;
use crate::reliable::spec_content_round_number;
use crate::spec_sat_add;
use crate::spec_sat_inc;

verus! {

/// Whether a report is still a plain claim or has been justified locally.
#[derive(Debug, Clone, Copy, PartialEq, Eq, Structural)]
pub enum ReportType {
    Report,
    Witness,
}

/// A participant's attested set of observed messages in a round.
#[derive(Debug)]
pub struct Report {
    pub report_type: ReportType,
    pub protocol_information: String,
    pub id: u32,
    pub messages: Vec<Message>,
    pub dimension: Option<u32>,
    pub instance_number: u32,
    pub round_number: u32,
}

/// Abstract value of a `Report`.
#[verifier::ext_equal]
pub struct ReportModel {
    pub report_type: ReportType,
    pub protocol_information: Seq<char>,
    pub id: u32,
    pub messages: Seq<MessageModel>,
    pub dimension: Option<u32>,
    pub instance_number: u32,
    pub round_number: u32,
}

impl View for Report {
    type V = ReportModel;

    open spec fn view(&self) -> ReportModel {
        ReportModel {
            report_type: self.report_type,
            protocol_information: self.protocol_information@,
            id: self.id,
            messages: self.messages@.map_values(|m: Message| m@),
            dimension: self.dimension,
            instance_number: self.instance_number,
            round_number: self.round_number,
        }
    }
}

impl Clone for Report {
    fn clone(&self) -> (r: Self)
        ensures
            r@ == self@,
    {
        let r = Report {
            report_type: self.report_type,
            protocol_information: self.protocol_information.clone(),
            id: self.id,
            messages: crate::basic::clone_messages(&self.messages),
            dimension: self.dimension,
            instance_number: self.instance_number,
            round_number: self.round_number,
        };
        proof {
            assert(r@ =~= self@);
        }
        r
    }
}

impl Report {
    pub fn get_report_type(&self) -> (r: &ReportType)
        ensures
            r == self.report_type,
    {
        &self.report_type
    }

    pub fn get_protocol_information(&self) -> (r: &String)
        ensures
            r == self.protocol_information,
    {
        &self.protocol_information
    }

    pub fn get_id(&self) -> (r: u32)
        ensures
            r == self.id,
    {
        self.id
    }

    pub fn get_messages(&self) -> (r: &Vec<Message>)
        ensures
            r == self.messages,
    {
        &self.messages
    }

    pub fn get_dimension(&self) -> (r: Option<u32>)
        ensures
            r == self.dimension,
    {
        self.dimension
    }

    pub fn get_instance_number(&self) -> (r: u32)
        ensures
            r == self.instance_number,
    {
        self.instance_number
    }

    pub fn get_round_number(&self) -> (r: u32)
        ensures
            r == self.round_number,
    {
        self.round_number
    }

    pub fn new(
        report_type: ReportType,
        protocol_information: String,
        id: u32,
        messages: Vec<Message>,
        dimension: Option<u32>,
        instance_number: u32,
        round_number: u32,
    ) -> (r: Report)
        ensures
            r == (Report {
                report_type,
                protocol_information,
                id,
                messages,
                dimension,
                instance_number,
                round_number,
            }),
    {
        Report {
            report_type,
            protocol_information,
            id,
            messages,
            dimension,
            instance_number,
            round_number,
        }
    }
}

/// Copy a report vector; the copy holds the same report values.
pub fn clone_reports(v: &Vec<Report>) -> (r: Vec<Report>)
    ensures
        r@.map_values(|q: Report| q@) == v@.map_values(|q: Report| q@),
{
    let r = v.clone();
    proof {
        assert(r@.map_values(|q: Report| q@) =~= v@.map_values(|q: Report| q@));
    }
    r
}

/// Equality of two message vectors, element by element.
pub fn vec_message_eq(a: &Vec<Message>, b: &Vec<Message>) -> (r: bool)
    ensures
        r == (a@.map_values(|m: Message| m@) == b@.map_values(|m: Message| m@)),
{
    let ghost am = a@.map_values(|m: Message| m@);
    let ghost bm = b@.map_values(|m: Message| m@);
    if a.len() != b.len() {
        assert(am.len() != bm.len());
        return false;
    }
    let mut i: usize = 0;
    while i < a.len()
        invariant
            0 <= i <= a.len(),
            a.len() == b.len(),
            am == a@.map_values(|m: Message| m@),
            bm == b@.map_values(|m: Message| m@),
            forall|j: int| 0 <= j < i ==> am[j] == bm[j],
        decreases a.len() - i,
    {
        if !message_eq(&a[i], &b[i]) {
            assert(am[i as int] != bm[i as int]);
            return false;
        }
        i += 1;
    }
    proof {
        assert(am =~= bm);
    }
    true
}

/// Equality of two reports, decided field by field.
pub fn report_eq(a: &Report, b: &Report) -> (r: bool)
    ensures
        r == (a@ == b@),
{
    let r = a.report_type == b.report_type && a.protocol_information == b.protocol_information
        && a.id == b.id && vec_message_eq(&a.messages, &b.messages) && a.dimension == b.dimension
        && a.instance_number == b.instance_number && a.round_number == b.round_number;
    proof {
        if r {
            assert(a@ == b@);
        }
    }
    r
}

/// Every message of `sub` occurs in `sup`.
pub open spec fn spec_subset_messages(sub: Seq<MessageModel>, sup: Seq<MessageModel>) -> bool {
    forall|i: int| 0 <= i < sub.len() ==> spec_contains_message(sup, sub[i])
}

/// Is every message of `sub` held by `sup`?
pub fn messages_subset(sub: &Vec<Message>, sup: &Vec<Message>) -> (r: bool)
    ensures
        r == spec_subset_messages(
            sub@.map_values(|m: Message| m@),
            sup@.map_values(|m: Message| m@),
        ),
{
    let ghost subm = sub@.map_values(|m: Message| m@);
    let ghost supm = sup@.map_values(|m: Message| m@);
    let mut i: usize = 0;
    while i < sub.len()
        invariant
            0 <= i <= sub.len(),
            subm == sub@.map_values(|m: Message| m@),
            supm == sup@.map_values(|m: Message| m@),
            forall|j: int| 0 <= j < i ==> spec_contains_message(supm, subm[j]),
        decreases sub.len() - i,
    {
        if !crate::basic::contains_message(sup, &sub[i]) {
            assert(!spec_contains_message(supm, subm[i as int]));
            return false;
        }
        i += 1;
    }
    true
}

/// Does `v` hold a report equal to `q`?
pub open spec fn spec_contains_report(v: Seq<ReportModel>, q: ReportModel) -> bool {
    exists|i: int| 0 <= i < v.len() && v[i] == q
}

/// Linear search for `q` in `v` by `report_eq`.
pub fn contains_report(v: &Vec<Report>, q: &Report) -> (r: bool)
    ensures
        r == spec_contains_report(v@.map_values(|x: Report| x@), q@),
{
    let ghost models = v@.map_values(|x: Report| x@);
    let mut i: usize = 0;
    while i < v.len()
        invariant
            0 <= i <= v.len(),
            models == v@.map_values(|x: Report| x@),
            forall|j: int| 0 <= j < i ==> models[j] != q@,
        decreases v.len() - i,
    {
        if report_eq(&v[i], q) {
            assert(models[i as int] == q@);
            return true;
        }
        i += 1;
    }
    false
}

/// The same report with its kind raised to `Witness`.
pub open spec fn spec_flip_witness(q: ReportModel) -> ReportModel {
    ReportModel { report_type: ReportType::Witness, ..q }
}

/// Does the promotion rule fire for `q` against `values`? Only a plain
/// report whose messages are all locally observed is promoted.
pub open spec fn spec_promotes(q: ReportModel, values: Seq<MessageModel>) -> bool {
    q.report_type == ReportType::Report && spec_subset_messages(q.messages, values)
}

/// One pass of the promotion rule over every report: each plain, justified
/// report is raised to a witness; the rest stay as they are.
pub open spec fn spec_promote_pass(
    reports: Seq<ReportModel>,
    values: Seq<MessageModel>,
) -> Seq<ReportModel> {
    reports.map_values(
        |q: ReportModel|
            if spec_promotes(q, values) {
                spec_flip_witness(q)
            } else {
                q
            },
    )
}

/// The witnesses one promotion pass gains, in report order.
pub open spec fn spec_pass_promotions(
    reports: Seq<ReportModel>,
    values: Seq<MessageModel>,
) -> Seq<ReportModel>
    decreases reports.len(),
{
    if reports.len() == 0 {
        Seq::empty()
    } else {
        let rest = spec_pass_promotions(reports.drop_last(), values);
        if spec_promotes(reports.last(), values) {
            rest.push(spec_flip_witness(reports.last()))
        } else {
            rest
        }
    }
}

/// Check one report against the observed values and, if every one of its
/// messages is observed, raise it to a witness, record it, and count it.
pub fn initialize_witnesses(
    _thread_id: u32,
    report: &mut Report,
    witnesses: &mut Vec<Report>,
    count: &mut WitnessRoundCount,
    values: Vec<Message>,
)
    ensures
        ({
            let justified = spec_subset_messages(
                old(report)@.messages,
                values@.map_values(|m: Message| m@),
            );
            &&& justified ==> {
                &&& final(report)@ == spec_flip_witness(old(report)@)
                &&& final(witnesses)@.map_values(|q: Report| q@) == old(witnesses)@.map_values(
                    |q: Report| q@,
                ).push(spec_flip_witness(old(report)@))
                &&& *final(count) == (WitnessRoundCount {
                    witnesses: crate::spec_sat_inc(old(count).witnesses),
                    ..*old(count)
                })
            }
            &&& !justified ==> {
                &&& final(report)@ == old(report)@
                &&& final(witnesses)@.map_values(|q: Report| q@) == old(witnesses)@.map_values(
                    |q: Report| q@,
                )
                &&& *final(count) == *old(count)
            }
        }),
{
    if messages_subset(&report.messages, &values) {
        report.report_type = ReportType::Witness;
        let copy = report.clone();
        witnesses.push(copy);
        count.witnesses = crate::sat_inc(count.witnesses);
        proof {
            assert(final(report)@ =~= spec_flip_witness(old(report)@));
            assert(final(witnesses)@.map_values(|q: Report| q@) =~= old(witnesses)@.map_values(
                |q: Report| q@,
            ).push(spec_flip_witness(old(report)@)));
        }
    }
}

/// Apply the promotion rule to every plain report of the round: each one
/// whose messages are all observed becomes a witness. Reports already
/// promoted are left alone, so re-running the pass changes nothing.
pub fn update_witnesses(thread_id: u32, count: &mut WitnessRoundCount, content: &mut WitnessRoundContent)
    ensures
        ({
            let values = old(content)@.values;
            let promotions = spec_pass_promotions(old(content)@.reports, values);
            &&& final(content)@.values == old(content)@.values
            &&& final(content)@.reports == spec_promote_pass(old(content)@.reports, values)
            &&& final(content)@.witnesses == old(content)@.witnesses + promotions
            &&& final(content)@.aggregated_reports == old(content)@.aggregated_reports
            &&& final(content)@.aggregated_witnesses == old(content)@.aggregated_witnesses
            &&& final(content)@.dimension == old(content)@.dimension
            &&& final(content)@.instance_number == old(content)@.instance_number
            &&& *final(count) == (WitnessRoundCount {
                witnesses: crate::spec_sat_add(old(count).witnesses, promotions.len()),
                ..*old(count)
            })
        }),
{
    let ghost values = old(content)@.values;
    let ghost reports0 = old(content)@.reports;
    let mut i: usize = 0;
    while i < content.reports.len()
        invariant
            0 <= i <= content.reports.len(),
            values == content@.values,
            content@.reports.len() == reports0.len(),
            content.values@.map_values(|m: Message| m@) == values,
            forall|j: int|
                0 <= j < i ==> content@.reports[j] == spec_promote_pass(reports0, values)[j],
            forall|j: int| i <= j < reports0.len() ==> content@.reports[j] == reports0[j],
            content@.witnesses == old(content)@.witnesses + spec_pass_promotions(
                reports0.take(i as int),
                values,
            ),
            content@.aggregated_reports == old(content)@.aggregated_reports,
            content@.aggregated_witnesses == old(content)@.aggregated_witnesses,
            content@.dimension == old(content)@.dimension,
            content@.instance_number == old(content)@.instance_number,
            *count == (WitnessRoundCount {
                witnesses: crate::spec_sat_add(
                    old(count).witnesses,
                    spec_pass_promotions(reports0.take(i as int), values).len(),
                ),
                ..*old(count)
            }),
        decreases content.reports.len() - i,
    {
        let ghost pre = *count;
        let ghost promos_before = spec_pass_promotions(reports0.take(i as int), values);
        let mut q = content.reports[i].clone();
        proof {
            assert(q@ == reports0[i as int]);
            assert(reports0.take(i as int + 1).drop_last() =~= reports0.take(i as int));
            assert(reports0.take(i as int + 1).last() == reports0[i as int]);
        }
        if matches!(q.report_type, ReportType::Report) {
            let values_copy = crate::basic::clone_messages(&content.values);
            initialize_witnesses(thread_id, &mut q, &mut content.witnesses, count, values_copy);
            proof {
                if spec_promotes(reports0[i as int], values) {
                    crate::lemma_sat_add_step(old(count).witnesses, promos_before.len());
                }
            }
        }
        content.reports.set(i, q);
        i += 1;
    }
    proof {
        assert(reports0.take(reports0.len() as int) =~= reports0);
        assert(content@.reports =~= spec_promote_pass(reports0, values));
    }
}

/// Milestones of one witness round at one observer.
#[derive(Debug, Clone, Copy, PartialEq, Eq, Structural)]
pub struct WitnessRoundState {
    pub report: bool,
    pub witnesses: bool,
    pub aggregated_witnesses: bool,
}

impl WitnessRoundState {
    pub fn new() -> (r: WitnessRoundState)
        ensures
            r == (WitnessRoundState { report: false, witnesses: false, aggregated_witnesses: false }),
    {
        WitnessRoundState { report: false, witnesses: false, aggregated_witnesses: false }
    }
}

/// Tallies of one witness round at one observer.
#[derive(Debug, Clone, Copy, PartialEq, Eq, Structural)]
pub struct WitnessRoundCount {
    pub values: u32,
    pub reports: u32,
    pub witnesses: u32,
    pub aggregated_reports: u32,
    pub aggregated_witnesses: u32,
}

impl WitnessRoundCount {
    pub fn new() -> (r: WitnessRoundCount)
        ensures
            r == (WitnessRoundCount {
                values: 0,
                reports: 0,
                witnesses: 0,
                aggregated_reports: 0,
                aggregated_witnesses: 0,
            }),
    {
        WitnessRoundCount {
            values: 0,
            reports: 0,
            witnesses: 0,
            aggregated_reports: 0,
            aggregated_witnesses: 0,
        }
    }
}

/// Everything one witness round has collected at one observer.
#[derive(Debug)]
pub struct WitnessRoundContent {
    pub values: Vec<Message>,
    pub reports: Vec<Report>,
    pub witnesses: Vec<Report>,
    pub aggregated_reports: Vec<AggregatedReport>,
    pub aggregated_witnesses: Vec<AggregatedReport>,
    pub dimension: Option<u32>,
    pub instance_number: u32,
}

/// Abstract value of a `WitnessRoundContent`.
#[verifier::ext_equal]
pub struct WitnessRoundContentModel {
    pub values: Seq<MessageModel>,
    pub reports: Seq<ReportModel>,
    pub witnesses: Seq<ReportModel>,
    pub aggregated_reports: Seq<AggregatedReportModel>,
    pub aggregated_witnesses: Seq<AggregatedReportModel>,
    pub dimension: Option<u32>,
    pub instance_number: u32,
}

impl View for WitnessRoundContent {
    type V = WitnessRoundContentModel;

    open spec fn view(&self) -> WitnessRoundContentModel {
        WitnessRoundContentModel {
            values: self.values@.map_values(|m: Message| m@),
            reports: self.reports@.map_values(|q: Report| q@),
            witnesses: self.witnesses@.map_values(|q: Report| q@),
            aggregated_reports: self.aggregated_reports@.map_values(|q: AggregatedReport| q@),
            aggregated_witnesses: self.aggregated_witnesses@.map_values(|q: AggregatedReport| q@),
            dimension: self.dimension,
            instance_number: self.instance_number,
        }
    }
}

impl WitnessRoundContent {
    pub fn new() -> (r: WitnessRoundContent)
        ensures
            r@.values.len() == 0,
            r@.reports.len() == 0,
            r@.witnesses.len() == 0,
            r@.aggregated_reports.len() == 0,
            r@.aggregated_witnesses.len() == 0,
            r@.dimension is None,
            r@.instance_number == 0,
    {
        WitnessRoundContent {
            values: Vec::new(),
            reports: Vec::new(),
            witnesses: Vec::new(),
            aggregated_reports: Vec::new(),
            aggregated_witnesses: Vec::new(),
            dimension: None,
            instance_number: 0,
        }
    }
}

/// The full per-round record: content, milestones and tallies.
#[derive(Debug)]
pub struct WitnessRoundMonitor {
    pub content: WitnessRoundContent,
    pub state: WitnessRoundState,
    pub count: WitnessRoundCount,
}

/// Abstract value of a `WitnessRoundMonitor`.
#[verifier::ext_equal]
pub struct WitnessRoundMonitorModel {
    pub content: WitnessRoundContentModel,
    pub state: WitnessRoundState,
    pub count: WitnessRoundCount,
}

impl View for WitnessRoundMonitor {
    type V = WitnessRoundMonitorModel;

    open spec fn view(&self) -> WitnessRoundMonitorModel {
        WitnessRoundMonitorModel { content: self.content@, state: self.state, count: self.count }
    }
}

/// The value of a witness round monitor before anything was observed.
pub open spec fn spec_fresh_witness_monitor() -> WitnessRoundMonitorModel {
    WitnessRoundMonitorModel {
        content: WitnessRoundContentModel {
            values: Seq::empty(),
            reports: Seq::empty(),
            witnesses: Seq::empty(),
            aggregated_reports: Seq::empty(),
            aggregated_witnesses: Seq::empty(),
            dimension: Option::None,
            instance_number: 0,
        },
        state: WitnessRoundState { report: false, witnesses: false, aggregated_witnesses: false },
        count: WitnessRoundCount {
            values: 0,
            reports: 0,
            witnesses: 0,
            aggregated_reports: 0,
            aggregated_witnesses: 0,
        },
    }
}

impl WitnessRoundMonitor {
    pub fn new() -> (r: WitnessRoundMonitor)
        ensures
            r@ == spec_fresh_witness_monitor(),
    {
        let r = WitnessRoundMonitor {
            content: WitnessRoundContent::new(),
            state: WitnessRoundState::new(),
            count: WitnessRoundCount::new(),
        };
        proof {
            assert(r@.content.values =~= spec_fresh_witness_monitor().content.values);
            assert(r@.content.reports =~= spec_fresh_witness_monitor().content.reports);
            assert(r@.content.witnesses =~= spec_fresh_witness_monitor().content.witnesses);
            assert(r@.content.aggregated_reports =~= spec_fresh_witness_monitor().content.aggregated_reports);
            assert(r@.content.aggregated_witnesses =~= spec_fresh_witness_monitor().content.aggregated_witnesses);
        }
        r
    }
}

/// Content that does not belong on the witness handler: aggregated or
/// barycentric reports abort it.
pub open spec fn spec_witness_object_fatal(c: ObjectContentModel) -> bool {
    match c {
        ObjectContentModel::Message(_) => false,
        ObjectContentModel::Report(_) => false,
        ObjectContentModel::AggregatedReport(_) => true,
        ObjectContentModel::BarycentricReport(_) => true,
    }
}

/// What recording one delivered object does to a round's content and
/// tallies, with validity threshold `v`: a fresh message is appended and,
/// at `v` values or more, every plain report is re-checked for
/// promotion; a fresh report is appended and checked for promotion at
/// once; duplicates change nothing.
pub open spec fn spec_wb_insert(
    c: WitnessRoundContentModel,
    k: WitnessRoundCount,
    obj: ObjectContentModel,
    v: u32,
) -> (WitnessRoundContentModel, WitnessRoundCount) {
    match obj {
        ObjectContentModel::Message(m) => {
            if spec_contains_message(c.values, m) {
                (c, k)
            } else {
                let c1 = WitnessRoundContentModel { values: c.values.push(m), ..c };
                let k1 = WitnessRoundCount { values: spec_sat_inc(k.values), ..k };
                if k1.values >= v {
                    let promos = spec_pass_promotions(c1.reports, c1.values);
                    (
                        WitnessRoundContentModel {
                            reports: spec_promote_pass(c1.reports, c1.values),
                            witnesses: c1.witnesses + promos,
                            ..c1
                        },
                        WitnessRoundCount {
                            witnesses: spec_sat_add(k1.witnesses, promos.len()),
                            ..k1
                        },
                    )
                } else {
                    (c1, k1)
                }
            }
        },
        ObjectContentModel::Report(q) => {
            if spec_contains_report(c.reports, q) {
                (c, k)
            } else {
                let c1 = WitnessRoundContentModel { reports: c.reports.push(q), ..c };
                let k1 = WitnessRoundCount { reports: spec_sat_inc(k.reports), ..k };
                if spec_subset_messages(q.messages, c1.values) {
                    (
                        WitnessRoundContentModel {
                            reports: c1.reports.update(
                                c1.reports.len() - 1,
                                spec_flip_witness(q),
                            ),
                            witnesses: c1.witnesses.push(spec_flip_witness(q)),
                            ..c1
                        },
                        WitnessRoundCount { witnesses: spec_sat_inc(k1.witnesses), ..k1 },
                    )
                } else {
                    (c1, k1)
                }
            }
        },
        _ => (c, k),
    }
}

/// What the witness handler emits after recording an object: its own
/// report once `v` values are held, and its terminal witness report once
/// `v` witnesses are held, each at most once per round.
pub open spec fn spec_wb_emissions(
    observer: u32,
    prot: Seq<char>,
    round: u32,
    v: u32,
    c: WitnessRoundContentModel,
    k: WitnessRoundCount,
    s: WitnessRoundState,
) -> (WitnessRoundState, Option<ReportModel>, Option<ReportModel>) {
    let fire_report = k.values >= v && !s.report;
    let s1 = WitnessRoundState { report: s.report || fire_report, ..s };
    let br = if fire_report {
        Option::Some(
            ReportModel {
                report_type: ReportType::Report,
                protocol_information: prot,
                id: observer,
                messages: c.values,
                dimension: Option::None,
                instance_number: 0,
                round_number: round,
            },
        )
    } else {
        Option::None
    };
    let fire_witness = k.witnesses >= v && !s1.witnesses;
    let s2 = WitnessRoundState { witnesses: s1.witnesses || fire_witness, ..s1 };
    let tw = if fire_witness {
        Option::Some(
            ReportModel {
                report_type: ReportType::Witness,
                protocol_information: "witness"@,
                id: observer,
                messages: c.values,
                dimension: Option::None,
                instance_number: 0,
                round_number: round,
            },
        )
    } else {
        Option::None
    };
    (s2, br, tw)
}

/// The outcome of handing one object to the witness handler.
#[derive(Debug)]
pub struct WitnessStep {
    /// The object kind cannot appear on this handler: the handler must
    /// abort.
    pub fatal: bool,
    /// The observer's own report of the round, to be broadcast reliably.
    pub broadcast_report: Option<Report>,
    /// The observer's terminal witness report, to be enqueued onto its own
    /// basic queue.
    pub deliver_witness: Option<Report>,
}

/// Where a content delivered by the reliable layer goes at the witness
/// layer.
#[derive(Debug)]
pub enum WitnessDelivery {
    /// Enqueue this message onto the observer's own basic queue.
    ToBasic(Message),
    /// The plain-delivery tag carried something other than a message;
    /// nothing is delivered.
    Dropped,
    /// Hand this message to the witness handler.
    ToHandlerMessage(Message),
    /// Hand this plain report to the witness handler.
    ToHandlerReport(Report),
    /// An already-promoted report, an aggregated report or a barycentric
    /// report cannot be delivered here: the handler must abort.
    Fatal,
}

/// Decide where a content delivered by the witness layer's reliable
/// handler goes: under the plain-delivery tag a message reaches the
/// observer's own basic queue; under any other tag, messages and plain
/// reports reach the witness handler; everything else is fatal.
pub fn dispatch_witness_delivery(content: ObjectContent) -> (r: WitnessDelivery)
    ensures
        ({
            let reliable_tag = spec_content_protocol(content@) == "reliable"@;
            match content@ {
                ObjectContentModel::Message(m) => {
                    if reliable_tag {
                        r matches WitnessDelivery::ToBasic(d) && d@ == m
                    } else {
                        r matches WitnessDelivery::ToHandlerMessage(d) && d@ == m
                    }
                },
                ObjectContentModel::Report(q) => {
                    if reliable_tag {
                        r matches WitnessDelivery::Dropped
                    } else if q.report_type == ReportType::Report {
                        r matches WitnessDelivery::ToHandlerReport(d) && d@ == q
                    } else {
                        r matches WitnessDelivery::Fatal
                    }
                },
                _ => {
                    if reliable_tag {
                        r matches WitnessDelivery::Dropped
                    } else {
                        r matches WitnessDelivery::Fatal
                    }
                },
            }
        }),
{
    let tag = <String as vstd::string::StringExecFns>::from_str("reliable");
    let reliable_tag = *content.get_protocol_information() == tag;
    match content {
        ObjectContent::Message(m) => {
            if reliable_tag {
                WitnessDelivery::ToBasic(m)
            } else {
                WitnessDelivery::ToHandlerMessage(m)
            }
        },
        ObjectContent::Report(q) => {
            if reliable_tag {
                WitnessDelivery::Dropped
            } else if matches!(q.report_type, ReportType::Report) {
                WitnessDelivery::ToHandlerReport(q)
            } else {
                WitnessDelivery::Fatal
            }
        },
        _ => {
            if reliable_tag {
                WitnessDelivery::Dropped
            } else {
                WitnessDelivery::Fatal
            }
        },
    }
}

/// A message set stays inside a value set that only grows.
pub proof fn lemma_subset_push(s: Seq<MessageModel>, values: Seq<MessageModel>, m: MessageModel)
    requires
        spec_subset_messages(s, values),
    ensures
        spec_subset_messages(s, values.push(m)),
{
    assert forall|i: int| 0 <= i < s.len() implies spec_contains_message(values.push(m), s[i]) by {
        assert(spec_contains_message(values, s[i]));
        let j = choose|j: int| 0 <= j < values.len() && values[j] == s[i];
        assert(values.push(m)[j] == s[i]);
    }
}

/// Every witness a promotion pass gains is justified by the values the
/// pass ran against.
pub proof fn lemma_promotions_justified(reports: Seq<ReportModel>, values: Seq<MessageModel>)
    ensures
        forall|i: int|
            0 <= i < spec_pass_promotions(reports, values).len() ==> spec_subset_messages(
                #[trigger] spec_pass_promotions(reports, values)[i].messages,
                values,
            ),
    decreases reports.len(),
{
    if reports.len() > 0 {
        lemma_promotions_justified(reports.drop_last(), values);
    }
}

/// Every recorded witness of a round is justified: each of its messages
/// is among the round's observed values.
pub open spec fn spec_witnesses_justified(c: WitnessRoundContentModel) -> bool {
    forall|i: int|
        0 <= i < c.witnesses.len() ==> spec_subset_messages(
            #[trigger] c.witnesses[i].messages,
            c.values,
        )
}

/// Recording an object keeps every witness justified: values only grow,
/// and a report is promoted only when all its messages are observed. So
/// whenever the handler emits its terminal witness report, every report
/// that contributed to the witness tally has its contents observed
/// locally.
pub proof fn lemma_wb_insert_keeps_justification(
    c: WitnessRoundContentModel,
    k: WitnessRoundCount,
    obj: ObjectContentModel,
    v: u32,
)
    requires
        spec_witnesses_justified(c),
    ensures
        spec_witnesses_justified(spec_wb_insert(c, k, obj, v).0),
{
    let c2 = spec_wb_insert(c, k, obj, v).0;
    match obj {
        ObjectContentModel::Message(m) => {
            if !spec_contains_message(c.values, m) {
                let values1 = c.values.push(m);
                assert forall|i: int| 0 <= i < c.witnesses.len() implies spec_subset_messages(
                    #[trigger] c.witnesses[i].messages,
                    values1,
                ) by {
                    lemma_subset_push(c.witnesses[i].messages, c.values, m);
                }
                let k1 = WitnessRoundCount { values: spec_sat_inc(k.values), ..k };
                if k1.values >= v {
                    lemma_promotions_justified(c.reports, values1);
                    let promos = spec_pass_promotions(c.reports, values1);
                    assert forall|i: int| 0 <= i < c2.witnesses.len() implies spec_subset_messages(
                        #[trigger] c2.witnesses[i].messages,
                        c2.values,
                    ) by {
                        if i < c.witnesses.len() {
                            assert(c2.witnesses[i] == c.witnesses[i]);
                        } else {
                            assert(c2.witnesses[i] == promos[i - c.witnesses.len()]);
                        }
                    }
                }
            }
        },
        ObjectContentModel::Report(q) => {
            if !spec_contains_report(c.reports, q) {
                if spec_subset_messages(q.messages, c.values) {
                    assert forall|i: int| 0 <= i < c2.witnesses.len() implies spec_subset_messages(
                        #[trigger] c2.witnesses[i].messages,
                        c2.values,
                    ) by {
                        if i < c.witnesses.len() {
                            assert(c2.witnesses[i] == c.witnesses[i]);
                        } else {
                            assert(c2.witnesses[i] == spec_flip_witness(q));
                        }
                    }
                }
            }
        },
        _ => {},
    }
}

/// Promotion is idempotent: a second pass over already-promoted reports
/// promotes nothing, and leaves both the reports and the witness tally as
/// they were.
pub proof fn lemma_promotion_idempotent(reports: Seq<ReportModel>, values: Seq<MessageModel>)
    ensures
        spec_pass_promotions(spec_promote_pass(reports, values), values) == Seq::<
            ReportModel,
        >::empty(),
        spec_promote_pass(spec_promote_pass(reports, values), values) == spec_promote_pass(
            reports,
            values,
        ),
    decreases reports.len(),
{
    let r1 = spec_promote_pass(reports, values);
    if reports.len() == 0 {
        assert(r1.len() == 0);
        assert(spec_pass_promotions(r1, values) =~= Seq::<ReportModel>::empty());
        assert(spec_promote_pass(r1, values) =~= r1);
    } else {
        lemma_promotion_idempotent(reports.drop_last(), values);
        assert(r1.drop_last() =~= spec_promote_pass(reports.drop_last(), values));
        assert(!spec_promotes(r1.last(), values));
        assert(spec_pass_promotions(r1, values) =~= Seq::<ReportModel>::empty());
        assert(spec_promote_pass(r1, values) =~= r1);
    }
}

/// Is some round entry keyed `r`?
pub open spec fn spec_has_round(s: Seq<(u32, WitnessRoundMonitorModel)>, r: u32) -> bool {
    exists|i: int| 0 <= i < s.len() && s[i].0 == r
}

/// The index of the entry for round `r`.
pub open spec fn spec_round_index(s: Seq<(u32, WitnessRoundMonitorModel)>, r: u32) -> int {
    choose|i: int| 0 <= i < s.len() && s[i].0 == r
}

/// The monitor stored for round `r`.
pub open spec fn spec_round_monitor(
    s: Seq<(u32, WitnessRoundMonitorModel)>,
    r: u32,
) -> WitnessRoundMonitorModel {
    s[spec_round_index(s, r)].1
}

/// No two entries track the same round.
pub open spec fn spec_unique_rounds(s: Seq<(u32, WitnessRoundMonitorModel)>) -> bool {
    forall|i: int, j: int| 0 <= i < j < s.len() ==> s[i].0 != s[j].0
}

/// All round monitors of one observer's witness handler, keyed by round.
pub struct WitnessMonitorMap {
    pub entries: Vec<(u32, WitnessRoundMonitor)>,
}

impl View for WitnessMonitorMap {
    type V = Seq<(u32, WitnessRoundMonitorModel)>;

    open spec fn view(&self) -> Seq<(u32, WitnessRoundMonitorModel)> {
        self.entries@.map_values(|p: (u32, WitnessRoundMonitor)| (p.0, p.1@))
    }
}

/// Taking an entry out leaves every other round's presence and monitor
/// unchanged, and keeps rounds unique.
proof fn lemma_round_remove_keeps_others(s: Seq<(u32, WitnessRoundMonitorModel)>, i: int)
    requires
        spec_unique_rounds(s),
        0 <= i < s.len(),
    ensures
        spec_unique_rounds(s.remove(i)),
        !spec_has_round(s.remove(i), s[i].0),
        forall|r2: u32|
            r2 != s[i].0 ==> spec_has_round(s.remove(i), r2) == spec_has_round(s, r2),
        forall|r2: u32|
            r2 != s[i].0 && spec_has_round(s, r2) ==> spec_round_monitor(s.remove(i), r2)
                == spec_round_monitor(s, r2),
{
    let t = s.remove(i);
    assert(forall|j: int| 0 <= j < i ==> t[j] == s[j]);
    assert(forall|j: int| i <= j < t.len() ==> t[j] == s[j + 1]);
    assert forall|j: int| 0 <= j < t.len() implies t[j].0 != s[i].0 by {
        if j < i {
            assert(s[j].0 != s[i].0);
        } else {
            assert(s[j + 1].0 != s[i].0);
        }
    }
    assert forall|r2: u32| r2 != s[i].0 implies spec_has_round(t, r2) == spec_has_round(s, r2) by {
        if spec_has_round(s, r2) {
            let j = spec_round_index(s, r2);
            if j < i {
                assert(t[j] == s[j]);
            } else {
                assert(j > i);
                assert(t[j - 1] == s[j]);
            }
            assert(spec_has_round(t, r2));
        }
        if spec_has_round(t, r2) {
            let j = spec_round_index(t, r2);
            if j < i {
                assert(s[j] == t[j]);
            } else {
                assert(s[j + 1] == t[j]);
            }
            assert(spec_has_round(s, r2));
        }
    }
    assert forall|r2: u32| r2 != s[i].0 && spec_has_round(s, r2) implies spec_round_monitor(t, r2)
        == spec_round_monitor(s, r2) by {
        let j = spec_round_index(s, r2);
        assert(0 <= j < s.len() && s[j].0 == r2);
        let j3 = spec_round_index(t, r2);
        assert(0 <= j3 < t.len() && t[j3].0 == r2);
        let j3s = if j3 < i {
            j3
        } else {
            j3 + 1
        };
        assert(t[j3] == s[j3s]);
        assert(j3s == j);
    }
}

/// Registering a fresh round leaves every other round's presence and
/// monitor unchanged, and keeps rounds unique.
proof fn lemma_round_push_keeps_others(
    s: Seq<(u32, WitnessRoundMonitorModel)>,
    r: u32,
    m: WitnessRoundMonitorModel,
)
    requires
        spec_unique_rounds(s),
        !spec_has_round(s, r),
    ensures
        spec_unique_rounds(s.push((r, m))),
        spec_has_round(s.push((r, m)), r),
        spec_round_monitor(s.push((r, m)), r) == m,
        forall|r2: u32| r2 != r ==> spec_has_round(s.push((r, m)), r2) == spec_has_round(s, r2),
        forall|r2: u32|
            r2 != r && spec_has_round(s, r2) ==> spec_round_monitor(s.push((r, m)), r2)
                == spec_round_monitor(s, r2),
{
    let t = s.push((r, m));
    assert(t[s.len() as int] == (r, m));
    assert(forall|i: int| 0 <= i < s.len() ==> t[i] == s[i]);
    assert forall|i: int, j: int| 0 <= i < j < t.len() implies t[i].0 != t[j].0 by {
        if j < s.len() {
            assert(s[i].0 != s[j].0);
        } else {
            assert(t[j].0 == r);
            assert(!(exists|i2: int| 0 <= i2 < s.len() && s[i2].0 == r));
        }
    }
    assert(spec_has_round(t, r));
    let j = spec_round_index(t, r);
    assert(0 <= j < t.len() && t[j].0 == r);
    if j != s.len() as int {
        assert(s[j].0 == r);
        assert(spec_has_round(s, r));
    }
    assert forall|r2: u32| r2 != r implies spec_has_round(t, r2) == spec_has_round(s, r2) by {
        if spec_has_round(s, r2) {
            let j2 = spec_round_index(s, r2);
            assert(t[j2] == s[j2]);
            assert(spec_has_round(t, r2));
        }
        if spec_has_round(t, r2) {
            let j2 = spec_round_index(t, r2);
            assert(j2 != s.len() as int);
            assert(s[j2] == t[j2]);
            assert(spec_has_round(s, r2));
        }
    }
    assert forall|r2: u32| r2 != r && spec_has_round(s, r2) implies spec_round_monitor(t, r2)
        == spec_round_monitor(s, r2) by {
        let j2 = spec_round_index(s, r2);
        assert(0 <= j2 < s.len() && s[j2].0 == r2);
        let j3 = spec_round_index(t, r2);
        assert(0 <= j3 < t.len() && t[j3].0 == r2);
        assert(j3 != s.len() as int);
        assert(t[j3] == s[j3]);
        assert(j3 == j2);
    }
}

impl WitnessMonitorMap {
    /// Well-formed: round keys are unique.
    pub open spec fn wf(&self) -> bool {
        spec_unique_rounds(self@)
    }

    pub fn new() -> (r: WitnessMonitorMap)
        ensures
            r@ == Seq::<(u32, WitnessRoundMonitorModel)>::empty(),
            r.wf(),
    {
        let r = WitnessMonitorMap { entries: Vec::new() };
        proof {
            assert(r@ =~= Seq::<(u32, WitnessRoundMonitorModel)>::empty());
        }
        r
    }

    /// The monitor recorded for `round`, if the round was ever observed.
    pub fn get_round(&self, round: u32) -> (r: Option<&WitnessRoundMonitor>)
        requires
            self.wf(),
        ensures
            match r {
                Some(m) => spec_has_round(self@, round) && m@ == spec_round_monitor(self@, round),
                None => !spec_has_round(self@, round),
            },
    {
        let mut i: usize = 0;
        while i < self.entries.len()
            invariant
                0 <= i <= self.entries.len(),
                spec_unique_rounds(self@),
                self@.len() == self.entries.len(),
                forall|j: int| 0 <= j < i ==> self@[j].0 != round,
                forall|j: int|
                    0 <= j < self@.len() ==> self@[j] == (self.entries@[j].0, self.entries@[j].1@),
            decreases self.entries.len() - i,
        {
            if self.entries[i].0 == round {
                proof {
                    let j = spec_round_index(self@, round);
                    assert(self@[i as int].0 == round);
                    assert(0 <= j < self@.len() && self@[j].0 == round);
                    assert(j == i as int);
                }
                return Some(&self.entries[i].1);
            }
            i += 1;
        }
        None
    }

    /// Take the monitor of `round` out of the map, creating a fresh one if
    /// the round was never observed.
    pub(crate) fn take_round(&mut self, round: u32) -> (m: WitnessRoundMonitor)
        requires
            old(self).wf(),
        ensures
            final(self).wf(),
            !spec_has_round(final(self)@, round),
            m@ == if spec_has_round(old(self)@, round) {
                spec_round_monitor(old(self)@, round)
            } else {
                spec_fresh_witness_monitor()
            },
            forall|r2: u32|
                r2 != round ==> spec_has_round(final(self)@, r2) == spec_has_round(old(self)@, r2),
            forall|r2: u32|
                r2 != round && spec_has_round(old(self)@, r2) ==> spec_round_monitor(
                    final(self)@,
                    r2,
                ) == spec_round_monitor(old(self)@, r2),
    {
        let mut i: usize = 0;
        while i < self.entries.len()
            invariant
                0 <= i <= self.entries.len(),
                self@ == old(self)@,
                spec_unique_rounds(self@),
                self@.len() == self.entries.len(),
                forall|j: int| 0 <= j < i ==> self@[j].0 != round,
                forall|j: int|
                    0 <= j < self@.len() ==> self@[j] == (self.entries@[j].0, self.entries@[j].1@),
            decreases self.entries.len() - i,
        {
            if self.entries[i].0 == round {
                let ghost pre = self@;
                proof {
                    let j = spec_round_index(pre, round);
                    assert(pre[i as int].0 == round);
                    assert(0 <= j < pre.len() && pre[j].0 == round);
                    assert(j == i as int);
                    lemma_round_remove_keeps_others(pre, i as int);
                }
                let entry = self.entries.remove(i);
                proof {
                    assert(self@ =~= pre.remove(i as int));
                }
                return entry.1;
            }
            i += 1;
        }
        assert(!spec_has_round(self@, round));
        WitnessRoundMonitor::new()
    }

    /// Feed one delivered object to the witness handler of `thread_id`,
    /// with validity threshold `v`.
    ///
    /// A new message is recorded and, once `v` values or more are held,
    /// every plain report is re-checked for promotion. A new report is
    /// recorded and immediately checked for promotion. Afterwards, the
    /// handler broadcasts its own report once `v` values are held, and
    /// emits its terminal witness report once `v` witnesses are held, each
    /// at most once per round. Aggregated and barycentric content does not
    /// belong on this handler and is fatal.
    pub fn handle_object(&mut self, thread_id: u32, v: u32, object: ObjectContent) -> (step:
        WitnessStep)
        requires
            old(self).wf(),
        ensures
            final(self).wf(),
            step.fatal == spec_witness_object_fatal(object@),
            step.fatal ==> final(self)@ == old(self)@ && step.broadcast_report is None
                && step.deliver_witness is None,
            !step.fatal ==> ({
                let round = spec_content_round_number(object@);
                let prot = spec_content_protocol(object@);
                let m0 = if spec_has_round(old(self)@, round) {
                    spec_round_monitor(old(self)@, round)
                } else {
                    spec_fresh_witness_monitor()
                };
                let ck = spec_wb_insert(m0.content, m0.count, object@, v);
                let out = spec_wb_emissions(thread_id, prot, round, v, ck.0, ck.1, m0.state);
                &&& spec_has_round(final(self)@, round)
                &&& spec_round_monitor(final(self)@, round) == (WitnessRoundMonitorModel {
                    content: ck.0,
                    state: out.0,
                    count: ck.1,
                })
                &&& (forall|r2: u32|
                    r2 != round ==> spec_has_round(final(self)@, r2) == spec_has_round(
                        old(self)@,
                        r2,
                    ))
                &&& (forall|r2: u32|
                    r2 != round && spec_has_round(old(self)@, r2) ==> spec_round_monitor(
                        final(self)@,
                        r2,
                    ) == spec_round_monitor(old(self)@, r2))
                &&& (match out.1 {
                    Some(b) => step.broadcast_report matches Some(x) && x@ == b,
                    None => step.broadcast_report is None,
                })
                &&& (match out.2 {
                    Some(w) => step.deliver_witness matches Some(x) && x@ == w,
                    None => step.deliver_witness is None,
                })
            }),
    {
        match &object {
            ObjectContent::AggregatedReport(_) => {
                return WitnessStep { fatal: true, broadcast_report: None, deliver_witness: None };
            },
            ObjectContent::BarycentricReport(_) => {
                return WitnessStep { fatal: true, broadcast_report: None, deliver_witness: None };
            },
            _ => {},
        }
        let round = object.get_round_number();
        let prot = object.get_protocol_information().clone();
        let mut mon = self.take_round(round);
        let ghost m0 = mon@;
        let ghost ck = spec_wb_insert(m0.content, m0.count, object@, v);
        match object {
            ObjectContent::Message(msg) => {
                if !crate::basic::contains_message(&mon.content.values, &msg) {
                    let ghost vals0 = mon@.content.values;
                    mon.content.values.push(msg);
                    mon.count.values = crate::sat_inc(mon.count.values);
                    proof {
                        assert(mon@.content.values =~= vals0.push(msg@));
                    }
                    if mon.count.values >= v {
                        update_witnesses(thread_id, &mut mon.count, &mut mon.content);
                    }
                    proof {
                        assert(mon@.content =~= ck.0);
                        assert(mon.count == ck.1);
                    }
                } else {
                    proof {
                        assert(mon@.content =~= ck.0);
                    }
                }
            },
            ObjectContent::Report(q) => {
                if !contains_report(&mon.content.reports, &q) {
                    let ghost reps0 = mon@.content.reports;
                    let ghost qm = q@;
                    let idx = mon.content.reports.len();
                    mon.content.reports.push(q);
                    mon.count.reports = crate::sat_inc(mon.count.reports);
                    proof {
                        assert(mon@.content.reports =~= reps0.push(qm));
                    }
                    let mut stored = mon.content.reports[idx].clone();
                    let values_copy = crate::basic::clone_messages(&mon.content.values);
                    initialize_witnesses(
                        thread_id,
                        &mut stored,
                        &mut mon.content.witnesses,
                        &mut mon.count,
                        values_copy,
                    );
                    let ghost pre_reports = mon@.content.reports;
                    mon.content.reports.set(idx, stored);
                    proof {
                        assert(mon@.content.reports =~= pre_reports.update(idx as int, stored@));
                        assert(mon@.content =~= ck.0);
                        assert(mon.count == ck.1);
                    }
                } else {
                    proof {
                        assert(mon@.content =~= ck.0);
                    }
                }
            },
            _ => {
                proof {
                    assert(false);
                }
            },
        }
        proof {
            assert(mon@.content == ck.0);
            assert(mon.count == ck.1);
            assert(mon.state == m0.state);
        }
        let ghost out = spec_wb_emissions(thread_id, prot@, round, v, ck.0, ck.1, m0.state);
        let mut broadcast_report: Option<Report> = None;
        if mon.count.values >= v && !mon.state.report {
            let rep = Report::new(
                ReportType::Report,
                prot,
                thread_id,
                crate::basic::clone_messages(&mon.content.values),
                None,
                0,
                round,
            );
            proof {
                assert(rep@ =~= out.1.unwrap());
            }
            broadcast_report = Some(rep);
            mon.state.report = true;
        }
        let mut deliver_witness: Option<Report> = None;
        if mon.count.witnesses >= v && !mon.state.witnesses {
            let tag = <String as vstd::string::StringExecFns>::from_str("witness");
            let rep = Report::new(
                ReportType::Witness,
                tag,
                thread_id,
                crate::basic::clone_messages(&mon.content.values),
                None,
                0,
                round,
            );
            proof {
                assert(rep@ =~= out.2.unwrap());
            }
            deliver_witness = Some(rep);
            mon.state.witnesses = true;
        }
        proof {
            assert(mon.state == out.0);
            assert(mon@ =~= (WitnessRoundMonitorModel { content: ck.0, state: out.0, count: ck.1 }));
        }
        self.put_round(round, mon);
        WitnessStep { fatal: false, broadcast_report, deliver_witness }
    }

    /// Record the monitor of a round not currently in the map.
    pub(crate) fn put_round(&mut self, round: u32, m: WitnessRoundMonitor)
        requires
            old(self).wf(),
            !spec_has_round(old(self)@, round),
        ensures
            final(self).wf(),
            spec_has_round(final(self)@, round),
            spec_round_monitor(final(self)@, round) == m@,
            forall|r2: u32|
                r2 != round ==> spec_has_round(final(self)@, r2) == spec_has_round(old(self)@, r2),
            forall|r2: u32|
                r2 != round && spec_has_round(old(self)@, r2) ==> spec_round_monitor(
                    final(self)@,
                    r2,
                ) == spec_round_monitor(old(self)@, r2),
    {
        let ghost pre = self@;
        self.entries.push((round, m));
        proof {
            assert(self@ =~= pre.push((round, m@)));
            lemma_round_push_keeps_others(pre, round, m@);
        }
    }
}


/// Build the Input signal a witness broadcast starts with: the payload
/// wrapped as a message under the witness tag, at instance zero of the
/// given round.
pub fn witness_input_signal(sender: u32, message: String, round_number: u32) -> (r:
    crate::reliable::Signal)
    ensures
        r@ == (crate::reliable::SignalModel {
            signal: crate::reliable::SignalType::Input,
            content: ObjectContentModel::Message(
                crate::basic::MessageModel {
                    protocol_information: "witness"@,
                    id: sender,
                    message: message@,
                    dimension: Option::None,
                    instance_number: Option::Some(0),
                    round_number,
                },
            ),
            instance_number: 0,
            round_number,
        }),
{
    let tag = <String as vstd::string::StringExecFns>::from_str("witness");
    let sent = Message::new(tag, sender, message, None, Some(0), round_number);
    crate::reliable::Signal::new(
        crate::reliable::SignalType::Input,
        ObjectContent::Message(sent),
        0,
        round_number,
    )
}

} // verus!
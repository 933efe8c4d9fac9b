//! Barycentric agreement: per-peer message views, their exchange as
//! barycentric reports, and trust and buddy detection.
use vstd::prelude::*;

use crate::basic::Message;
use crate::basic::MessageModel;
use crate::basic::message_eq;
use crate::basic::spec_contains_message;
use crate::reliable::ObjectContent;
use crate::reliable::ObjectContentModel;
use crate::reliable::spec_content_protocol;
use crate::reliable::spec_content_round_number;
use crate::spec_sat64;
use crate::spec_sat_inc;
use crate::witness::Report;
use crate::witness::ReportModel;
use crate::witness::ReportType;
use crate::witness::vec_message_eq;

verus! {

/// One participant's current view of every peer's message in a round.
#[derive(Debug)]
pub struct BarycentricReport {
    pub protocol_information: String,
    pub id: u32,
    pub messages: Vec<Message>,
    pub instance_number: u32,
    pub round_number: u32,
}

/// Abstract value of a `BarycentricReport`.
#[verifier::ext_equal]
pub struct BarycentricReportModel {
    pub protocol_information: Seq<char>,
    pub id: u32,
    pub messages: Seq<MessageModel>,
    pub instance_number: u32,
    pub round_number: u32,
}

impl View for BarycentricReport {
    type V = BarycentricReportModel;

    open spec fn view(&self) -> BarycentricReportModel {
        BarycentricReportModel {
            protocol_information: self.protocol_information@,
            id: self.id,
            messages: self.messages@.map_values(|m: Message| m@),
            instance_number: self.instance_number,
            round_number: self.round_number,
        }
    }
}

impl Clone for BarycentricReport {
    fn clone(&self) -> (r: Self)
        ensures
            r@ == self@,
    {
        let r = BarycentricReport {
            protocol_information: self.protocol_information.clone(),
            id: self.id,
            messages: crate::basic::clone_messages(&self.messages),
            instance_number: self.instance_number,
            round_number: self.round_number,
        };
        proof {
            assert(r@ =~= self@);
        }
        r
    }
}

impl BarycentricReport {
    pub fn get_protocol_information(&self) -> (r: &String)
        ensures
            r == self.protocol_information,
    {
        &self.protocol_information
    }

    pub fn get_id(&self) -> (r: u32)
        ensures
            r == self.id,
    {
        self.id
    }

    pub fn get_messages(&self) -> (r: &Vec<Message>)
        ensures
            r == self.messages,
    {
        &self.messages
    }

    pub fn get_instance_number(&self) -> (r: u32)
        ensures
            r == self.instance_number,
    {
        self.instance_number
    }

    pub fn get_round_number(&self) -> (r: u32)
        ensures
            r == self.round_number,
    {
        self.round_number
    }

    pub fn new(
        protocol_information: String,
        id: u32,
        messages: Vec<Message>,
        instance_number: u32,
        round_number: u32,
    ) -> (r: BarycentricReport)
        ensures
            r == (BarycentricReport {
                protocol_information,
                id,
                messages,
                instance_number,
                round_number,
            }),
    {
        BarycentricReport { protocol_information, id, messages, instance_number, round_number }
    }
}

/// Equality of two barycentric reports, decided field by field.
pub fn barycentric_report_eq(a: &BarycentricReport, b: &BarycentricReport) -> (r: bool)
    ensures
        r == (a@ == b@),
{
    let r = a.protocol_information == b.protocol_information && a.id == b.id && vec_message_eq(
        &a.messages,
        &b.messages,
    ) && a.instance_number == b.instance_number && a.round_number == b.round_number;
    proof {
        if r {
            assert(a@ == b@);
        }
    }
    r
}

/// The placeholder message that fills every peer slot before that peer's
/// message arrives.
pub open spec fn spec_initial_message() -> MessageModel {
    MessageModel {
        protocol_information: Seq::empty(),
        id: 0,
        message: Seq::empty(),
        dimension: Option::None,
        instance_number: Option::None,
        round_number: 0,
    }
}

/// Build the placeholder message.
pub fn initial_message() -> (m: Message)
    ensures
        m@ == spec_initial_message(),
{
    Message::new(String::new(), 0, String::new(), None, None, 0)
}

/// The placeholder report that fills every peer slot before that peer's
/// barycentric report arrives.
pub open spec fn spec_initial_report() -> BarycentricReportModel {
    BarycentricReportModel {
        protocol_information: Seq::empty(),
        id: 0,
        messages: seq![spec_initial_message()],
        instance_number: 0,
        round_number: 0,
    }
}

/// Build the placeholder report.
pub fn initial_barycentric_report() -> (r: BarycentricReport)
    ensures
        r@ == spec_initial_report(),
{
    let mut messages: Vec<Message> = Vec::new();
    messages.push(initial_message());
    let r = BarycentricReport::new(String::new(), 0, messages, 0, 0);
    proof {
        assert(r@.messages =~= spec_initial_report().messages);
        assert(r@ =~= spec_initial_report());
    }
    r
}

/// Milestones of one barycentric round at one observer.
#[derive(Debug, Clone, Copy, PartialEq, Eq, Structural)]
pub struct BarycentricRoundState {
    pub messages: bool,
    pub trusted: bool,
    pub buddies: bool,
}

impl BarycentricRoundState {
    pub fn new() -> (r: BarycentricRoundState)
        ensures
            r == (BarycentricRoundState { messages: false, trusted: false, buddies: false }),
    {
        BarycentricRoundState { messages: false, trusted: false, buddies: false }
    }
}

/// Tallies of one barycentric round at one observer.
#[derive(Debug, Clone, Copy, PartialEq, Eq, Structural)]
pub struct BarycentricRoundCount {
    pub messages: u32,
    pub barycentric_reports: u32,
    pub buddies: u32,
}

impl BarycentricRoundCount {
    pub fn new() -> (r: BarycentricRoundCount)
        ensures
            r == (BarycentricRoundCount { messages: 0, barycentric_reports: 0, buddies: 0 }),
    {
        BarycentricRoundCount { messages: 0, barycentric_reports: 0, buddies: 0 }
    }
}

/// Everything one barycentric round has collected at one observer: a
/// peer-indexed message slot, a peer-indexed report slot, and the buddy
/// flags, each with one entry per participant.
#[derive(Debug)]
pub struct BarycentricRoundContent {
    pub messages: Vec<Message>,
    pub barycentric_reports: Vec<BarycentricReport>,
    pub buddies: Vec<bool>,
}

/// Abstract value of a `BarycentricRoundContent`.
#[verifier::ext_equal]
pub struct BarycentricRoundContentModel {
    pub messages: Seq<MessageModel>,
    pub barycentric_reports: Seq<BarycentricReportModel>,
    pub buddies: Seq<bool>,
}

impl View for BarycentricRoundContent {
    type V = BarycentricRoundContentModel;

    open spec fn view(&self) -> BarycentricRoundContentModel {
        BarycentricRoundContentModel {
            messages: self.messages@.map_values(|m: Message| m@),
            barycentric_reports: self.barycentric_reports@.map_values(
                |q: BarycentricReport| q@,
            ),
            buddies: self.buddies@,
        }
    }
}

/// The content of a fresh barycentric round for `thread_count`
/// participants: every slot holds its placeholder.
pub open spec fn spec_fresh_barycentric_content(thread_count: u32) -> BarycentricRoundContentModel {
    BarycentricRoundContentModel {
        messages: Seq::new(thread_count as nat, |i: int| spec_initial_message()),
        barycentric_reports: Seq::new(thread_count as nat, |i: int| spec_initial_report()),
        buddies: Seq::new(thread_count as nat, |i: int| false),
    }
}

impl BarycentricRoundContent {
    pub fn new(thread_count: u32) -> (r: BarycentricRoundContent)
        ensures
            r@ == spec_fresh_barycentric_content(thread_count),
    {
        let mut messages: Vec<Message> = Vec::new();
        let mut barycentric_reports: Vec<BarycentricReport> = Vec::new();
        let mut buddies: Vec<bool> = Vec::new();
        let mut i: u32 = 0;
        while i < thread_count
            invariant
                0 <= i <= thread_count,
                messages@.len() == i,
                barycentric_reports@.len() == i,
                buddies@.len() == i,
                forall|j: int| 0 <= j < i ==> (#[trigger] messages@[j])@ == spec_initial_message(),
                forall|j: int|
                    0 <= j < i ==> (#[trigger] barycentric_reports@[j])@ == spec_initial_report(),
                forall|j: int| 0 <= j < i ==> (#[trigger] buddies@[j]) == false,
            decreases thread_count - i,
        {
            messages.push(initial_message());
            barycentric_reports.push(initial_barycentric_report());
            buddies.push(false);
            i += 1;
        }
        let r = BarycentricRoundContent { messages, barycentric_reports, buddies };
        proof {
            assert(r@.messages =~= spec_fresh_barycentric_content(thread_count).messages);
            assert(r@.barycentric_reports =~= spec_fresh_barycentric_content(
                thread_count,
            ).barycentric_reports);
            assert(r@.buddies =~= spec_fresh_barycentric_content(thread_count).buddies);
        }
        r
    }
}

/// The full per-round record: content, milestones and tallies.
#[derive(Debug)]
pub struct BarycentricRoundMonitor {
    pub content: BarycentricRoundContent,
    pub state: BarycentricRoundState,
    pub count: BarycentricRoundCount,
}

/// Abstract value of a `BarycentricRoundMonitor`.
#[verifier::ext_equal]
pub struct BarycentricRoundMonitorModel {
    pub content: BarycentricRoundContentModel,
    pub state: BarycentricRoundState,
    pub count: BarycentricRoundCount,
}

impl View for BarycentricRoundMonitor {
    type V = BarycentricRoundMonitorModel;

    open spec fn view(&self) -> BarycentricRoundMonitorModel {
        BarycentricRoundMonitorModel {
            content: self.content@,
            state: self.state,
            count: self.count,
        }
    }
}

/// The value of a barycentric round monitor before anything was observed.
pub open spec fn spec_fresh_barycentric_monitor(thread_count: u32) -> BarycentricRoundMonitorModel {
    BarycentricRoundMonitorModel {
        content: spec_fresh_barycentric_content(thread_count),
        state: BarycentricRoundState { messages: false, trusted: false, buddies: false },
        count: BarycentricRoundCount { messages: 0, barycentric_reports: 0, buddies: 0 },
    }
}

impl BarycentricRoundMonitor {
    pub fn new(thread_count: u32) -> (r: BarycentricRoundMonitor)
        ensures
            r@ == spec_fresh_barycentric_monitor(thread_count),
    {
        BarycentricRoundMonitor {
            content: BarycentricRoundContent::new(thread_count),
            state: BarycentricRoundState::new(),
            count: BarycentricRoundCount::new(),
        }
    }
}

/// Does one listed message attest the slot `id`? It must sit under the
/// sender id `id`, equal the observer's message in that slot, and not be
/// the placeholder.
pub open spec fn spec_attests(rm: MessageModel, messages: Seq<MessageModel>, id: int) -> bool {
    rm.id == id && 0 <= id < messages.len() && messages[id] == rm && rm != spec_initial_message()
}

/// How many of the listed messages attest the slot `id`.
pub open spec fn spec_listed_attest_count(
    msgs: Seq<MessageModel>,
    messages: Seq<MessageModel>,
    id: int,
) -> nat
    decreases msgs.len(),
{
    if msgs.len() == 0 {
        0
    } else {
        spec_listed_attest_count(msgs.drop_last(), messages, id) + (if spec_attests(
            msgs.last(),
            messages,
            id,
        ) {
            1nat
        } else {
            0nat
        })
    }
}

/// How many attestations for the slot `id` all received barycentric
/// reports carry together.
pub open spec fn spec_slot_tally(
    reports: Seq<BarycentricReportModel>,
    messages: Seq<MessageModel>,
    id: int,
) -> nat
    decreases reports.len(),
{
    if reports.len() == 0 {
        0
    } else {
        spec_slot_tally(reports.drop_last(), messages, id) + spec_listed_attest_count(
            reports.last().messages,
            messages,
            id,
        )
    }
}

/// The trusted messages among the first `n` peer slots, in slot order: a
/// slot's message is trusted when at least `a` attestations back it.
pub open spec fn spec_trusted_up_to(
    reports: Seq<BarycentricReportModel>,
    messages: Seq<MessageModel>,
    a: u32,
    n: int,
) -> Seq<MessageModel>
    decreases n,
{
    if n <= 0 {
        Seq::empty()
    } else {
        let rest = spec_trusted_up_to(reports, messages, a, n - 1);
        if spec_slot_tally(reports, messages, n - 1) >= a {
            rest.push(messages[n - 1])
        } else {
            rest
        }
    }
}

/// The trusted messages of the round, in slot order.
pub open spec fn spec_trusted(
    reports: Seq<BarycentricReportModel>,
    messages: Seq<MessageModel>,
    a: u32,
) -> Seq<MessageModel> {
    spec_trusted_up_to(reports, messages, a, messages.len() as int)
}

/// Count the attestations all received barycentric reports carry for the
/// slot `id`, clamped to a wide tally.
fn slot_tally(
    reports: &Vec<BarycentricReport>,
    messages: &Vec<Message>,
    id: usize,
) -> (t: u64)
    ensures
        t == spec_sat64(
            spec_slot_tally(
                reports@.map_values(|q: BarycentricReport| q@),
                messages@.map_values(|m: Message| m@),
                id as int,
            ),
        ),
{
    let ghost reps = reports@.map_values(|q: BarycentricReport| q@);
    let ghost msgs = messages@.map_values(|m: Message| m@);
    let mut t: u64 = 0;
    let mut r: usize = 0;
    while r < reports.len()
        invariant
            0 <= r <= reports.len(),
            reps == reports@.map_values(|q: BarycentricReport| q@),
            msgs == messages@.map_values(|m: Message| m@),
            t == spec_sat64(spec_slot_tally(reps.take(r as int), msgs, id as int)),
        decreases reports.len() - r,
    {
        let report = &reports[r];
        let ghost listed = reps[r as int].messages;
        let ghost before = spec_slot_tally(reps.take(r as int), msgs, id as int);
        let mut j: usize = 0;
        while j < report.messages.len()
            invariant
                0 <= j <= report.messages.len(),
                msgs == messages@.map_values(|m: Message| m@),
                listed == report.messages@.map_values(|m: Message| m@),
                t == spec_sat64(
                    before + spec_listed_attest_count(listed.take(j as int), msgs, id as int),
                ),
            decreases report.messages.len() - j,
        {
            let rm = &report.messages[j];
            let ghost cnt_before = spec_listed_attest_count(listed.take(j as int), msgs, id as int);
            proof {
                assert(listed.take(j as int + 1).drop_last() =~= listed.take(j as int));
                assert(listed.take(j as int + 1).last() == listed[j as int]);
            }
            let attested = rm.get_id() as usize == id && id < messages.len() && message_eq(
                &messages[id],
                rm,
            ) && !message_eq(rm, &initial_message());
            proof {
                if spec_attests(listed[j as int], msgs, id as int) {
                    crate::lemma_sat64_step(before + cnt_before);
                }
                assert(attested == spec_attests(listed[j as int], msgs, id as int));
            }
            if attested {
                t = crate::sat_inc64(t);
            }
            j += 1;
        }
        proof {
            assert(listed.take(listed.len() as int) =~= listed);
            assert(reps.take(r as int + 1).drop_last() =~= reps.take(r as int));
            assert(reps.take(r as int + 1).last() == reps[r as int]);
        }
        r += 1;
    }
    proof {
        assert(reps.take(reps.len() as int) =~= reps);
    }
    t
}

/// Collect the trusted messages of the round: those peer-slot messages
/// attested by at least `agreement_threshold` received barycentric
/// reports. Nothing else of the round is changed.
pub fn initialize_trusted(
    _thread_id: u32,
    agreement_threshold: u32,
    count: &mut BarycentricRoundCount,
    content: &mut BarycentricRoundContent,
) -> (trusted: Vec<Message>)
    ensures
        *final(count) == *old(count),
        final(content)@ == old(content)@,
        trusted@.map_values(|m: Message| m@) == spec_trusted(
            old(content)@.barycentric_reports,
            old(content)@.messages,
            agreement_threshold,
        ),
{
    let ghost reps = content@.barycentric_reports;
    let ghost msgs = content@.messages;
    let mut trusted: Vec<Message> = Vec::new();
    let mut id: usize = 0;
    while id < content.messages.len()
        invariant
            0 <= id <= content.messages.len(),
            *count == *old(count),
            content@ == old(content)@,
            reps == content@.barycentric_reports,
            msgs == content@.messages,
            msgs.len() == content.messages.len(),
            trusted@.map_values(|m: Message| m@) == spec_trusted_up_to(
                reps,
                msgs,
                agreement_threshold,
                id as int,
            ),
        decreases content.messages.len() - id,
    {
        let ghost trusted_before = trusted@.map_values(|m: Message| m@);
        let t = slot_tally(&content.barycentric_reports, &content.messages, id);
        proof {
            let exact = spec_slot_tally(reps, msgs, id as int);
            assert((t >= agreement_threshold as u64) == (exact >= agreement_threshold));
        }
        if t >= agreement_threshold as u64 {
            trusted.push(content.messages[id].clone());
            proof {
                assert(trusted@.map_values(|m: Message| m@) =~= trusted_before.push(
                    msgs[id as int],
                ));
            }
        }
        id += 1;
    }
    proof {
        assert(msgs.len() as int == content.messages.len() as int);
    }
    trusted
}

/// Is the report in slot `j` a buddy's? Its message view must equal the
/// observer's, and it must not be the placeholder.
pub open spec fn spec_is_buddy(
    br: BarycentricReportModel,
    messages: Seq<MessageModel>,
) -> bool {
    br.messages == messages && br != spec_initial_report()
}

/// The buddy flag of every peer slot.
pub open spec fn spec_buddy_flags(
    reports: Seq<BarycentricReportModel>,
    messages: Seq<MessageModel>,
) -> Seq<bool> {
    reports.map_values(|br: BarycentricReportModel| spec_is_buddy(br, messages))
}

/// How many flags are set.
pub open spec fn spec_count_true(s: Seq<bool>) -> nat
    decreases s.len(),
{
    if s.len() == 0 {
        0
    } else {
        spec_count_true(s.drop_last()) + (if s.last() {
            1nat
        } else {
            0nat
        })
    }
}

/// Recompute the buddy flags of the round: peer `j` is a buddy exactly
/// when its barycentric report lists the same messages the observer
/// holds and is not the placeholder. The buddy tally is rebuilt from
/// scratch.
pub fn initialize_buddies(
    _thread_id: u32,
    messages: &mut Vec<Message>,
    buddies: &mut Vec<bool>,
    barycentric_reports: &mut Vec<BarycentricReport>,
    count: &mut BarycentricRoundCount,
)
    requires
        old(buddies)@.len() == old(barycentric_reports)@.len(),
    ensures
        final(messages)@ == old(messages)@,
        final(barycentric_reports)@ == old(barycentric_reports)@,
        final(buddies)@ == spec_buddy_flags(
            old(barycentric_reports)@.map_values(|q: BarycentricReport| q@),
            old(messages)@.map_values(|m: Message| m@),
        ),
        *final(count) == (BarycentricRoundCount {
            buddies: crate::spec_sat_add(
                0,
                spec_count_true(
                    spec_buddy_flags(
                        old(barycentric_reports)@.map_values(|q: BarycentricReport| q@),
                        old(messages)@.map_values(|m: Message| m@),
                    ),
                ),
            ),
            ..*old(count)
        }),
{
    let ghost reps = barycentric_reports@.map_values(|q: BarycentricReport| q@);
    let ghost msgs = messages@.map_values(|m: Message| m@);
    let ghost flags = spec_buddy_flags(reps, msgs);
    count.buddies = 0;
    let sentinel = initial_barycentric_report();
    let mut j: usize = 0;
    while j < barycentric_reports.len()
        invariant
            0 <= j <= barycentric_reports.len(),
            messages@ == old(messages)@,
            barycentric_reports@ == old(barycentric_reports)@,
            buddies@.len() == barycentric_reports@.len(),
            reps == barycentric_reports@.map_values(|q: BarycentricReport| q@),
            msgs == messages@.map_values(|m: Message| m@),
            flags == spec_buddy_flags(reps, msgs),
            sentinel@ == spec_initial_report(),
            count.messages == old(count).messages,
            count.barycentric_reports == old(count).barycentric_reports,
            forall|i: int| 0 <= i < j ==> buddies@[i] == flags[i],
            forall|i: int| j <= i < buddies@.len() ==> buddies@[i] == old(buddies)@[i],
            count.buddies == crate::spec_sat_add(0, spec_count_true(flags.take(j as int))),
        decreases barycentric_reports.len() - j,
    {
        proof {
            assert(flags.take(j as int + 1).drop_last() =~= flags.take(j as int));
            assert(flags.take(j as int + 1).last() == flags[j as int]);
            if flags[j as int] {
                crate::lemma_sat_add_step(0, spec_count_true(flags.take(j as int)));
            }
        }
        let br = &barycentric_reports[j];
        let is_buddy = vec_message_eq(br.get_messages(), messages) && !barycentric_report_eq(
            br,
            &sentinel,
        );
        proof {
            assert(is_buddy == flags[j as int]);
        }
        if is_buddy {
            buddies.set(j, true);
            count.buddies = crate::sat_inc(count.buddies);
        } else {
            buddies.set(j, false);
        }
        j += 1;
    }
    proof {
        assert(flags.take(flags.len() as int) =~= flags);
        assert(final(buddies)@ =~= flags);
    }
}

/// Build the observer's barycentric report of the round: a snapshot of
/// its peer-indexed message view, numbered by how many messages it holds
/// so that each growing view starts a reliable-broadcast instance of its
/// own.
pub fn create_barycentric_report(
    thread_id: u32,
    content: &mut BarycentricRoundContent,
    round_number: u32,
    protocol_information: String,
    count: &mut BarycentricRoundCount,
) -> (r: BarycentricReport)
    ensures
        final(content)@ == old(content)@,
        *final(count) == *old(count),
        r@ == (BarycentricReportModel {
            protocol_information: protocol_information@,
            id: thread_id,
            messages: old(content)@.messages,
            instance_number: old(count).messages,
            round_number,
        }),
{
    let instance_number = count.messages;
    let messages = crate::basic::clone_messages(&content.messages);
    let r = BarycentricReport::new(
        protocol_information,
        thread_id,
        messages,
        instance_number,
        round_number,
    );
    proof {
        assert(r@ =~= (BarycentricReportModel {
            protocol_information: r.protocol_information@,
            id: thread_id,
            messages: old(content)@.messages,
            instance_number: old(count).messages,
            round_number,
        }));
    }
    r
}

/// Content that does not belong on the barycentric handler, or a sender
/// id outside the participant range: either aborts it.
pub open spec fn spec_ba_object_fatal(c: ObjectContentModel, thread_count: u32) -> bool {
    match c {
        ObjectContentModel::Message(m) => m.id >= thread_count,
        ObjectContentModel::BarycentricReport(b) => b.id >= thread_count,
        _ => true,
    }
}

/// What recording one delivered object does to a barycentric round at
/// observer `observer`, with validity threshold `v`: a fresh message
/// fills its sender's slot, is counted, and is answered with a report
/// snapshot; a barycentric report fills its sender's slot, is counted,
/// and re-derives the buddy flags once messages and trust are settled.
pub open spec fn spec_ba_insert(
    m: BarycentricRoundMonitorModel,
    observer: u32,
    obj: ObjectContentModel,
    v: u32,
) -> (BarycentricRoundMonitorModel, Option<BarycentricReportModel>) {
    match obj {
        ObjectContentModel::Message(mm) => {
            let (c1, k1, br) = if !spec_contains_message(m.content.messages, mm) {
                let messages1 = m.content.messages.update(mm.id as int, mm);
                let k1 = BarycentricRoundCount {
                    messages: spec_sat_inc(m.count.messages),
                    ..m.count
                };
                (
                    BarycentricRoundContentModel { messages: messages1, ..m.content },
                    k1,
                    Option::Some(
                        BarycentricReportModel {
                            protocol_information: mm.protocol_information,
                            id: observer,
                            messages: messages1,
                            instance_number: k1.messages,
                            round_number: mm.round_number,
                        },
                    ),
                )
            } else {
                (m.content, m.count, Option::None)
            };
            let s1 = BarycentricRoundState {
                messages: m.state.messages || (k1.messages >= v && !m.state.messages),
                ..m.state
            };
            (BarycentricRoundMonitorModel { content: c1, state: s1, count: k1 }, br)
        },
        ObjectContentModel::BarycentricReport(b) => {
            let reports1 = m.content.barycentric_reports.update(b.id as int, b);
            let c1 = BarycentricRoundContentModel { barycentric_reports: reports1, ..m.content };
            let k1 = BarycentricRoundCount {
                barycentric_reports: spec_sat_inc(m.count.barycentric_reports),
                ..m.count
            };
            let (c2, k2) = if m.state.messages && m.state.trusted {
                let flags = spec_buddy_flags(reports1, c1.messages);
                (
                    BarycentricRoundContentModel { buddies: flags, ..c1 },
                    BarycentricRoundCount {
                        buddies: crate::spec_sat_add(0, spec_count_true(flags)),
                        ..k1
                    },
                )
            } else {
                (c1, k1)
            };
            (
                BarycentricRoundMonitorModel { content: c2, state: m.state, count: k2 },
                Option::None,
            )
        },
        _ => (m, Option::None),
    }
}

/// What the barycentric handler settles after recording an object: at
/// `a` reports it checks for a non-empty trusted set once; at `v`
/// buddies it emits its terminal report of trusted messages once.
pub open spec fn spec_ba_finish(
    m: BarycentricRoundMonitorModel,
    observer: u32,
    v: u32,
    a: u32,
    round: u32,
) -> (BarycentricRoundMonitorModel, Option<ReportModel>) {
    let trusted = spec_trusted(m.content.barycentric_reports, m.content.messages, a);
    let fire_trusted = m.count.barycentric_reports >= a && !m.state.trusted && trusted.len() > 0;
    let s1 = BarycentricRoundState { trusted: m.state.trusted || fire_trusted, ..m.state };
    let fire_term = m.count.buddies >= v && !s1.buddies;
    let s2 = BarycentricRoundState { buddies: s1.buddies || fire_term, ..s1 };
    let term = if fire_term {
        Option::Some(
            ReportModel {
                report_type: ReportType::Witness,
                protocol_information: "barycentric"@,
                id: observer,
                messages: trusted,
                dimension: Option::None,
                instance_number: 0,
                round_number: round,
            },
        )
    } else {
        Option::None
    };
    (BarycentricRoundMonitorModel { state: s2, ..m }, term)
}

/// The outcome of handing one object to the barycentric handler.
#[derive(Debug)]
pub struct BarycentricStep {
    /// The object kind cannot appear on this handler, or its sender id
    /// is out of range: the handler must abort.
    pub fatal: bool,
    /// The observer's barycentric report snapshot, to be broadcast
    /// reliably.
    pub broadcast_report: Option<BarycentricReport>,
    /// The observer's terminal report of trusted messages, to be
    /// enqueued onto its own basic queue.
    pub deliver_trusted: Option<Report>,
}

/// Where a content delivered by the reliable layer goes at the
/// barycentric layer.
#[derive(Debug)]
pub enum BarycentricDelivery {
    /// Enqueue this message onto the observer's own basic queue.
    ToBasic(Message),
    /// The plain-delivery tag carried something other than a message;
    /// nothing is delivered.
    Dropped,
    /// Hand this message to the barycentric handler.
    ToHandlerMessage(Message),
    /// Hand this barycentric report to the barycentric handler.
    ToHandlerReport(BarycentricReport),
    /// A report or an aggregated report cannot be delivered here: the
    /// handler must abort.
    Fatal,
}

/// Decide where a content delivered by the barycentric layer's reliable
/// handler goes: under the plain-delivery tag a message reaches the
/// observer's own basic queue; under any other tag, messages and
/// barycentric reports reach the barycentric handler; everything else is
/// fatal.
pub fn dispatch_barycentric_delivery(content: ObjectContent) -> (r: BarycentricDelivery)
    ensures
        ({
            let reliable_tag = spec_content_protocol(content@) == "reliable"@;
            match content@ {
                ObjectContentModel::Message(m) => {
                    if reliable_tag {
                        r matches BarycentricDelivery::ToBasic(d) && d@ == m
                    } else {
                        r matches BarycentricDelivery::ToHandlerMessage(d) && d@ == m
                    }
                },
                ObjectContentModel::BarycentricReport(q) => {
                    if reliable_tag {
                        r matches BarycentricDelivery::Dropped
                    } else {
                        r matches BarycentricDelivery::ToHandlerReport(d) && d@ == q
                    }
                },
                _ => {
                    if reliable_tag {
                        r matches BarycentricDelivery::Dropped
                    } else {
                        r matches BarycentricDelivery::Fatal
                    }
                },
            }
        }),
{
    let tag = <String as vstd::string::StringExecFns>::from_str("reliable");
    let reliable_tag = *content.get_protocol_information() == tag;
    match content {
        ObjectContent::Message(m) => {
            if reliable_tag {
                BarycentricDelivery::ToBasic(m)
            } else {
                BarycentricDelivery::ToHandlerMessage(m)
            }
        },
        ObjectContent::BarycentricReport(q) => {
            if reliable_tag {
                BarycentricDelivery::Dropped
            } else {
                BarycentricDelivery::ToHandlerReport(q)
            }
        },
        _ => {
            if reliable_tag {
                BarycentricDelivery::Dropped
            } else {
                BarycentricDelivery::Fatal
            }
        },
    }
}

/// Is some round entry keyed `r`?
pub open spec fn spec_ba_has_round(s: Seq<(u32, BarycentricRoundMonitorModel)>, r: u32) -> bool {
    exists|i: int| 0 <= i < s.len() && s[i].0 == r
}

/// The index of the entry for round `r`.
pub open spec fn spec_ba_round_index(s: Seq<(u32, BarycentricRoundMonitorModel)>, r: u32) -> int {
    choose|i: int| 0 <= i < s.len() && s[i].0 == r
}

/// The monitor stored for round `r`.
pub open spec fn spec_ba_round_monitor(
    s: Seq<(u32, BarycentricRoundMonitorModel)>,
    r: u32,
) -> BarycentricRoundMonitorModel {
    s[spec_ba_round_index(s, r)].1
}

/// No two entries track the same round.
pub open spec fn spec_ba_unique_rounds(s: Seq<(u32, BarycentricRoundMonitorModel)>) -> bool {
    forall|i: int, j: int| 0 <= i < j < s.len() ==> s[i].0 != s[j].0
}

/// Every monitor's slots are sized for `thread_count` participants.
pub open spec fn spec_ba_dims_ok(
    s: Seq<(u32, BarycentricRoundMonitorModel)>,
    thread_count: u32,
) -> bool {
    forall|i: int|
        0 <= i < s.len() ==> {
            &&& (#[trigger] s[i].1).content.messages.len() == thread_count
            &&& s[i].1.content.barycentric_reports.len() == thread_count
            &&& s[i].1.content.buddies.len() == thread_count
        }
}

/// All round monitors of one observer's barycentric handler, keyed by
/// round.
pub struct BarycentricMonitorMap {
    pub entries: Vec<(u32, BarycentricRoundMonitor)>,
}

impl View for BarycentricMonitorMap {
    type V = Seq<(u32, BarycentricRoundMonitorModel)>;

    open spec fn view(&self) -> Seq<(u32, BarycentricRoundMonitorModel)> {
        self.entries@.map_values(|p: (u32, BarycentricRoundMonitor)| (p.0, p.1@))
    }
}

/// Taking an entry out leaves every other round unchanged.
proof fn lemma_ba_remove_keeps_others(s: Seq<(u32, BarycentricRoundMonitorModel)>, i: int)
    requires
        spec_ba_unique_rounds(s),
        0 <= i < s.len(),
    ensures
        spec_ba_unique_rounds(s.remove(i)),
        !spec_ba_has_round(s.remove(i), s[i].0),
        forall|r2: u32|
            r2 != s[i].0 ==> spec_ba_has_round(s.remove(i), r2) == spec_ba_has_round(s, r2),
        forall|r2: u32|
            r2 != s[i].0 && spec_ba_has_round(s, r2) ==> spec_ba_round_monitor(s.remove(i), r2)
                == spec_ba_round_monitor(s, r2),
{
    let t = s.remove(i);
    assert(forall|j: int| 0 <= j < i ==> t[j] == s[j]);
    assert(forall|j: int| i <= j < t.len() ==> t[j] == s[j + 1]);
    assert forall|j: int| 0 <= j < t.len() implies t[j].0 != s[i].0 by {
        if j < i {
            assert(s[j].0 != s[i].0);
        } else {
            assert(s[j + 1].0 != s[i].0);
        }
    }
    assert forall|r2: u32| r2 != s[i].0 implies spec_ba_has_round(t, r2) == spec_ba_has_round(
        s,
        r2,
    ) by {
        if spec_ba_has_round(s, r2) {
            let j = spec_ba_round_index(s, r2);
            if j < i {
                assert(t[j] == s[j]);
            } else {
                assert(j > i);
                assert(t[j - 1] == s[j]);
            }
            assert(spec_ba_has_round(t, r2));
        }
        if spec_ba_has_round(t, r2) {
            let j = spec_ba_round_index(t, r2);
            if j < i {
                assert(s[j] == t[j]);
            } else {
                assert(s[j + 1] == t[j]);
            }
            assert(spec_ba_has_round(s, r2));
        }
    }
    assert forall|r2: u32| r2 != s[i].0 && spec_ba_has_round(s, r2) implies spec_ba_round_monitor(
        t,
        r2,
    ) == spec_ba_round_monitor(s, r2) by {
        let j = spec_ba_round_index(s, r2);
        assert(0 <= j < s.len() && s[j].0 == r2);
        let j3 = spec_ba_round_index(t, r2);
        assert(0 <= j3 < t.len() && t[j3].0 == r2);
        let j3s = if j3 < i {
            j3
        } else {
            j3 + 1
        };
        assert(t[j3] == s[j3s]);
        assert(j3s == j);
    }
}

/// Registering a fresh round leaves every other round unchanged.
proof fn lemma_ba_push_keeps_others(
    s: Seq<(u32, BarycentricRoundMonitorModel)>,
    r: u32,
    m: BarycentricRoundMonitorModel,
)
    requires
        spec_ba_unique_rounds(s),
        !spec_ba_has_round(s, r),
    ensures
        spec_ba_unique_rounds(s.push((r, m))),
        spec_ba_has_round(s.push((r, m)), r),
        spec_ba_round_monitor(s.push((r, m)), r) == m,
        forall|r2: u32|
            r2 != r ==> spec_ba_has_round(s.push((r, m)), r2) == spec_ba_has_round(s, r2),
        forall|r2: u32|
            r2 != r && spec_ba_has_round(s, r2) ==> spec_ba_round_monitor(s.push((r, m)), r2)
                == spec_ba_round_monitor(s, r2),
{
    let t = s.push((r, m));
    assert(t[s.len() as int] == (r, m));
    assert(forall|i: int| 0 <= i < s.len() ==> t[i] == s[i]);
    assert forall|i: int, j: int| 0 <= i < j < t.len() implies t[i].0 != t[j].0 by {
        if j < s.len() {
            assert(s[i].0 != s[j].0);
        } else {
            assert(t[j].0 == r);
            assert(!(exists|i2: int| 0 <= i2 < s.len() && s[i2].0 == r));
        }
    }
    assert(spec_ba_has_round(t, r));
    let j = spec_ba_round_index(t, r);
    assert(0 <= j < t.len() && t[j].0 == r);
    if j != s.len() as int {
        assert(s[j].0 == r);
        assert(spec_ba_has_round(s, r));
    }
    assert forall|r2: u32| r2 != r implies spec_ba_has_round(t, r2) == spec_ba_has_round(
        s,
        r2,
    ) by {
        if spec_ba_has_round(s, r2) {
            let j2 = spec_ba_round_index(s, r2);
            assert(t[j2] == s[j2]);
            assert(spec_ba_has_round(t, r2));
        }
        if spec_ba_has_round(t, r2) {
            let j2 = spec_ba_round_index(t, r2);
            assert(j2 != s.len() as int);
            assert(s[j2] == t[j2]);
            assert(spec_ba_has_round(s, r2));
        }
    }
    assert forall|r2: u32| r2 != r && spec_ba_has_round(s, r2) implies spec_ba_round_monitor(
        t,
        r2,
    ) == spec_ba_round_monitor(s, r2) by {
        let j2 = spec_ba_round_index(s, r2);
        assert(0 <= j2 < s.len() && s[j2].0 == r2);
        let j3 = spec_ba_round_index(t, r2);
        assert(0 <= j3 < t.len() && t[j3].0 == r2);
        assert(j3 != s.len() as int);
        assert(t[j3] == s[j3]);
        assert(j3 == j2);
    }
}

impl BarycentricMonitorMap {
    /// Well-formed: round keys are unique.
    pub open spec fn wf(&self) -> bool {
        spec_ba_unique_rounds(self@)
    }

    pub fn new() -> (r: BarycentricMonitorMap)
        ensures
            r@ == Seq::<(u32, BarycentricRoundMonitorModel)>::empty(),
            r.wf(),
    {
        let r = BarycentricMonitorMap { entries: Vec::new() };
        proof {
            assert(r@ =~= Seq::<(u32, BarycentricRoundMonitorModel)>::empty());
        }
        r
    }

    /// The monitor recorded for `round`, if the round was ever observed.
    pub fn get_round(&self, round: u32) -> (r: Option<&BarycentricRoundMonitor>)
        requires
            self.wf(),
        ensures
            match r {
                Some(m) => spec_ba_has_round(self@, round) && m@ == spec_ba_round_monitor(
                    self@,
                    round,
                ),
                None => !spec_ba_has_round(self@, round),
            },
    {
        let mut i: usize = 0;
        while i < self.entries.len()
            invariant
                0 <= i <= self.entries.len(),
                spec_ba_unique_rounds(self@),
                self@.len() == self.entries.len(),
                forall|j: int| 0 <= j < i ==> self@[j].0 != round,
                forall|j: int|
                    0 <= j < self@.len() ==> self@[j] == (self.entries@[j].0, self.entries@[j].1@),
            decreases self.entries.len() - i,
        {
            if self.entries[i].0 == round {
                proof {
                    let j = spec_ba_round_index(self@, round);
                    assert(self@[i as int].0 == round);
                    assert(0 <= j < self@.len() && self@[j].0 == round);
                    assert(j == i as int);
                }
                return Some(&self.entries[i].1);
            }
            i += 1;
        }
        None
    }

    /// Take the monitor of `round` out of the map, creating a fresh one
    /// for `thread_count` participants if the round was never observed.
    fn take_round(&mut self, round: u32, thread_count: u32) -> (m: BarycentricRoundMonitor)
        requires
            old(self).wf(),
        ensures
            final(self).wf(),
            !spec_ba_has_round(final(self)@, round),
            m@ == if spec_ba_has_round(old(self)@, round) {
                spec_ba_round_monitor(old(self)@, round)
            } else {
                spec_fresh_barycentric_monitor(thread_count)
            },
            forall|r2: u32|
                r2 != round ==> spec_ba_has_round(final(self)@, r2) == spec_ba_has_round(
                    old(self)@,
                    r2,
                ),
            forall|r2: u32|
                r2 != round && spec_ba_has_round(old(self)@, r2) ==> spec_ba_round_monitor(
                    final(self)@,
                    r2,
                ) == spec_ba_round_monitor(old(self)@, r2),
    {
        let mut i: usize = 0;
        while i < self.entries.len()
            invariant
                0 <= i <= self.entries.len(),
                self@ == old(self)@,
                spec_ba_unique_rounds(self@),
                self@.len() == self.entries.len(),
                forall|j: int| 0 <= j < i ==> self@[j].0 != round,
                forall|j: int|
                    0 <= j < self@.len() ==> self@[j] == (self.entries@[j].0, self.entries@[j].1@),
            decreases self.entries.len() - i,
        {
            if self.entries[i].0 == round {
                let ghost pre = self@;
                proof {
                    let j = spec_ba_round_index(pre, round);
                    assert(pre[i as int].0 == round);
                    assert(0 <= j < pre.len() && pre[j].0 == round);
                    assert(j == i as int);
                    lemma_ba_remove_keeps_others(pre, i as int);
                }
                let entry = self.entries.remove(i);
                proof {
                    assert(self@ =~= pre.remove(i as int));
                }
                return entry.1;
            }
            i += 1;
        }
        assert(!spec_ba_has_round(self@, round));
        BarycentricRoundMonitor::new(thread_count)
    }

    /// Feed one delivered object to the barycentric handler of
    /// `thread_id`, for `thread_count` participants, with validity
    /// threshold `v` and agreement threshold `a`.
    ///
    /// A fresh message is stored in its sender's slot and answered at
    /// once with a barycentric report snapshot of the observer's view.
    /// A barycentric report is stored in its sender's slot; once the
    /// message and trust milestones are reached, each report re-derives
    /// the buddy flags. After either, trust is re-evaluated at `a`
    /// reports, and at `v` buddies the observer emits its terminal
    /// report of trusted messages, once per round. Reports and
    /// aggregated reports do not belong here; they, and any sender id
    /// outside the participant range, are fatal.
    #[verifier::rlimit(60)]
    pub fn handle_object(
        &mut self,
        thread_id: u32,
        thread_count: u32,
        v: u32,
        a: u32,
        object: ObjectContent,
    ) -> (step: BarycentricStep)
        requires
            old(self).wf(),
            spec_ba_dims_ok(old(self)@, thread_count),
        ensures
            final(self).wf(),
            spec_ba_dims_ok(final(self)@, thread_count),
            step.fatal == spec_ba_object_fatal(object@, thread_count),
            step.fatal ==> final(self)@ == old(self)@ && step.broadcast_report is None
                && step.deliver_trusted is None,
            !step.fatal ==> ({
                let round = spec_content_round_number(object@);
                let m0 = if spec_ba_has_round(old(self)@, round) {
                    spec_ba_round_monitor(old(self)@, round)
                } else {
                    spec_fresh_barycentric_monitor(thread_count)
                };
                let ins = spec_ba_insert(m0, thread_id, object@, v);
                let fin = spec_ba_finish(ins.0, thread_id, v, a, round);
                &&& spec_ba_has_round(final(self)@, round)
                &&& spec_ba_round_monitor(final(self)@, round) == fin.0
                &&& (forall|r2: u32|
                    r2 != round ==> spec_ba_has_round(final(self)@, r2) == spec_ba_has_round(
                        old(self)@,
                        r2,
                    ))
                &&& (forall|r2: u32|
                    r2 != round && spec_ba_has_round(old(self)@, r2) ==> spec_ba_round_monitor(
                        final(self)@,
                        r2,
                    ) == spec_ba_round_monitor(old(self)@, r2))
                &&& (match ins.1 {
                    Some(b) => step.broadcast_report matches Some(x) && x@ == b,
                    None => step.broadcast_report is None,
                })
                &&& (match fin.1 {
                    Some(w) => step.deliver_trusted matches Some(x) && x@ == w,
                    None => step.deliver_trusted is None,
                })
            }),
    {
        let fatal = match &object {
            ObjectContent::Message(m) => m.get_id() >= thread_count,
            ObjectContent::BarycentricReport(b) => b.get_id() >= thread_count,
            _ => true,
        };
        if fatal {
            return BarycentricStep { fatal: true, broadcast_report: None, deliver_trusted: None };
        }
        let round = object.get_round_number();
        let prot = object.get_protocol_information().clone();
        let mut mon = self.take_round(round, thread_count);
        proof {
            if spec_ba_has_round(old(self)@, round) {
                let j = spec_ba_round_index(old(self)@, round);
                assert(0 <= j < old(self)@.len() && old(self)@[j].0 == round);
                assert(old(self)@[j].1.content.messages.len() == thread_count);
            }
        }
        assert(mon@.content.messages.len() == thread_count);
        assert(mon@.content.barycentric_reports.len() == thread_count);
        assert(mon@.content.buddies.len() == thread_count);
        let ghost m0 = mon@;
        let ghost ins = spec_ba_insert(m0, thread_id, object@, v);
        let mut broadcast_report: Option<BarycentricReport> = None;
        match object {
            ObjectContent::Message(msg) => {
                if !crate::basic::contains_message(&mon.content.messages, &msg) {
                    let id = msg.get_id() as usize;
                    let ghost msgs0 = mon@.content.messages;
                    mon.content.messages.set(id, msg);
                    proof {
                        assert(mon@.content.messages =~= msgs0.update(
                            id as int,
                            object@->Message_0,
                        ));
                    }
                    mon.count.messages = crate::sat_inc(mon.count.messages);
                    let br = create_barycentric_report(
                        thread_id,
                        &mut mon.content,
                        round,
                        prot.clone(),
                        &mut mon.count,
                    );
                    proof {
                        assert(br@ =~= ins.1.unwrap());
                    }
                    broadcast_report = Some(br);
                }
                if mon.count.messages >= v && !mon.state.messages {
                    mon.state.messages = true;
                }
                proof {
                    assert(mon@ =~= ins.0);
                }
            },
            ObjectContent::BarycentricReport(b) => {
                let id = b.get_id() as usize;
                let ghost reps0 = mon@.content.barycentric_reports;
                mon.content.barycentric_reports.set(id, b);
                proof {
                    assert(mon@.content.barycentric_reports =~= reps0.update(
                        id as int,
                        object@->BarycentricReport_0,
                    ));
                }
                mon.count.barycentric_reports = crate::sat_inc(mon.count.barycentric_reports);
                if mon.state.messages && mon.state.trusted {
                    initialize_buddies(
                        thread_id,
                        &mut mon.content.messages,
                        &mut mon.content.buddies,
                        &mut mon.content.barycentric_reports,
                        &mut mon.count,
                    );
                }
                proof {
                    assert(mon@ =~= ins.0);
                }
            },
            _ => {
                proof {
                    assert(false);
                }
            },
        }
        let ghost fin = spec_ba_finish(ins.0, thread_id, v, a, round);
        if mon.count.barycentric_reports >= a && !mon.state.trusted {
            let candidates = initialize_trusted(thread_id, a, &mut mon.count, &mut mon.content);
            if candidates.len() > 0 {
                mon.state.trusted = true;
            }
        }
        let mut deliver_trusted: Option<Report> = None;
        if mon.count.buddies >= v && !mon.state.buddies {
            let tag = <String as vstd::string::StringExecFns>::from_str("barycentric");
            let trusted = initialize_trusted(thread_id, a, &mut mon.count, &mut mon.content);
            let rep = Report::new(ReportType::Witness, tag, thread_id, trusted, None, 0, round);
            proof {
                assert(rep@ =~= fin.1.unwrap());
            }
            deliver_trusted = Some(rep);
            mon.state.buddies = true;
        }
        proof {
            assert(mon@ =~= fin.0);
        }
        let ghost pre_put = self@;
        self.put_round(round, mon);
        proof {
            assert forall|i: int| 0 <= i < final(self)@.len() implies {
                &&& (#[trigger] final(self)@[i].1).content.messages.len() == thread_count
                &&& final(self)@[i].1.content.barycentric_reports.len() == thread_count
                &&& final(self)@[i].1.content.buddies.len() == thread_count
            } by {
                let r2 = final(self)@[i].0;
                assert(spec_ba_has_round(final(self)@, r2));
                let j = spec_ba_round_index(final(self)@, r2);
                assert(0 <= j < final(self)@.len() && final(self)@[j].0 == r2);
                assert(j == i);
                if r2 == round {
                    assert(final(self)@[i].1 == fin.0);
                } else {
                    assert(spec_ba_has_round(old(self)@, r2));
                    let j2 = spec_ba_round_index(old(self)@, r2);
                    assert(0 <= j2 < old(self)@.len() && old(self)@[j2].0 == r2);
                    assert(final(self)@[i].1 == old(self)@[j2].1);
                }
            }
        }
        BarycentricStep { fatal: false, broadcast_report, deliver_trusted }
    }

    /// Record the monitor of a round not currently in the map.
    fn put_round(&mut self, round: u32, m: BarycentricRoundMonitor)
        requires
            old(self).wf(),
            !spec_ba_has_round(old(self)@, round),
        ensures
            final(self).wf(),
            spec_ba_has_round(final(self)@, round),
            spec_ba_round_monitor(final(self)@, round) == m@,
            forall|r2: u32|
                r2 != round ==> spec_ba_has_round(final(self)@, r2) == spec_ba_has_round(
                    old(self)@,
                    r2,
                ),
            forall|r2: u32|
                r2 != round && spec_ba_has_round(old(self)@, r2) ==> spec_ba_round_monitor(
                    final(self)@,
                    r2,
                ) == spec_ba_round_monitor(old(self)@, r2),
    {
        let ghost pre = self@;
        self.entries.push((round, m));
        proof {
            assert(self@ =~= pre.push((round, m@)));
            lemma_ba_push_keeps_others(pre, round, m@);
        }
    }
}


/// Build the Input signal a barycentric agreement starts with: the
/// payload wrapped as a message under the barycentric tag, at instance
/// zero of the given round.
pub fn barycentric_input_signal(sender: u32, message: String, round_number: u32) -> (r:
    crate::reliable::Signal)
    ensures
        r@ == (crate::reliable::SignalModel {
            signal: crate::reliable::SignalType::Input,
            content: ObjectContentModel::Message(
                MessageModel {
                    protocol_information: "barycentric"@,
                    id: sender,
                    message: message@,
                    dimension: Option::None,
                    instance_number: Option::Some(0),
                    round_number,
                },
            ),
            instance_number: 0,
            round_number,
        }),
{
    let tag = <String as vstd::string::StringExecFns>::from_str("barycentric");
    let sent = Message::new(tag, sender, message, None, Some(0), round_number);
    crate::reliable::Signal::new(
        crate::reliable::SignalType::Input,
        ObjectContent::Message(sent),
        0,
        round_number,
    )
}

} // verus!
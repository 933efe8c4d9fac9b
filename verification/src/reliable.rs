//! Reliable broadcast: the Input/Echo/Vote signal entities and the
//! per-instance Bracha state machine run by every observer.
use vstd::prelude::*;

use crate::aggregated_witness::AggregatedReport;
use crate::aggregated_witness::AggregatedReportModel;
use crate::barycentric_agreement::BarycentricReport;
use crate::barycentric_agreement::BarycentricReportModel;
use crate::basic::Message;
use crate::basic::MessageModel;
use crate::spec_sat_inc;
use crate::witness::Report;
use crate::witness::ReportModel;

verus! {

/// The phase of a reliable-broadcast signal.
#[derive(Debug, Clone, Copy, PartialEq, Eq, Structural)]
pub enum SignalType {
    Input,
    Echo,
    Vote,
}

/// The payload a signal carries: one of the four entity kinds.
#[derive(Debug)]
pub enum ObjectContent {
    Message(Message),
    Report(Report),
    AggregatedReport(AggregatedReport),
    BarycentricReport(BarycentricReport),
}

/// Abstract value of an `ObjectContent`.
#[verifier::ext_equal]
pub enum ObjectContentModel {
    Message(MessageModel),
    Report(ReportModel),
    AggregatedReport(AggregatedReportModel),
    BarycentricReport(BarycentricReportModel),
}

impl View for ObjectContent {
    type V = ObjectContentModel;

    open spec fn view(&self) -> ObjectContentModel {
        match self {
            ObjectContent::Message(m) => ObjectContentModel::Message(m@),
            ObjectContent::Report(q) => ObjectContentModel::Report(q@),
            ObjectContent::AggregatedReport(q) => ObjectContentModel::AggregatedReport(q@),
            ObjectContent::BarycentricReport(q) => ObjectContentModel::BarycentricReport(q@),
        }
    }
}

impl Clone for ObjectContent {
    fn clone(&self) -> (r: Self)
        ensures
            r@ == self@,
    {
        match self {
            ObjectContent::Message(m) => ObjectContent::Message(m.clone()),
            ObjectContent::Report(q) => ObjectContent::Report(q.clone()),
            ObjectContent::AggregatedReport(q) => ObjectContent::AggregatedReport(q.clone()),
            ObjectContent::BarycentricReport(q) => ObjectContent::BarycentricReport(q.clone()),
        }
    }
}

/// The round number recorded inside the carried entity.
pub open spec fn spec_content_round_number(c: ObjectContentModel) -> u32 {
    match c {
        ObjectContentModel::Message(m) => m.round_number,
        ObjectContentModel::Report(q) => q.round_number,
        ObjectContentModel::AggregatedReport(q) => q.round_number,
        ObjectContentModel::BarycentricReport(q) => q.round_number,
    }
}

/// The protocol tag recorded inside the carried entity.
pub open spec fn spec_content_protocol(c: ObjectContentModel) -> Seq<char> {
    match c {
        ObjectContentModel::Message(m) => m.protocol_information,
        ObjectContentModel::Report(q) => q.protocol_information,
        ObjectContentModel::AggregatedReport(q) => q.protocol_information,
        ObjectContentModel::BarycentricReport(q) => q.protocol_information,
    }
}

/// The sender id recorded inside the carried entity.
pub open spec fn spec_content_sender(c: ObjectContentModel) -> u32 {
    match c {
        ObjectContentModel::Message(m) => m.id,
        ObjectContentModel::Report(q) => q.id,
        ObjectContentModel::AggregatedReport(q) => q.id,
        ObjectContentModel::BarycentricReport(q) => q.id,
    }
}

impl ObjectContent {
    pub fn get_round_number(&self) -> (r: u32)
        ensures
            r == spec_content_round_number(self@),
    {
        match self {
            ObjectContent::Message(m) => m.round_number,
            ObjectContent::Report(q) => q.round_number,
            ObjectContent::AggregatedReport(q) => q.round_number,
            ObjectContent::BarycentricReport(q) => q.round_number,
        }
    }

    pub fn get_protocol_information(&self) -> (r: &String)
        ensures
            r@ == spec_content_protocol(self@),
    {
        match self {
            ObjectContent::Message(m) => &m.protocol_information,
            ObjectContent::Report(q) => &q.protocol_information,
            ObjectContent::AggregatedReport(q) => &q.protocol_information,
            ObjectContent::BarycentricReport(q) => &q.protocol_information,
        }
    }

    pub fn get_id(&self) -> (r: u32)
        ensures
            r == spec_content_sender(self@),
    {
        match self {
            ObjectContent::Message(m) => m.id,
            ObjectContent::Report(q) => q.id,
            ObjectContent::AggregatedReport(q) => q.id,
            ObjectContent::BarycentricReport(q) => q.id,
        }
    }
}

/// A protocol-level signal: a phase wrapped around content, bound to one
/// reliable-broadcast instance and round.
#[derive(Debug)]
pub struct Signal {
    pub signal: SignalType,
    pub content: ObjectContent,
    pub instance_number: u32,
    pub round_number: u32,
}

/// Abstract value of a `Signal`.
#[verifier::ext_equal]
pub struct SignalModel {
    pub signal: SignalType,
    pub content: ObjectContentModel,
    pub instance_number: u32,
    pub round_number: u32,
}

impl View for Signal {
    type V = SignalModel;

    open spec fn view(&self) -> SignalModel {
        SignalModel {
            signal: self.signal,
            content: self.content@,
            instance_number: self.instance_number,
            round_number: self.round_number,
        }
    }
}

impl Clone for Signal {
    fn clone(&self) -> (r: Self)
        ensures
            r@ == self@,
    {
        Signal {
            signal: self.signal,
            content: self.content.clone(),
            instance_number: self.instance_number,
            round_number: self.round_number,
        }
    }
}

impl Signal {
    pub fn get_signal(&self) -> (r: &SignalType)
        ensures
            r == self.signal,
    {
        &self.signal
    }

    pub fn get_content(&self) -> (r: &ObjectContent)
        ensures
            r == self.content,
    {
        &self.content
    }

    pub fn get_instance_number(&self) -> (r: u32)
        ensures
            r == self.instance_number,
    {
        self.instance_number
    }

    pub fn get_round_number(&self) -> (r: u32)
        ensures
            r == self.round_number,
    {
        self.round_number
    }

    pub fn new(
        signal: SignalType,
        content: ObjectContent,
        instance_number: u32,
        round_number: u32,
    ) -> (r: Signal)
        ensures
            r == (Signal { signal, content, instance_number, round_number }),
    {
        Signal { signal, content, instance_number, round_number }
    }
}

/// Boolean milestones of one reliable-broadcast instance at one observer.
#[derive(Debug, Clone, Copy, PartialEq, Eq, Structural)]
pub struct ReliableInstanceState {
    pub echo: bool,
    pub vote: bool,
    pub deliver: bool,
}

impl ReliableInstanceState {
    pub fn new() -> (r: ReliableInstanceState)
        ensures
            r == (ReliableInstanceState { echo: false, vote: false, deliver: false }),
    {
        ReliableInstanceState { echo: false, vote: false, deliver: false }
    }
}

/// Signal tallies of one reliable-broadcast instance at one observer.
#[derive(Debug, Clone, Copy, PartialEq, Eq, Structural)]
pub struct ReliableInstanceCount {
    pub echo: u32,
    pub vote: u32,
}

impl ReliableInstanceCount {
    pub fn new() -> (r: ReliableInstanceCount)
        ensures
            r == (ReliableInstanceCount { echo: 0, vote: 0 }),
    {
        ReliableInstanceCount { echo: 0, vote: 0 }
    }
}

/// The full per-instance record: milestones and tallies.
#[derive(Debug, Clone, Copy, PartialEq, Eq, Structural)]
pub struct ReliableInstanceMonitor {
    pub state: ReliableInstanceState,
    pub count: ReliableInstanceCount,
}

impl ReliableInstanceMonitor {
    pub fn new() -> (r: ReliableInstanceMonitor)
        ensures
            r.state == (ReliableInstanceState { echo: false, vote: false, deliver: false }),
            r.count == (ReliableInstanceCount { echo: 0, vote: 0 }),
    {
        ReliableInstanceMonitor {
            state: ReliableInstanceState::new(),
            count: ReliableInstanceCount::new(),
        }
    }
}

/// The kind of entity a signal carries, one case per `ObjectContent` variant.
#[derive(Debug, Clone, Copy, PartialEq, Eq, Structural)]
pub enum ContentKind {
    Message,
    Report,
    AggregatedReport,
    BarycentricReport,
}

/// The kind of the carried entity.
pub open spec fn spec_content_kind(c: ObjectContentModel) -> ContentKind {
    match c {
        ObjectContentModel::Message(_) => ContentKind::Message,
        ObjectContentModel::Report(_) => ContentKind::Report,
        ObjectContentModel::AggregatedReport(_) => ContentKind::AggregatedReport,
        ObjectContentModel::BarycentricReport(_) => ContentKind::BarycentricReport,
    }
}

/// What makes one reliable-broadcast instance unique at one observer:
/// observer id, protocol tag, sender id, content kind, instance number and
/// round number.
#[derive(Debug)]
pub struct InstanceKey {
    pub observer: u32,
    pub protocol_information: String,
    pub sender: u32,
    pub kind: ContentKind,
    pub instance_number: u32,
    pub round_number: u32,
}

/// Abstract value of an `InstanceKey`.
#[verifier::ext_equal]
pub struct InstanceKeyModel {
    pub observer: u32,
    pub protocol_information: Seq<char>,
    pub sender: u32,
    pub kind: ContentKind,
    pub instance_number: u32,
    pub round_number: u32,
}

impl View for InstanceKey {
    type V = InstanceKeyModel;

    open spec fn view(&self) -> InstanceKeyModel {
        InstanceKeyModel {
            observer: self.observer,
            protocol_information: self.protocol_information@,
            sender: self.sender,
            kind: self.kind,
            instance_number: self.instance_number,
            round_number: self.round_number,
        }
    }
}

impl Clone for InstanceKey {
    fn clone(&self) -> (r: Self)
        ensures
            r == *self,
    {
        InstanceKey {
            observer: self.observer,
            protocol_information: self.protocol_information.clone(),
            sender: self.sender,
            kind: self.kind,
            instance_number: self.instance_number,
            round_number: self.round_number,
        }
    }
}

/// The key of the instance a signal belongs to, at the given observer.
pub open spec fn spec_instance_key(observer: u32, s: SignalModel) -> InstanceKeyModel {
    InstanceKeyModel {
        observer,
        protocol_information: spec_content_protocol(s.content),
        sender: spec_content_sender(s.content),
        kind: spec_content_kind(s.content),
        instance_number: s.instance_number,
        round_number: s.round_number,
    }
}

/// Build the instance key of `signal` at `observer`.
pub fn instance_key(observer: u32, signal: &Signal) -> (k: InstanceKey)
    ensures
        k@ == spec_instance_key(observer, signal@),
{
    let kind = match &signal.content {
        ObjectContent::Message(_) => ContentKind::Message,
        ObjectContent::Report(_) => ContentKind::Report,
        ObjectContent::AggregatedReport(_) => ContentKind::AggregatedReport,
        ObjectContent::BarycentricReport(_) => ContentKind::BarycentricReport,
    };
    InstanceKey {
        observer,
        protocol_information: signal.content.get_protocol_information().clone(),
        sender: signal.content.get_id(),
        kind,
        instance_number: signal.instance_number,
        round_number: signal.round_number,
    }
}

/// Equality of two instance keys, decided field by field.
pub fn instance_key_eq(a: &InstanceKey, b: &InstanceKey) -> (r: bool)
    ensures
        r == (a@ == b@),
{
    let r = a.observer == b.observer && a.protocol_information == b.protocol_information
        && a.sender == b.sender && a.kind == b.kind && a.instance_number == b.instance_number
        && a.round_number == b.round_number;
    proof {
        if r {
            assert(a@ == b@);
        }
    }
    r
}

/// What a single signal does to one instance monitor, with thresholds `v`
/// and `a`: the monitor after the step. Tallies are taken after the
/// increment, as the protocol requires.
pub open spec fn spec_rb_step_monitor(
    m: ReliableInstanceMonitor,
    phase: SignalType,
    v: u32,
    a: u32,
) -> ReliableInstanceMonitor {
    match phase {
        SignalType::Input => {
            if !m.state.echo {
                ReliableInstanceMonitor {
                    state: ReliableInstanceState { echo: true, ..m.state },
                    count: m.count,
                }
            } else {
                m
            }
        },
        SignalType::Echo => {
            let count = ReliableInstanceCount { echo: spec_sat_inc(m.count.echo), ..m.count };
            if count.echo >= v && !m.state.vote {
                ReliableInstanceMonitor {
                    state: ReliableInstanceState { vote: true, ..m.state },
                    count,
                }
            } else if count.echo >= a && !m.state.echo {
                ReliableInstanceMonitor {
                    state: ReliableInstanceState { echo: true, ..m.state },
                    count,
                }
            } else {
                ReliableInstanceMonitor { state: m.state, count }
            }
        },
        SignalType::Vote => {
            let count = ReliableInstanceCount { vote: spec_sat_inc(m.count.vote), ..m.count };
            if count.vote >= v && !m.state.deliver {
                ReliableInstanceMonitor {
                    state: ReliableInstanceState { deliver: true, ..m.state },
                    count,
                }
            } else if count.vote >= a && !m.state.vote {
                ReliableInstanceMonitor {
                    state: ReliableInstanceState { vote: true, ..m.state },
                    count,
                }
            } else {
                ReliableInstanceMonitor { state: m.state, count }
            }
        },
    }
}

/// The signal a step asks the observer to emit, or the delivery it performs.
#[derive(Debug, Clone, Copy, PartialEq, Eq, Structural)]
pub enum RbDecision {
    Nothing,
    EmitEcho,
    EmitVote,
    DeliverContent,
}

/// What a single signal makes the observer do, with thresholds `v` and `a`.
pub open spec fn spec_rb_decision(
    m: ReliableInstanceMonitor,
    phase: SignalType,
    v: u32,
    a: u32,
) -> RbDecision {
    match phase {
        SignalType::Input => {
            if !m.state.echo {
                RbDecision::EmitEcho
            } else {
                RbDecision::Nothing
            }
        },
        SignalType::Echo => {
            let echoes = spec_sat_inc(m.count.echo);
            if echoes >= v && !m.state.vote {
                RbDecision::EmitVote
            } else if echoes >= a && !m.state.echo {
                RbDecision::EmitEcho
            } else {
                RbDecision::Nothing
            }
        },
        SignalType::Vote => {
            let votes = spec_sat_inc(m.count.vote);
            if votes >= v && !m.state.deliver {
                RbDecision::DeliverContent
            } else if votes >= a && !m.state.vote {
                RbDecision::EmitVote
            } else {
                RbDecision::Nothing
            }
        },
    }
}

/// The outcome of handing one signal to the reliable-broadcast handler.
#[derive(Debug)]
pub enum RbStep {
    /// A second Input for a registered instance, or an Echo or Vote for an
    /// instance never registered: the handler must abort.
    Fatal,
    /// No threshold was crossed; nothing to do.
    Ignore,
    /// Broadcast this Echo signal to every participant.
    BroadcastEcho(Signal),
    /// Broadcast this Vote signal to every participant.
    BroadcastVote(Signal),
    /// Deliver this content towards the channel its protocol tag selects.
    Deliver(ObjectContent),
}

/// All instance monitors of one observer's reliable-broadcast handler,
/// keyed by instance key.
pub struct ReliableBroadcastMonitor {
    pub entries: Vec<(InstanceKey, ReliableInstanceMonitor)>,
}

impl View for ReliableBroadcastMonitor {
    type V = Seq<(InstanceKeyModel, ReliableInstanceMonitor)>;

    open spec fn view(&self) -> Seq<(InstanceKeyModel, ReliableInstanceMonitor)> {
        self.entries@.map_values(|p: (InstanceKey, ReliableInstanceMonitor)| (p.0@, p.1))
    }
}

/// Is some entry keyed `k`?
pub open spec fn spec_has_key(
    s: Seq<(InstanceKeyModel, ReliableInstanceMonitor)>,
    k: InstanceKeyModel,
) -> bool {
    exists|i: int| 0 <= i < s.len() && s[i].0 == k
}

/// The index of the entry keyed `k`.
pub open spec fn spec_key_index(
    s: Seq<(InstanceKeyModel, ReliableInstanceMonitor)>,
    k: InstanceKeyModel,
) -> int {
    choose|i: int| 0 <= i < s.len() && s[i].0 == k
}

/// The monitor stored under `k`.
pub open spec fn spec_monitor_of(
    s: Seq<(InstanceKeyModel, ReliableInstanceMonitor)>,
    k: InstanceKeyModel,
) -> ReliableInstanceMonitor {
    s[spec_key_index(s, k)].1
}

/// No two entries share a key: each reliable-broadcast instance is
/// registered at most once.
pub open spec fn spec_unique_keys(s: Seq<(InstanceKeyModel, ReliableInstanceMonitor)>) -> bool {
    forall|i: int, j: int| 0 <= i < j < s.len() ==> s[i].0 != s[j].0
}

impl ReliableBroadcastMonitor {
    /// Well-formed: instance keys are unique.
    pub open spec fn wf(&self) -> bool {
        spec_unique_keys(self@)
    }

    pub fn new() -> (r: ReliableBroadcastMonitor)
        ensures
            r@ == Seq::<(InstanceKeyModel, ReliableInstanceMonitor)>::empty(),
            r.wf(),
    {
        let r = ReliableBroadcastMonitor { entries: Vec::new() };
        proof {
            assert(r@ =~= Seq::<(InstanceKeyModel, ReliableInstanceMonitor)>::empty());
        }
        r
    }

    /// The position of the entry keyed `k`, if one exists.
    fn find(&self, k: &InstanceKey) -> (r: Option<usize>)
        ensures
            match r {
                Some(i) => i < self@.len() && self@[i as int].0 == k@,
                None => !spec_has_key(self@, k@),
            },
    {
        let mut i: usize = 0;
        while i < self.entries.len()
            invariant
                0 <= i <= self.entries.len(),
                self@.len() == self.entries.len(),
                forall|j: int| 0 <= j < i ==> self@[j].0 != k@,
                forall|j: int|
                    0 <= j < self@.len() ==> self@[j] == (self.entries@[j].0@, self.entries@[j].1),
            decreases self.entries.len() - i,
        {
            if instance_key_eq(&self.entries[i].0, k) {
                return Some(i);
            }
            i += 1;
        }
        None
    }

    /// The monitor registered for `k`, if the instance is known.
    pub fn get_monitor(&self, k: &InstanceKey) -> (r: Option<ReliableInstanceMonitor>)
        requires
            self.wf(),
        ensures
            match r {
                Some(m) => spec_has_key(self@, k@) && m == spec_monitor_of(self@, k@),
                None => !spec_has_key(self@, k@),
            },
    {
        match self.find(k) {
            Some(i) => {
                proof {
                    let j = spec_key_index(self@, k@);
                    assert(self@[i as int].0 == k@);
                    assert(0 <= j < self@.len() && self@[j].0 == k@);
                    assert(j == i as int);
                }
                Some(self.entries[i].1)
            },
            None => None,
        }
    }

    /// Feed one signal to the handler of `observer`, with validity
    /// threshold `v` and agreement threshold `a`.
    ///
    /// An Input registers a fresh instance and is echoed; a repeated Input,
    /// or an Echo or Vote for an unknown instance, is fatal. An Echo or
    /// Vote steps the instance monitor by the threshold rules and reports
    /// what the observer must emit or deliver.
    pub fn handle_signal(&mut self, observer: u32, v: u32, a: u32, signal: Signal) -> (step:
        RbStep)
        requires
            old(self).wf(),
        ensures
            final(self).wf(),
            ({
                let k = spec_instance_key(observer, signal@);
                let fatal = if signal@.signal == SignalType::Input {
                    spec_has_key(old(self)@, k)
                } else {
                    !spec_has_key(old(self)@, k)
                };
                &&& (step matches RbStep::Fatal <==> fatal)
                &&& fatal ==> final(self)@ == old(self)@
                &&& !fatal ==> {
                    let before = if signal@.signal == SignalType::Input {
                        ReliableInstanceMonitor {
                            state: ReliableInstanceState { echo: false, vote: false, deliver: false },
                            count: ReliableInstanceCount { echo: 0, vote: 0 },
                        }
                    } else {
                        spec_monitor_of(old(self)@, k)
                    };
                    let after = spec_rb_step_monitor(before, signal@.signal, v, a);
                    &&& spec_has_key(final(self)@, k)
                    &&& spec_monitor_of(final(self)@, k) == after
                    &&& (forall|k2: InstanceKeyModel|
                        k2 != k ==> spec_has_key(final(self)@, k2) == spec_has_key(
                            old(self)@,
                            k2,
                        ))
                    &&& (forall|k2: InstanceKeyModel|
                        k2 != k && spec_has_key(old(self)@, k2) ==> spec_monitor_of(
                            final(self)@,
                            k2,
                        ) == spec_monitor_of(old(self)@, k2))
                    &&& (match spec_rb_decision(before, signal@.signal, v, a) {
                        RbDecision::Nothing => step matches RbStep::Ignore,
                        RbDecision::EmitEcho => step matches RbStep::BroadcastEcho(e) && e@
                            == (SignalModel {
                            signal: SignalType::Echo,
                            content: signal@.content,
                            instance_number: signal@.instance_number,
                            round_number: signal@.round_number,
                        }),
                        RbDecision::EmitVote => step matches RbStep::BroadcastVote(e) && e@
                            == (SignalModel {
                            signal: SignalType::Vote,
                            content: signal@.content,
                            instance_number: signal@.instance_number,
                            round_number: signal@.round_number,
                        }),
                        RbDecision::DeliverContent => step matches RbStep::Deliver(c) && c@
                            == signal@.content,
                    })
                }
            }),
    {
        let k = instance_key(observer, &signal);
        let found = self.find(&k);
        let idx: usize;
        match signal.signal {
            SignalType::Input => {
                if found.is_some() {
                    return RbStep::Fatal;
                }
                idx = self.entries.len();
                let ghost old_view = self@;
                self.entries.push((k, ReliableInstanceMonitor::new()));
                proof {
                    let fresh = ReliableInstanceMonitor {
                        state: ReliableInstanceState { echo: false, vote: false, deliver: false },
                        count: ReliableInstanceCount { echo: 0, vote: 0 },
                    };
                    assert(self@ =~= old_view.push(
                        (spec_instance_key(observer, signal@), fresh),
                    ));
                    lemma_push_keeps_others(old_view, spec_instance_key(observer, signal@), fresh);
                }
            },
            _ => {
                match found {
                    Some(i) => {
                        idx = i;
                    },
                    None => {
                        return RbStep::Fatal;
                    },
                }
            },
        }
        let ghost k_model = spec_instance_key(observer, signal@);
        let ghost pre_view = self@;
        proof {
            assert(pre_view[idx as int].0 == k_model);
            let j = spec_key_index(pre_view, k_model);
            assert(0 <= j < pre_view.len() && pre_view[j].0 == k_model);
            assert(j == idx as int);
        }
        let m = self.entries[idx].1;
        let ghost before = m;
        // Step the monitor by the phase of the signal.
        let (stepped, step) = match signal.signal {
            SignalType::Input => {
                // A freshly registered instance has not echoed yet.
                let stepped = ReliableInstanceMonitor {
                    state: ReliableInstanceState { echo: true, ..m.state },
                    count: m.count,
                };
                let echo = Signal::new(
                    SignalType::Echo,
                    signal.content,
                    signal.instance_number,
                    signal.round_number,
                );
                (stepped, RbStep::BroadcastEcho(echo))
            },
            SignalType::Echo => {
                let echoes = if m.count.echo == u32::MAX {
                    m.count.echo
                } else {
                    m.count.echo + 1
                };
                let count = ReliableInstanceCount { echo: echoes, ..m.count };
                if echoes >= v && !m.state.vote {
                    let vote = Signal::new(
                        SignalType::Vote,
                        signal.content,
                        signal.instance_number,
                        signal.round_number,
                    );
                    (
                        ReliableInstanceMonitor {
                            state: ReliableInstanceState { vote: true, ..m.state },
                            count,
                        },
                        RbStep::BroadcastVote(vote),
                    )
                } else if echoes >= a && !m.state.echo {
                    let echo = Signal::new(
                        SignalType::Echo,
                        signal.content,
                        signal.instance_number,
                        signal.round_number,
                    );
                    (
                        ReliableInstanceMonitor {
                            state: ReliableInstanceState { echo: true, ..m.state },
                            count,
                        },
                        RbStep::BroadcastEcho(echo),
                    )
                } else {
                    (ReliableInstanceMonitor { state: m.state, count }, RbStep::Ignore)
                }
            },
            SignalType::Vote => {
                let votes = if m.count.vote == u32::MAX {
                    m.count.vote
                } else {
                    m.count.vote + 1
                };
                let count = ReliableInstanceCount { vote: votes, ..m.count };
                if votes >= v && !m.state.deliver {
                    (
                        ReliableInstanceMonitor {
                            state: ReliableInstanceState { deliver: true, ..m.state },
                            count,
                        },
                        RbStep::Deliver(signal.content),
                    )
                } else if votes >= a && !m.state.vote {
                    let vote = Signal::new(
                        SignalType::Vote,
                        signal.content,
                        signal.instance_number,
                        signal.round_number,
                    );
                    (
                        ReliableInstanceMonitor {
                            state: ReliableInstanceState { vote: true, ..m.state },
                            count,
                        },
                        RbStep::BroadcastVote(vote),
                    )
                } else {
                    (ReliableInstanceMonitor { state: m.state, count }, RbStep::Ignore)
                }
            },
        };
        let key_copy = self.entries[idx].0.clone();
        self.entries.set(idx, (key_copy, stepped));
        proof {
            assert(self@ =~= pre_view.update(idx as int, (pre_view[idx as int].0, stepped)));
            lemma_update_keeps_others(pre_view, idx as int, stepped, k_model);
            assert(stepped == spec_rb_step_monitor(before, signal@.signal, v, a));
        }
        step
    }
}

/// Where a delivered content must go at the base reliable layer.
#[derive(Debug)]
pub enum ReliableDelivery {
    /// Enqueue this message onto the observer's own basic queue.
    DeliverMessage(Message),
    /// The content kind cannot be delivered here: the handler must abort.
    Incompatible,
}

/// Decide where a content delivered by the base reliable layer goes: a
/// message is handed to the observer's own basic queue; any other kind is
/// incompatible with this layer and fatal.
pub fn dispatch_reliable_delivery(content: ObjectContent) -> (r: ReliableDelivery)
    ensures
        match content@ {
            ObjectContentModel::Message(m) => r matches ReliableDelivery::DeliverMessage(d) && d@
                == m,
            _ => r matches ReliableDelivery::Incompatible,
        },
{
    match content {
        ObjectContent::Message(m) => ReliableDelivery::DeliverMessage(m),
        _ => ReliableDelivery::Incompatible,
    }
}

/// Run a whole sequence of signal phases through one instance monitor.
pub open spec fn spec_rb_run(
    m: ReliableInstanceMonitor,
    phases: Seq<SignalType>,
    v: u32,
    a: u32,
) -> ReliableInstanceMonitor
    decreases phases.len(),
{
    if phases.len() == 0 {
        m
    } else {
        spec_rb_step_monitor(spec_rb_run(m, phases.drop_last(), v, a), phases.last(), v, a)
    }
}

/// How many of the phases equal `t`.
pub open spec fn spec_count_phase(phases: Seq<SignalType>, t: SignalType) -> nat
    decreases phases.len(),
{
    if phases.len() == 0 {
        0
    } else {
        spec_count_phase(phases.drop_last(), t) + (if phases.last() == t {
            1nat
        } else {
            0nat
        })
    }
}

/// A step never lowers a milestone flag: once an instance has echoed,
/// voted or delivered, it stays so.
pub proof fn lemma_rb_flags_monotone(
    m: ReliableInstanceMonitor,
    phase: SignalType,
    v: u32,
    a: u32,
)
    ensures
        m.state.echo ==> spec_rb_step_monitor(m, phase, v, a).state.echo,
        m.state.vote ==> spec_rb_step_monitor(m, phase, v, a).state.vote,
        m.state.deliver ==> spec_rb_step_monitor(m, phase, v, a).state.deliver,
{
}

/// Over a whole run the milestone flags only latch: once true after some
/// prefix, each stays true for every longer prefix. Each flag therefore
/// becomes true at most once.
pub proof fn lemma_rb_flags_latch(
    m: ReliableInstanceMonitor,
    phases: Seq<SignalType>,
    v: u32,
    a: u32,
    i: int,
    j: int,
)
    requires
        0 <= i <= j <= phases.len(),
    ensures
        spec_rb_run(m, phases.take(i), v, a).state.echo ==> spec_rb_run(
            m,
            phases.take(j),
            v,
            a,
        ).state.echo,
        spec_rb_run(m, phases.take(i), v, a).state.vote ==> spec_rb_run(
            m,
            phases.take(j),
            v,
            a,
        ).state.vote,
        spec_rb_run(m, phases.take(i), v, a).state.deliver ==> spec_rb_run(
            m,
            phases.take(j),
            v,
            a,
        ).state.deliver,
    decreases j - i,
{
    if i < j {
        lemma_rb_flags_latch(m, phases, v, a, i, j - 1);
        assert(phases.take(j).drop_last() =~= phases.take(j - 1));
        assert(phases.take(j).len() == j);
        lemma_rb_flags_monotone(spec_rb_run(m, phases.take(j - 1), v, a), phases.take(j).last(), v, a);
    }
}

/// An instance tallies no more echoes than the Echo signals it handled and
/// no more votes than the Vote signals it handled: starting fresh, after
/// at most one Echo and one Vote from each of `n` participants both
/// tallies stay at or below `n`.
pub proof fn lemma_rb_counts_bounded(
    m: ReliableInstanceMonitor,
    phases: Seq<SignalType>,
    v: u32,
    a: u32,
)
    ensures
        spec_rb_run(m, phases, v, a).count.echo <= m.count.echo + spec_count_phase(
            phases,
            SignalType::Echo,
        ),
        spec_rb_run(m, phases, v, a).count.vote <= m.count.vote + spec_count_phase(
            phases,
            SignalType::Vote,
        ),
    decreases phases.len(),
{
    if phases.len() > 0 {
        lemma_rb_counts_bounded(m, phases.drop_last(), v, a);
    }
}

/// Delivery happens only on the strength of at least `v` votes: whenever a
/// step decides to deliver, the vote tally after that step has reached the
/// validity threshold.
pub proof fn lemma_rb_deliver_needs_votes(
    m: ReliableInstanceMonitor,
    phase: SignalType,
    v: u32,
    a: u32,
)
    ensures
        spec_rb_decision(m, phase, v, a) == RbDecision::DeliverContent ==> phase
            == SignalType::Vote && spec_rb_step_monitor(m, phase, v, a).count.vote >= v
            && spec_rb_step_monitor(m, phase, v, a).state.deliver,
{
}

/// Registering a fresh key leaves every other key's presence and monitor
/// unchanged, and keeps keys unique.
proof fn lemma_push_keeps_others(
    s: Seq<(InstanceKeyModel, ReliableInstanceMonitor)>,
    k: InstanceKeyModel,
    m: ReliableInstanceMonitor,
)
    requires
        spec_unique_keys(s),
        !spec_has_key(s, k),
    ensures
        spec_unique_keys(s.push((k, m))),
        spec_has_key(s.push((k, m)), k),
        spec_monitor_of(s.push((k, m)), k) == m,
        forall|k2: InstanceKeyModel|
            k2 != k ==> spec_has_key(s.push((k, m)), k2) == spec_has_key(s, k2),
        forall|k2: InstanceKeyModel|
            k2 != k && spec_has_key(s, k2) ==> spec_monitor_of(s.push((k, m)), k2)
                == spec_monitor_of(s, k2),
{
    let t = s.push((k, m));
    assert(t[s.len() as int] == (k, m));
    assert(forall|i: int| 0 <= i < s.len() ==> t[i] == s[i]);
    assert forall|i: int, j: int| 0 <= i < j < t.len() implies t[i].0 != t[j].0 by {
        if j < s.len() {
            assert(s[i].0 != s[j].0);
        } else {
            assert(t[j].0 == k);
            assert(!(exists|i2: int| 0 <= i2 < s.len() && s[i2].0 == k));
        }
    }
    assert(spec_has_key(t, k));
    let j = spec_key_index(t, k);
    assert(0 <= j < t.len() && t[j].0 == k);
    if j != s.len() as int {
        assert(s[j].0 == k);
        assert(spec_has_key(s, k));
    }
    assert forall|k2: InstanceKeyModel| k2 != k implies spec_has_key(t, k2) == spec_has_key(
        s,
        k2,
    ) by {
        if spec_has_key(s, k2) {
            let j2 = spec_key_index(s, k2);
            assert(t[j2] == s[j2]);
            assert(spec_has_key(t, k2));
        }
        if spec_has_key(t, k2) {
            let j2 = spec_key_index(t, k2);
            assert(j2 != s.len() as int);
            assert(s[j2] == t[j2]);
            assert(spec_has_key(s, k2));
        }
    }
    assert forall|k2: InstanceKeyModel| k2 != k && spec_has_key(s, k2) implies spec_monitor_of(
        t,
        k2,
    ) == spec_monitor_of(s, k2) by {
        let j2 = spec_key_index(s, k2);
        assert(0 <= j2 < s.len() && s[j2].0 == k2);
        let j3 = spec_key_index(t, k2);
        assert(0 <= j3 < t.len() && t[j3].0 == k2);
        assert(j3 != s.len() as int);
        assert(t[j3] == s[j3]);
        assert(j3 == j2);
    }
}

/// Updating the monitor at a keyed index leaves every other key's presence
/// and monitor unchanged, and keeps keys unique.
proof fn lemma_update_keeps_others(
    s: Seq<(InstanceKeyModel, ReliableInstanceMonitor)>,
    i: int,
    m: ReliableInstanceMonitor,
    k: InstanceKeyModel,
)
    requires
        spec_unique_keys(s),
        0 <= i < s.len(),
        s[i].0 == k,
    ensures
        spec_unique_keys(s.update(i, (s[i].0, m))),
        spec_has_key(s.update(i, (s[i].0, m)), k),
        spec_monitor_of(s.update(i, (s[i].0, m)), k) == m,
        forall|k2: InstanceKeyModel|
            k2 != k ==> spec_has_key(s.update(i, (s[i].0, m)), k2) == spec_has_key(s, k2),
        forall|k2: InstanceKeyModel|
            k2 != k && spec_has_key(s, k2) ==> spec_monitor_of(s.update(i, (s[i].0, m)), k2)
                == spec_monitor_of(s, k2),
{
    let t = s.update(i, (s[i].0, m));
    assert(t[i].0 == k);
    assert(spec_has_key(t, k));
    let j = spec_key_index(t, k);
    assert(0 <= j < t.len() && t[j].0 == k);
    assert(j == i);
    assert forall|k2: InstanceKeyModel| k2 != k implies spec_has_key(t, k2) == spec_has_key(
        s,
        k2,
    ) by {
        if spec_has_key(s, k2) {
            let j2 = spec_key_index(s, k2);
            assert(t[j2] == s[j2]);
            assert(spec_has_key(t, k2));
        }
        if spec_has_key(t, k2) {
            let j2 = spec_key_index(t, k2);
            assert(s[j2] == t[j2]);
            assert(spec_has_key(s, k2));
        }
    }
    assert forall|k2: InstanceKeyModel| k2 != k && spec_has_key(s, k2) implies spec_monitor_of(
        t,
        k2,
    ) == spec_monitor_of(s, k2) by {
        let j2 = spec_key_index(s, k2);
        assert(0 <= j2 < s.len() && s[j2].0 == k2);
        assert(j2 != i);
        assert(t[j2] == s[j2]);
        let j3 = spec_key_index(t, k2);
        assert(0 <= j3 < t.len() && t[j3].0 == k2);
        assert(j3 != i);
        assert(t[j3] == s[j3]);
        assert(j3 == j2);
    }
}


/// Build the Input signal a reliable broadcast starts with: the payload
/// wrapped as a message under the plain-delivery tag, bound to the given
/// instance and round.
pub fn reliable_input_signal(
    sender: u32,
    message: String,
    instance_number: u32,
    round_number: u32,
) -> (r: Signal)
    ensures
        r@ == (SignalModel {
            signal: SignalType::Input,
            content: ObjectContentModel::Message(
                MessageModel {
                    protocol_information: "reliable"@,
                    id: sender,
                    message: message@,
                    dimension: Option::None,
                    instance_number: Option::Some(instance_number),
                    round_number,
                },
            ),
            instance_number,
            round_number,
        }),
{
    let tag = <String as vstd::string::StringExecFns>::from_str("reliable");
    let sent = Message::new(tag, sender, message, None, Some(instance_number), round_number);
    Signal::new(SignalType::Input, ObjectContent::Message(sent), instance_number, round_number)
}

/// Build the Input signal that reliably broadcasts a report.
pub fn report_input_signal(report: Report) -> (r: Signal)
    ensures
        r@ == (SignalModel {
            signal: SignalType::Input,
            content: ObjectContentModel::Report(report@),
            instance_number: report.instance_number,
            round_number: report.round_number,
        }),
{
    let instance_number = report.instance_number;
    let round_number = report.round_number;
    Signal::new(SignalType::Input, ObjectContent::Report(report), instance_number, round_number)
}

/// Build the Input signal that reliably broadcasts an aggregated report.
pub fn aggregated_report_input_signal(report: AggregatedReport) -> (r: Signal)
    ensures
        r@ == (SignalModel {
            signal: SignalType::Input,
            content: ObjectContentModel::AggregatedReport(report@),
            instance_number: report.instance_number,
            round_number: report.round_number,
        }),
{
    let instance_number = report.instance_number;
    let round_number = report.round_number;
    Signal::new(
        SignalType::Input,
        ObjectContent::AggregatedReport(report),
        instance_number,
        round_number,
    )
}

/// Build the Input signal that reliably broadcasts a barycentric report.
pub fn barycentric_report_input_signal(report: BarycentricReport) -> (r: Signal)
    ensures
        r@ == (SignalModel {
            signal: SignalType::Input,
            content: ObjectContentModel::BarycentricReport(report@),
            instance_number: report.instance_number,
            round_number: report.round_number,
        }),
{
    let instance_number = report.instance_number;
    let round_number = report.round_number;
    Signal::new(
        SignalType::Input,
        ObjectContent::BarycentricReport(report),
        instance_number,
        round_number,
    )
}

/// The printable form of a signal's instance identity at one observer:
/// the observer id, protocol tag, sender id, content kind and the two
/// numbers, joined by separators.
pub open spec fn spec_instance_id_string(observer: u32, s: SignalModel) -> Seq<char> {
    crate::codec::spec_dec_digits(observer as nat) + "::"@ + spec_content_protocol(s.content)
        + "::"@ + crate::codec::spec_dec_digits(spec_content_sender(s.content) as nat) + "::"@
        + spec_kind_word(spec_content_kind(s.content)) + "::"@ + crate::codec::spec_dec_digits(
        s.instance_number as nat,
    ) + "::"@ + crate::codec::spec_dec_digits(s.round_number as nat)
}

/// The word naming a content kind inside an instance identity.
pub open spec fn spec_kind_word(k: ContentKind) -> Seq<char> {
    match k {
        ContentKind::Message => "message"@,
        ContentKind::Report => "report"@,
        ContentKind::AggregatedReport => "aggregated report"@,
        ContentKind::BarycentricReport => "barycentric report"@,
    }
}

/// Render the instance identity of `signal` at `observer` as one string.
pub fn get_instance_id(thread_id: u32, signal: &Signal) -> (r: String)
    ensures
        r@ == spec_instance_id_string(thread_id, signal@),
{
    let mut out = crate::codec::dec_digits_string(thread_id as u64);
    out.append("::");
    out.append(signal.content.get_protocol_information().as_str());
    out.append("::");
    let sender = crate::codec::dec_digits_string(signal.content.get_id() as u64);
    out.append(sender.as_str());
    out.append("::");
    match &signal.content {
        ObjectContent::Message(_) => out.append("message"),
        ObjectContent::Report(_) => out.append("report"),
        ObjectContent::AggregatedReport(_) => out.append("aggregated report"),
        ObjectContent::BarycentricReport(_) => out.append("barycentric report"),
    }
    out.append("::");
    let instance = crate::codec::dec_digits_string(signal.instance_number as u64);
    out.append(instance.as_str());
    out.append("::");
    let round = crate::codec::dec_digits_string(signal.round_number as u64);
    out.append(round.as_str());
    proof {
        assert(out@ =~= spec_instance_id_string(thread_id, signal@));
    }
    out
}

} // verus!
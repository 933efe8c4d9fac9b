//! Basic substrate: the `Message` entity, the objects a participant can pull
//! off its inbound queues, and the per-sender queues themselves with
//! selective receive.
use vstd::prelude::*;

use crate::witness::Report;
use crate::witness::ReportModel;

verus! {

/// A single-sender payload in a round, tagged with the protocol it belongs to.
#[derive(Debug)]
pub struct Message {
    pub protocol_information: String,
    pub id: u32,
    pub message: String,
    pub dimension: Option<u32>,
    pub instance_number: Option<u32>,
    pub round_number: u32,
}

impl Message {
    pub fn get_protocol_information(&self) -> (r: &String)
        ensures
            r == self.protocol_information,
    {
        &self.protocol_information
    }

    pub fn get_id(&self) -> (r: u32)
        ensures
            r == self.id,
    {
        self.id
    }

    pub fn get_dimension(&self) -> (r: Option<u32>)
        ensures
            r == self.dimension,
    {
        self.dimension
    }

    pub fn get_message(&self) -> (r: &String)
        ensures
            r == self.message,
    {
        &self.message
    }

    pub fn get_instance_number(&self) -> (r: Option<u32>)
        ensures
            r == self.instance_number,
    {
        self.instance_number
    }

    pub fn get_round_number(&self) -> (r: u32)
        ensures
            r == self.round_number,
    {
        self.round_number
    }

    pub fn new(
        protocol_information: String,
        id: u32,
        message: String,
        dimension: Option<u32>,
        instance_number: Option<u32>,
        round_number: u32,
    ) -> (r: Message)
        ensures
            r == (Message {
                protocol_information,
                id,
                message,
                dimension,
                instance_number,
                round_number,
            }),
    {
        Message { protocol_information, id, message, dimension, instance_number, round_number }
    }
}

/// Abstract value of a `Message`: the same fields with strings as
/// character sequences.
#[verifier::ext_equal]
pub struct MessageModel {
    pub protocol_information: Seq<char>,
    pub id: u32,
    pub message: Seq<char>,
    pub dimension: Option<u32>,
    pub instance_number: Option<u32>,
    pub round_number: u32,
}

impl View for Message {
    type V = MessageModel;

    open spec fn view(&self) -> MessageModel {
        MessageModel {
            protocol_information: self.protocol_information@,
            id: self.id,
            message: self.message@,
            dimension: self.dimension,
            instance_number: self.instance_number,
            round_number: self.round_number,
        }
    }
}

impl Clone for Message {
    fn clone(&self) -> (r: Self)
        ensures
            r == *self,
    {
        Message {
            protocol_information: self.protocol_information.clone(),
            id: self.id,
            message: self.message.clone(),
            dimension: self.dimension,
            instance_number: self.instance_number,
            round_number: self.round_number,
        }
    }
}

/// Equality of two messages, decided field by field.
pub fn message_eq(a: &Message, b: &Message) -> (r: bool)
    ensures
        r == (a@ == b@),
{
    let r = a.protocol_information == b.protocol_information && a.id == b.id && a.message
        == b.message && a.dimension == b.dimension && a.instance_number == b.instance_number
        && a.round_number == b.round_number;
    proof {
        if r {
            assert(a@ == b@);
        }
    }
    r
}

/// Copy a message vector; the copy holds the same message values.
pub fn clone_messages(v: &Vec<Message>) -> (r: Vec<Message>)
    ensures
        r@ == v@,
{
    let r = v.clone();
    proof {
        assert(r@ =~= v@);
    }
    r
}

/// Does `v` hold a message equal to `m`?
pub open spec fn spec_contains_message(v: Seq<MessageModel>, m: MessageModel) -> bool {
    exists|i: int| 0 <= i < v.len() && v[i] == m
}

/// Linear search for `m` in `v` by `message_eq`.
pub fn contains_message(v: &Vec<Message>, m: &Message) -> (r: bool)
    ensures
        r == spec_contains_message(v@.map_values(|x: Message| x@), m@),
{
    let ghost models = v@.map_values(|x: Message| x@);
    let mut i: usize = 0;
    while i < v.len()
        invariant
            0 <= i <= v.len(),
            models == v@.map_values(|x: Message| x@),
            forall|j: int| 0 <= j < i ==> models[j] != m@,
        decreases v.len() - i,
    {
        if message_eq(&v[i], m) {
            assert(models[i as int] == m@);
            return true;
        }
        i += 1;
    }
    false
}

/// Build the message a basic send or broadcast carries.
pub fn basic_message(sender: u32, message: String, round_number: u32) -> (m: Message)
    ensures
        m@ == (MessageModel {
            protocol_information: "basic"@,
            id: sender,
            message: message@,
            dimension: Option::None,
            instance_number: Option::None,
            round_number,
        }),
{
    let tag = <String as vstd::string::StringExecFns>::from_str("basic");
    Message::new(tag, sender, message, None, None, round_number)
}

/// The recipients of a broadcast among `n` participants: every id from 0
/// up to `n`, the sender's own included.
pub fn broadcast_targets(n: u32) -> (r: Vec<u32>)
    ensures
        r@.len() == n,
        forall|i: int| 0 <= i < n ==> r@[i] == i,
{
    let mut r: Vec<u32> = Vec::new();
    let mut i: u32 = 0;
    while i < n
        invariant
            0 <= i <= n,
            r@.len() == i,
            forall|j: int| 0 <= j < i ==> r@[j] == j,
        decreases n - i,
    {
        r.push(i);
        i += 1;
    }
    r
}

/// One object a participant can pull off its inbound queues: a single
/// message, or a report standing for a collection of messages.
#[derive(Debug)]
pub enum RecvObject {
    Message(Message),
    Collection(Report),
}

/// Abstract value of a `RecvObject`.
#[verifier::ext_equal]
pub enum RecvObjectModel {
    Message(MessageModel),
    Collection(ReportModel),
}

impl View for RecvObject {
    type V = RecvObjectModel;

    open spec fn view(&self) -> RecvObjectModel {
        match self {
            RecvObject::Message(m) => RecvObjectModel::Message(m@),
            RecvObject::Collection(q) => RecvObjectModel::Collection(q@),
        }
    }
}

/// The abstract values of a queue's objects, in order.
pub open spec fn spec_queue_view(q: Seq<RecvObject>) -> Seq<RecvObjectModel> {
    q.map_values(|o: RecvObject| o@)
}

/// The sender id recorded inside the received object.
pub open spec fn spec_recv_id(o: RecvObjectModel) -> u32 {
    match o {
        RecvObjectModel::Message(m) => m.id,
        RecvObjectModel::Collection(q) => q.id,
    }
}

/// The protocol tag recorded inside the received object.
pub open spec fn spec_recv_protocol(o: RecvObjectModel) -> Seq<char> {
    match o {
        RecvObjectModel::Message(m) => m.protocol_information,
        RecvObjectModel::Collection(q) => q.protocol_information,
    }
}

/// The instance number recorded inside the received object; a report
/// always carries one.
pub open spec fn spec_recv_instance(o: RecvObjectModel) -> Option<u32> {
    match o {
        RecvObjectModel::Message(m) => m.instance_number,
        RecvObjectModel::Collection(q) => Option::Some(q.instance_number),
    }
}

/// The round number recorded inside the received object.
pub open spec fn spec_recv_round(o: RecvObjectModel) -> u32 {
    match o {
        RecvObjectModel::Message(m) => m.round_number,
        RecvObjectModel::Collection(q) => q.round_number,
    }
}

impl RecvObject {
    pub fn get_id(&self) -> (r: u32)
        ensures
            r == spec_recv_id(self@),
    {
        match self {
            RecvObject::Message(m) => m.id,
            RecvObject::Collection(q) => q.id,
        }
    }

    pub fn get_protocol_information(&self) -> (r: &String)
        ensures
            r@ == spec_recv_protocol(self@),
    {
        match self {
            RecvObject::Message(m) => &m.protocol_information,
            RecvObject::Collection(q) => &q.protocol_information,
        }
    }

    pub fn get_instance_number(&self) -> (r: Option<u32>)
        ensures
            r == spec_recv_instance(self@),
    {
        match self {
            RecvObject::Message(m) => m.instance_number,
            RecvObject::Collection(q) => Some(q.instance_number),
        }
    }

    pub fn get_round_number(&self) -> (r: u32)
        ensures
            r == spec_recv_round(self@),
    {
        match self {
            RecvObject::Message(m) => m.round_number,
            RecvObject::Collection(q) => q.round_number,
        }
    }
}

/// Does the object answer a receive for this protocol tag, instance and
/// round?
pub open spec fn spec_recv_matches(
    o: RecvObjectModel,
    protocol: Seq<char>,
    instance: Option<u32>,
    round: u32,
) -> bool {
    spec_recv_protocol(o) == protocol && spec_recv_instance(o) == instance && spec_recv_round(o)
        == round
}

/// The position of the first object in the queue that answers the
/// receive, if any does.
pub open spec fn spec_first_match(
    q: Seq<RecvObjectModel>,
    protocol: Seq<char>,
    instance: Option<u32>,
    round: u32,
) -> Option<int>
    decreases q.len(),
{
    if q.len() == 0 {
        Option::None
    } else if spec_recv_matches(q[0], protocol, instance, round) {
        Option::Some(0)
    } else {
        match spec_first_match(q.skip(1), protocol, instance, round) {
            Option::Some(i) => Option::Some(i + 1),
            Option::None => Option::None,
        }
    }
}

/// A forward scan that found no match before `i`, and a match at `i` if
/// `i` is in range, pins down the first match.
proof fn lemma_first_match_scan(
    q: Seq<RecvObjectModel>,
    protocol: Seq<char>,
    instance: Option<u32>,
    round: u32,
    i: int,
)
    requires
        0 <= i <= q.len(),
        forall|j: int| 0 <= j < i ==> !spec_recv_matches(#[trigger] q[j], protocol, instance, round),
        i < q.len() ==> spec_recv_matches(q[i], protocol, instance, round),
    ensures
        spec_first_match(q, protocol, instance, round) == (if i < q.len() {
            Option::Some(i)
        } else {
            Option::<int>::None
        }),
    decreases i + 1,
{
    if q.len() == 0 {
    } else if i == 0 {
        if q.len() > 0 && !spec_recv_matches(q[0], protocol, instance, round) {
        }
    } else {
        assert(!spec_recv_matches(q[0], protocol, instance, round));
        let t = q.skip(1);
        assert(forall|j: int|
            0 <= j < i - 1 ==> !spec_recv_matches(#[trigger] t[j], protocol, instance, round));
        assert(i - 1 < t.len() ==> spec_recv_matches(t[i - 1], protocol, instance, round));
        lemma_first_match_scan(t, protocol, instance, round, i - 1);
    }
}

/// The position of the first queue holding an object that answers the
/// receive, if any does.
pub open spec fn spec_first_queue(
    qs: Seq<Seq<RecvObjectModel>>,
    protocol: Seq<char>,
    instance: Option<u32>,
    round: u32,
) -> Option<int>
    decreases qs.len(),
{
    if qs.len() == 0 {
        Option::None
    } else if spec_first_match(qs[0], protocol, instance, round) is Some {
        Option::Some(0)
    } else {
        match spec_first_queue(qs.skip(1), protocol, instance, round) {
            Option::Some(k) => Option::Some(k + 1),
            Option::None => Option::None,
        }
    }
}

/// A forward scan that found no matching queue before `k`, and a match in
/// queue `k` if `k` is in range, pins down the first matching queue.
proof fn lemma_first_queue_scan(
    qs: Seq<Seq<RecvObjectModel>>,
    protocol: Seq<char>,
    instance: Option<u32>,
    round: u32,
    k: int,
)
    requires
        0 <= k <= qs.len(),
        forall|k2: int|
            0 <= k2 < k ==> spec_first_match(#[trigger] qs[k2], protocol, instance, round)
                is None,
        k < qs.len() ==> spec_first_match(qs[k], protocol, instance, round) is Some,
    ensures
        spec_first_queue(qs, protocol, instance, round) == (if k < qs.len() {
            Option::Some(k)
        } else {
            Option::<int>::None
        }),
    decreases k + 1,
{
    if qs.len() == 0 {
    } else if k == 0 {
    } else {
        assert(spec_first_match(qs[0], protocol, instance, round) is None);
        let t = qs.skip(1);
        assert(forall|k2: int|
            0 <= k2 < k - 1 ==> spec_first_match(#[trigger] t[k2], protocol, instance, round)
                is None);
        assert(k - 1 < t.len() ==> spec_first_match(t[k - 1], protocol, instance, round)
            is Some);
        lemma_first_queue_scan(t, protocol, instance, round, k - 1);
    }
}

/// The per-sender inbound queues of one participant, indexed by sender
/// id.
#[derive(Debug)]
pub struct BasicQueues {
    pub queues: Vec<Vec<RecvObject>>,
}

impl View for BasicQueues {
    type V = Seq<Seq<RecvObjectModel>>;

    open spec fn view(&self) -> Seq<Seq<RecvObjectModel>> {
        self.queues@.map_values(|q: Vec<RecvObject>| spec_queue_view(q@))
    }
}

impl BasicQueues {
    /// One empty queue per participant.
    pub fn new(thread_count: u32) -> (r: BasicQueues)
        ensures
            r@.len() == thread_count,
            forall|i: int| 0 <= i < thread_count ==> (#[trigger] r@[i]).len() == 0,
    {
        let mut queues: Vec<Vec<RecvObject>> = Vec::new();
        let mut i: u32 = 0;
        while i < thread_count
            invariant
                0 <= i <= thread_count,
                queues@.len() == i,
                forall|j: int|
                    0 <= j < i ==> (#[trigger] queues@[j])@.map_values(|o: RecvObject| o@).len()
                        == 0,
            decreases thread_count - i,
        {
            queues.push(Vec::new());
            i += 1;
        }
        BasicQueues { queues }
    }

    /// The queues, for a caller that wants to inspect or drain them.
    pub fn get_queues(&mut self) -> (r: &mut Vec<Vec<RecvObject>>)
        ensures
            *r == old(self).queues,
            final(self).queues == *final(r),
    {
        &mut self.queues
    }

    /// File a decoded object under its sender's queue. Fails, leaving
    /// the queues unchanged, exactly when the sender id is outside the
    /// participant range.
    pub fn store_message(&mut self, object: RecvObject) -> (ok: bool)
        ensures
            ok == (spec_recv_id(object@) < old(self)@.len()),
            ok ==> final(self)@ == old(self)@.update(
                spec_recv_id(object@) as int,
                old(self)@[spec_recv_id(object@) as int].push(object@),
            ),
            !ok ==> final(self)@ == old(self)@,
    {
        let id = object.get_id() as usize;
        if id >= self.queues.len() {
            return false;
        }
        let ghost pre = self@;
        let ghost qid = id as int;
        let mut queue = self.queues.remove(id);
        queue.push(object);
        self.queues.insert(id, queue);
        proof {
            assert(self@ =~~= pre.update(qid, pre[qid].push(object@)));
        }
        true
    }

    /// Remove and return the first object of the queue that answers the
    /// receive, if any does.
    pub fn retrieve_message(
        queue: &mut Vec<RecvObject>,
        protocol_information: &String,
        instance_number: Option<u32>,
        round_number: u32,
    ) -> (r: Option<RecvObject>)
        ensures
            ({
                let q0 = spec_queue_view(old(queue)@);
                match spec_first_match(q0, protocol_information@, instance_number, round_number) {
                    Option::Some(i) => r matches Some(o) && o@ == q0[i]
                        && spec_queue_view(final(queue)@) == q0.remove(i),
                    Option::None => r is None && spec_queue_view(final(queue)@) == q0,
                }
            }),
    {
        let ghost q0 = spec_queue_view(queue@);
        let mut i: usize = 0;
        while i < queue.len()
            invariant
                0 <= i <= queue.len(),
                q0 == spec_queue_view(queue@),
                q0 == spec_queue_view(old(queue)@),
                forall|j: int|
                    0 <= j < i ==> !spec_recv_matches(
                        #[trigger] q0[j],
                        protocol_information@,
                        instance_number,
                        round_number,
                    ),
            decreases queue.len() - i,
        {
            let object = &queue[i];
            let matches_here = *object.get_protocol_information() == *protocol_information
                && object.get_instance_number() == instance_number && object.get_round_number()
                == round_number;
            proof {
                assert(matches_here == spec_recv_matches(
                    q0[i as int],
                    protocol_information@,
                    instance_number,
                    round_number,
                ));
            }
            if matches_here {
                proof {
                    lemma_first_match_scan(
                        q0,
                        protocol_information@,
                        instance_number,
                        round_number,
                        i as int,
                    );
                }
                let removed = queue.remove(i);
                proof {
                    assert(spec_first_match(
                        q0,
                        protocol_information@,
                        instance_number,
                        round_number,
                    ) == Option::Some(i as int));
                    assert(removed@ == q0[i as int]);
                    assert(spec_queue_view(queue@) =~= q0.remove(i as int));
                }
                return Some(removed);
            }
            i += 1;
        }
        proof {
            lemma_first_match_scan(
                q0,
                protocol_information@,
                instance_number,
                round_number,
                queue.len() as int,
            );
        }
        None
    }

    /// Scan for the first object that answers the receive: in the named
    /// sender's queue if one is given, else across all queues in id
    /// order. The object found is removed; `None` means nothing matches
    /// yet and the caller must wait for more traffic.
    #[verifier::rlimit(60)]
    pub fn try_receive(
        &mut self,
        id: Option<u32>,
        protocol_information: &String,
        instance_number: Option<u32>,
        round_number: u32,
    ) -> (r: Option<RecvObject>)
        requires
            id matches Some(i) ==> (i as int) < old(self)@.len(),
        ensures
            ({
                match id {
                    Some(qi) => {
                        let q0 = old(self)@[qi as int];
                        match spec_first_match(
                            q0,
                            protocol_information@,
                            instance_number,
                            round_number,
                        ) {
                            Option::Some(j) => r matches Some(o) && o@ == q0[j]
                                && final(self)@ == old(self)@.update(qi as int, q0.remove(j)),
                            Option::None => r is None && final(self)@ == old(self)@,
                        }
                    },
                    None => {
                        match spec_first_queue(
                            old(self)@,
                            protocol_information@,
                            instance_number,
                            round_number,
                        ) {
                            Option::Some(k) => {
                                match spec_first_match(
                                    old(self)@[k],
                                    protocol_information@,
                                    instance_number,
                                    round_number,
                                ) {
                                    Option::Some(j) => r matches Some(o) && o@ == old(
                                        self,
                                    )@[k][j] && final(self)@ == old(self)@.update(
                                        k,
                                        old(self)@[k].remove(j),
                                    ),
                                    Option::None => false,
                                }
                            },
                            Option::None => r is None && final(self)@ == old(self)@,
                        }
                    },
                }
            }),
    {
        match id {
            Some(qi) => {
                let qi = qi as usize;
                let ghost pre = self@;
                let mut queue = self.queues.remove(qi);
                let found = Self::retrieve_message(
                    &mut queue,
                    protocol_information,
                    instance_number,
                    round_number,
                );
                self.queues.insert(qi, queue);
                proof {
                    match spec_first_match(
                        pre[qi as int],
                        protocol_information@,
                        instance_number,
                        round_number,
                    ) {
                        Option::Some(j) => {
                            assert(self@ =~~= pre.update(qi as int, pre[qi as int].remove(j)));
                        },
                        Option::None => {
                            assert(self@ =~~= pre);
                        },
                    }
                }
                found
            },
            None => {
                let ghost pre = self@;
                let mut k: usize = 0;
                while k < self.queues.len()
                    invariant
                        id is None,
                        0 <= k <= self.queues.len(),
                        pre == old(self)@,
                        self@ == pre,
                        self@.len() == self.queues.len(),
                        forall|k2: int|
                            0 <= k2 < k ==> spec_first_match(
                                #[trigger] pre[k2],
                                protocol_information@,
                                instance_number,
                                round_number,
                            ) is None,
                    decreases self.queues.len() - k,
                {
                    let mut queue = self.queues.remove(k);
                    let found = Self::retrieve_message(
                        &mut queue,
                        protocol_information,
                        instance_number,
                        round_number,
                    );
                    self.queues.insert(k, queue);
                    match found {
                        Some(object) => {
                            proof {
                                let j = spec_first_match(
                                    pre[k as int],
                                    protocol_information@,
                                    instance_number,
                                    round_number,
                                )->0;
                                assert(self@ =~~= pre.update(
                                    k as int,
                                    pre[k as int].remove(j),
                                ));
                                lemma_first_queue_scan(
                                    pre,
                                    protocol_information@,
                                    instance_number,
                                    round_number,
                                    k as int,
                                );
                                assert(object@ == old(self)@[k as int][j]);
                            }
                            return Some(object);
                        },
                        None => {
                            proof {
                                assert(self@ =~~= pre);
                            }
                        },
                    }
                    k += 1;
                }
                proof {
                    lemma_first_queue_scan(
                        pre,
                        protocol_information@,
                        instance_number,
                        round_number,
                        pre.len() as int,
                    );
                }
                None
            },
        }
    }
}

} // verus!

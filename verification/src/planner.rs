//! The collective planner: message-id derivation from a local counter state,
//! and the per-kind send/receive fan-out of each collective call.
//!
//! The planner turns one collective call into a plan — a list of send,
//! receive and consistency-check actions — that the transport layer executes.
//! Message ids are derived from a digest over the call's communicators and
//! metadata and a counter per digest, so that peers running the same call
//! sequence derive the same ids without exchanging state.

use vstd::bytes::{spec_u64_from_le_bytes, u64_from_le_bytes};
use vstd::prelude::*;
use vstd::slice::slice_subrange;

use crate::communicator::Communicator;
use crate::crypto::{hash, sha256_of};
use crate::kind::MessageKind;
use crate::codec::bytes_eq;
use crate::communicator::seq_without_two;
use crate::metadata::{
    message_id_input, AllGather, AllToAll, Broadcast, Collective, ConsistencyCheck, Gather,
    Message,
};
use crate::{MessageDatatype, MessageID, PartyID};

verus! {

/// A counter key: the digest input's kind and datatype, and the digest itself.
pub type CounterKey = (MessageKind, MessageDatatype, Seq<u8>);

/// One local counter: how often a (kind, datatype, digest) tuple was used.
struct CounterEntry {
    kind: MessageKind,
    datatype: MessageDatatype,
    digest: Vec<u8>,
    counter: u64,
}

/// The key of one counter entry.
spec fn entry_key(e: &CounterEntry) -> CounterKey {
    (e.kind, e.datatype, e.digest@)
}

/// The counter map built from a list of entries, where a later entry for the
/// same key replaces an earlier one.
spec fn counters_map(entries: Seq<CounterEntry>) -> Map<CounterKey, u64>
    decreases entries.len(),
{
    if entries.len() == 0 {
        Map::<CounterKey, u64>::empty()
    } else {
        counters_map(entries.drop_last()).insert(
            entry_key(&entries.last()),
            entries.last().counter,
        )
    }
}

/// No two entries share a key.
spec fn unique_keys(entries: Seq<CounterEntry>) -> bool {
    forall|i: int, j: int| 0 <= i < j < entries.len() ==> entry_key(&entries[i]) != entry_key(
        &entries[j],
    )
}

proof fn lemma_counters_map_last_match(entries: Seq<CounterEntry>, j: int)
    requires
        0 <= j < entries.len(),
        forall|k: int| j < k < entries.len() ==> entry_key(&entries[k]) != entry_key(&entries[j]),
    ensures
        counters_map(entries).contains_key(entry_key(&entries[j])),
        counters_map(entries)[entry_key(&entries[j])] == entries[j].counter,
    decreases entries.len(),
{
    if j + 1 < entries.len() {
        assert(entries.drop_last()[j] == entries[j]);
        lemma_counters_map_last_match(entries.drop_last(), j);
    }
}

proof fn lemma_counters_map_no_match(entries: Seq<CounterEntry>, key: CounterKey)
    requires
        forall|k: int| 0 <= k < entries.len() ==> entry_key(&entries[k]) != key,
    ensures
        !counters_map(entries).contains_key(key),
    decreases entries.len(),
{
    if entries.len() > 0 {
        lemma_counters_map_no_match(entries.drop_last(), key);
    }
}

proof fn lemma_counters_map_remove(entries: Seq<CounterEntry>, j: int)
    requires
        0 <= j < entries.len(),
        unique_keys(entries),
    ensures
        counters_map(entries.remove(j)) == counters_map(entries).remove(entry_key(&entries[j])),
    decreases entries.len(),
{
    let key = entry_key(&entries[j]);
    if j == entries.len() - 1 {
        assert(entries.remove(j) == entries.drop_last());
        lemma_counters_map_no_match(entries.drop_last(), key);
        assert(counters_map(entries).remove(key) =~= counters_map(entries.drop_last()));
    } else {
        assert(entries.remove(j).drop_last() =~= entries.drop_last().remove(j));
        assert(entries.remove(j).last() == entries.last());
        lemma_counters_map_remove(entries.drop_last(), j);
        assert(entries.drop_last()[j] == entries[j]);
        assert(counters_map(entries.remove(j)) =~= counters_map(entries).remove(key));
    }
}

/// The counter value one use of a key leads to: the previous value plus one
/// (wrapping), or one for a key never used.
pub open spec fn spec_counter_after(counters: Map<CounterKey, u64>, key: CounterKey) -> u64 {
    if counters.contains_key(key) {
        vstd::wrapping::u64_specs::wrapping_add(counters[key], 1)
    } else {
        1u64
    }
}

/// The message id derived from a digest and its updated counter: the first
/// eight digest bytes read little-endian, plus the counter, wrapping.
pub open spec fn spec_id_of(digest: Seq<u8>, counter: u64) -> MessageID {
    vstd::wrapping::u64_specs::wrapping_add(
        spec_u64_from_le_bytes(digest.subrange(0, 8)),
        counter,
    )
}

/// What one message-id derivation yields over the digest input bytes: the id,
/// and the counter state after it.
pub open spec fn spec_next_message_id(
    counters: Map<CounterKey, u64>,
    kind: MessageKind,
    datatype: MessageDatatype,
    input: Seq<u8>,
) -> (MessageID, Map<CounterKey, u64>) {
    let digest = sha256_of(input);
    let key = (kind, datatype, digest);
    let counter = spec_counter_after(counters, key);
    (spec_id_of(digest, counter), counters.insert(key, counter))
}

/// One message-id derivation of a collective call, as recorded in a planner's
/// history: the collective and the two communicators.
pub struct IdCall {
    pub collective: Collective,
    pub senders: Seq<PartyID>,
    pub receivers: Seq<PartyID>,
}

/// The counter state a sequence of derivations leads to, starting from none.
pub open spec fn spec_counters_after(calls: Seq<IdCall>) -> Map<CounterKey, u64>
    decreases calls.len(),
{
    if calls.len() == 0 {
        Map::<CounterKey, u64>::empty()
    } else {
        let call = calls.last();
        spec_next_message_id(
            spec_counters_after(calls.drop_last()),
            call.collective.spec_kind(),
            call.collective.spec_datatype(),
            message_id_input(call.collective, call.senders, call.receivers),
        ).1
    }
}

/// The message ids a sequence of derivations yields, starting from no
/// counters. The trace is a function of the calls alone: no party id enters
/// the derivation.
pub open spec fn spec_message_id_trace(calls: Seq<IdCall>) -> Seq<MessageID>
    decreases calls.len(),
{
    if calls.len() == 0 {
        Seq::<MessageID>::empty()
    } else {
        let call = calls.last();
        spec_message_id_trace(calls.drop_last()).push(
            spec_next_message_id(
                spec_counters_after(calls.drop_last()),
                call.collective.spec_kind(),
                call.collective.spec_datatype(),
                message_id_input(call.collective, call.senders, call.receivers),
            ).0,
        )
    }
}

/// Estimated network usage: payload bytes enqueued for sending and receiving,
/// and the number of collective calls.
#[derive(PartialEq, Eq, Structural, Debug, Clone, Copy)]
pub struct NetworkStatistics {
    pub sent: u64,
    pub received: u64,
    pub rounds: u64,
}

impl NetworkStatistics {
    #[must_use]
    pub fn new() -> (r: NetworkStatistics)
        ensures
            r == (NetworkStatistics { sent: 0u64, received: 0u64, rounds: 0u64 }),
    {
        NetworkStatistics { sent: 0, received: 0, rounds: 0 }
    }
}

impl Default for NetworkStatistics {
    fn default() -> (r: NetworkStatistics)
        ensures
            r == (NetworkStatistics { sent: 0u64, received: 0u64, rounds: 0u64 }),
    {
        NetworkStatistics::new()
    }
}

/// The local planner state of one runtime: its party id, its message-id
/// counters together with the history that produced them, its statistics, and
/// whether the consistency feature is on.
pub struct Planner {
    id: PartyID,
    counters: Vec<CounterEntry>,
    statistics: NetworkStatistics,
    consistency: bool,
    history: Ghost<Seq<IdCall>>,
}

impl Planner {
    /// The counters reflect exactly the recorded history of derivations.
    pub closed spec fn wf(&self) -> bool {
        &&& unique_keys(self.spec_entries())
        &&& counters_map(self.spec_entries()) == spec_counters_after(self.history@)
    }

    closed spec fn spec_entries(&self) -> Seq<CounterEntry> {
        self.counters@
    }

    /// The history of message-id derivations this planner has performed.
    pub closed spec fn spec_history(&self) -> Seq<IdCall> {
        self.history@
    }

    /// This planner's own party id.
    pub closed spec fn spec_id(&self) -> PartyID {
        self.id
    }

    /// Whether the consistency feature is on.
    pub closed spec fn spec_consistency(&self) -> bool {
        self.consistency
    }

    /// The current statistics.
    pub closed spec fn spec_statistics(&self) -> NetworkStatistics {
        self.statistics
    }

    /// A fresh planner for one party, with no derivations recorded.
    pub fn new(id: PartyID, consistency: bool) -> (r: Planner)
        ensures
            r.wf(),
            r.spec_id() == id,
            r.spec_consistency() == consistency,
            r.spec_history() == Seq::<IdCall>::empty(),
            r.spec_statistics() == (NetworkStatistics { sent: 0u64, received: 0u64, rounds: 0u64 }),
    {
        let r = Planner {
            id,
            counters: Vec::new(),
            statistics: NetworkStatistics::new(),
            consistency,
            history: Ghost(Seq::empty()),
        };
        r
    }

    /// This planner's own party id.
    pub fn id(&self) -> (r: PartyID)
        ensures
            r == self.spec_id(),
    {
        self.id
    }

    /// The current statistics.
    pub fn network_statistics(&self) -> (r: NetworkStatistics)
        ensures
            r == self.spec_statistics(),
    {
        self.statistics
    }

    /// Find the entry of a counter key, if one exists.
    fn find_counter(
        &self,
        kind: MessageKind,
        datatype: MessageDatatype,
        digest: &Vec<u8>,
    ) -> (r: Option<usize>)
        ensures
            match r {
                Some(j) => j < self.spec_entries().len() && entry_key(
                    &self.spec_entries()[j as int],
                ) == (kind, datatype, digest@),
                None => forall|k: int|
                    0 <= k < self.spec_entries().len() ==> entry_key(&self.spec_entries()[k]) != (
                        kind,
                        datatype,
                        digest@,
                    ),
            },
    {
        let mut i: usize = 0;
        while i < self.counters.len()
            invariant
                i <= self.counters@.len(),
                forall|k: int| 0 <= k < i ==> entry_key(&self.counters@[k]) != (
                    kind,
                    datatype,
                    digest@,
                ),
            decreases self.counters@.len() - i,
        {
            let e = &self.counters[i];
            if e.kind == kind && e.datatype == datatype && bytes_eq(&e.digest, digest) {
                proof {
                    assert(entry_key(&self.counters@[i as int]) == (kind, datatype, digest@));
                }
                return Some(i);
            }
            i = i + 1;
        }
        None
    }

    /// Derive the next message id for a digest: look the digest's counter up,
    /// bump it, and add it to the digest's leading eight bytes.
    fn update_counter(
        &mut self,
        kind: MessageKind,
        datatype: MessageDatatype,
        digest: Vec<u8>,
    ) -> (r: MessageID)
        requires
            digest@.len() >= 8,
            unique_keys(old(self).spec_entries()),
        ensures
            unique_keys(final(self).spec_entries()),
            ({
                let key = (kind, datatype, digest@);
                let counter = spec_counter_after(counters_map(old(self).spec_entries()), key);
                &&& r == spec_id_of(digest@, counter)
                &&& counters_map(final(self).spec_entries()) == counters_map(
                    old(self).spec_entries(),
                ).insert(key, counter)
            }),
            final(self).spec_id() == old(self).spec_id(),
            final(self).spec_consistency() == old(self).spec_consistency(),
            final(self).spec_statistics() == old(self).spec_statistics(),
            final(self).spec_history() == old(self).spec_history(),
    {
        let ghost key = (kind, datatype, digest@);
        let ghost old_entries = self.counters@;
        let base = u64_from_le_bytes(slice_subrange(digest.as_slice(), 0, 8));
        let found = self.find_counter(kind, datatype, &digest);
        let counter: u64 = match found {
            Some(j) => {
                proof {
                    assert forall|k: int|
                        j < k < old_entries.len() implies entry_key(&old_entries[k]) != entry_key(
                        &old_entries[j as int],
                    ) by {}
                    lemma_counters_map_last_match(old_entries, j as int);
                    lemma_counters_map_remove(old_entries, j as int);
                }
                let entry = self.counters.remove(j);
                let bumped = entry.counter.wrapping_add(1);
                let ghost removed = self.counters@;
                proof {
                    assert forall|k: int|
                        0 <= k < removed.len() implies entry_key(&removed[k]) != key by {
                        if k < j {
                            assert(removed[k] == old_entries[k]);
                        } else {
                            assert(removed[k] == old_entries[k + 1]);
                        }
                    }
                    assert forall|a: int, b: int|
                        0 <= a < b < removed.len() implies entry_key(&removed[a]) != entry_key(
                        &removed[b],
                    ) by {
                        let a0: int = if a < j { a } else { a + 1 };
                        let b0: int = if b < j { b } else { b + 1 };
                        assert(removed[a] == old_entries[a0]);
                        assert(removed[b] == old_entries[b0]);
                    }
                }
                self.counters.push(CounterEntry { kind, datatype, digest, counter: bumped });
                proof {
                    assert(self.counters@.drop_last() == removed);
                    assert(counters_map(self.counters@) =~= counters_map(old_entries).insert(
                        key,
                        bumped,
                    ));
                    assert forall|a: int, b: int|
                        0 <= a < b < self.counters@.len() implies entry_key(&self.counters@[a])
                        != entry_key(&self.counters@[b]) by {
                        if b < self.counters@.len() - 1 {
                            assert(self.counters@[a] == removed[a]);
                            assert(self.counters@[b] == removed[b]);
                        } else {
                            assert(self.counters@[a] == removed[a]);
                            assert(entry_key(&removed[a]) != key);
                        }
                    }
                }
                bumped
            },
            None => {
                proof {
                    lemma_counters_map_no_match(old_entries, key);
                }
                self.counters.push(CounterEntry { kind, datatype, digest, counter: 1 });
                proof {
                    assert(self.counters@.drop_last() == old_entries);
                    assert forall|a: int, b: int|
                        0 <= a < b < self.counters@.len() implies entry_key(&self.counters@[a])
                        != entry_key(&self.counters@[b]) by {
                        if b < self.counters@.len() - 1 {
                            assert(self.counters@[a] == old_entries[a]);
                            assert(self.counters@[b] == old_entries[b]);
                        } else {
                            assert(self.counters@[a] == old_entries[a]);
                            assert(entry_key(&old_entries[a]) != key);
                        }
                    }
                }
                1
            },
        };
        base.wrapping_add(counter)
    }

    /// Derive the next message id of a collective whose senders and receivers
    /// coincide.
    pub fn next_message_id(
        &mut self,
        collective: &Collective,
        communicator: &Communicator,
    ) -> (r: MessageID)
        requires
            old(self).wf(),
        ensures
            final(self).wf(),
            final(self).spec_history() == old(self).spec_history().push(
                IdCall {
                    collective: *collective,
                    senders: communicator@,
                    receivers: communicator@,
                },
            ),
            r == spec_message_id_trace(final(self).spec_history()).last(),
            final(self).spec_id() == old(self).spec_id(),
            final(self).spec_consistency() == old(self).spec_consistency(),
            final(self).spec_statistics() == old(self).spec_statistics(),
    {
        self.extended_next_message_id(collective, communicator, communicator)
    }

    /// Derive the next message id of a collective over a senders and a
    /// receivers communicator.
    pub fn extended_next_message_id(
        &mut self,
        collective: &Collective,
        senders: &Communicator,
        receivers: &Communicator,
    ) -> (r: MessageID)
        requires
            old(self).wf(),
        ensures
            final(self).wf(),
            final(self).spec_history() == old(self).spec_history().push(
                IdCall { collective: *collective, senders: senders@, receivers: receivers@ },
            ),
            r == spec_message_id_trace(final(self).spec_history()).last(),
            final(self).spec_id() == old(self).spec_id(),
            final(self).spec_consistency() == old(self).spec_consistency(),
            final(self).spec_statistics() == old(self).spec_statistics(),
    {
        let ghost call = IdCall {
            collective: *collective,
            senders: senders@,
            receivers: receivers@,
        };
        let input = crate::metadata::build_message_id_input(collective, senders, receivers);
        let digest = hash(input.as_slice());
        let id = self.update_counter(collective.kind(), collective.datatype(), digest);
        proof {
            self.history@ = self.history@.push(call);
            assert(self.history@.drop_last() =~= old(self).history@);
            assert(self.history@.last() == call);
            assert(spec_message_id_trace(self.history@).last() == id);
        }
        id
    }
}

/// Two peers that have performed the same derivations derive the same id for
/// the same next call, whatever their own party ids: the derivation reads the
/// history alone.
pub proof fn lemma_message_id_party_independent(p: &Planner, q: &Planner)
    requires
        p.wf(),
        q.wf(),
        p.spec_history() == q.spec_history(),
    ensures
        spec_message_id_trace(p.spec_history()) == spec_message_id_trace(q.spec_history()),
        spec_counters_after(p.spec_history()) == spec_counters_after(q.spec_history()),
{
}


/// Why a collective call's inputs were rejected.
#[derive(PartialEq, Eq, Structural, Debug, Clone, Copy)]
pub enum PlanError {
    /// A dimension does not match the message vector or the communicator.
    InvalidSize,
    /// A communicator is empty, or the communicators do not nest as required.
    InvalidCommunicator,
    /// The messages' metadata is contradictory.
    InvalidMetadata,
}

/// One action of a collective call's plan. Send and receive actions carry the
/// index of the caller's payload buffer they use.
#[derive(Debug, Clone)]
pub enum Action {
    /// Send the indexed payload buffer as this frame.
    Send { message: Message, data: usize },
    /// Receive this frame into the indexed payload buffer.
    Receive { message: Message, data: usize },
    /// Register a consistency expectation with the checker.
    Check { check: ConsistencyCheck },
}

/// The mathematical shape of an action: a check's receivers stand as their
/// id sequence.
pub enum SpecAction {
    Send { message: Message, data: int },
    Receive { message: Message, data: int },
    Check {
        kind: MessageKind,
        datatype: MessageDatatype,
        sender: PartyID,
        receivers: Seq<PartyID>,
        id: MessageID,
    },
}

impl View for Action {
    type V = SpecAction;

    open spec fn view(&self) -> SpecAction {
        match self {
            Action::Send { message, data } => SpecAction::Send {
                message: *message,
                data: *data as int,
            },
            Action::Receive { message, data } => SpecAction::Receive {
                message: *message,
                data: *data as int,
            },
            Action::Check { check } => SpecAction::Check {
                kind: check.kind,
                datatype: check.datatype,
                sender: check.sender,
                receivers: check.receivers@,
                id: check.id,
            },
        }
    }
}

/// The views of a list of actions, in order.
pub open spec fn actions_view(actions: Seq<Action>) -> Seq<SpecAction>
    decreases actions.len(),
{
    if actions.len() == 0 {
        Seq::<SpecAction>::empty()
    } else {
        actions_view(actions.drop_last()).push(actions.last()@)
    }
}

proof fn lemma_actions_view_concat(a: Seq<Action>, b: Seq<Action>)
    ensures
        actions_view(a + b) == actions_view(a) + actions_view(b),
    decreases b.len(),
{
    if b.len() == 0 {
        assert(a + b =~= a);
        assert(actions_view(a) + b.map_values(|x: Action| x@) =~= actions_view(a));
        assert(actions_view(a) + actions_view(b) =~= actions_view(a));
    } else {
        assert((a + b).drop_last() =~= a + b.drop_last());
        assert((a + b).last() == b.last());
        lemma_actions_view_concat(a, b.drop_last());
        assert(actions_view(a + b) =~= actions_view(a) + actions_view(b));
    }
}

/// A collective call's plan: the actions the transport layer executes, and
/// whether outstanding consistency checks must be flushed before dispatch.
#[derive(Debug)]
pub struct Plan {
    /// The checker must be clean before the first action is dispatched.
    pub flush_first: bool,
    /// The planned actions, in dispatch order.
    pub actions: Vec<Action>,
}

/// The frame metadata of one message of a collective.
pub open spec fn spec_to_message(
    c: Collective,
    sender: PartyID,
    receiver: PartyID,
    id: MessageID,
) -> Message {
    Message {
        kind: c.spec_kind(),
        datatype: c.spec_datatype(),
        sender,
        receiver,
        id,
        size: c.spec_size(),
    }
}

/// The statistics reached after recording a list of actions: each send adds
/// its payload size to `sent`, each receive to `received`, wrapping.
pub open spec fn spec_stats_after(
    stats: NetworkStatistics,
    actions: Seq<SpecAction>,
) -> NetworkStatistics
    decreases actions.len(),
{
    if actions.len() == 0 {
        stats
    } else {
        let s = spec_stats_after(stats, actions.drop_last());
        match actions.last() {
            SpecAction::Send { message, .. } => NetworkStatistics {
                sent: vstd::wrapping::u64_specs::wrapping_add(s.sent, message.size),
                ..s
            },
            SpecAction::Receive { message, .. } => NetworkStatistics {
                received: vstd::wrapping::u64_specs::wrapping_add(s.received, message.size),
                ..s
            },
            SpecAction::Check { .. } => s,
        }
    }
}

proof fn lemma_stats_after_concat(
    stats: NetworkStatistics,
    a: Seq<SpecAction>,
    b: Seq<SpecAction>,
)
    ensures
        spec_stats_after(stats, a + b) == spec_stats_after(spec_stats_after(stats, a), b),
    decreases b.len(),
{
    if b.len() == 0 {
        assert(a + b =~= a);
    } else {
        assert((a + b).drop_last() =~= a + b.drop_last());
        assert((a + b).last() == b.last());
        lemma_stats_after_concat(stats, a, b.drop_last());
    }
}

proof fn lemma_trace_len(calls: Seq<IdCall>)
    ensures
        spec_message_id_trace(calls).len() == calls.len(),
    decreases calls.len(),
{
    if calls.len() > 0 {
        lemma_trace_len(calls.drop_last());
    }
}

proof fn lemma_stats_after_push(stats: NetworkStatistics, s: Seq<SpecAction>, a: SpecAction)
    ensures
        spec_stats_after(stats, s.push(a)) == ({
            let folded = spec_stats_after(stats, s);
            match a {
                SpecAction::Send { message, .. } => NetworkStatistics {
                    sent: vstd::wrapping::u64_specs::wrapping_add(folded.sent, message.size),
                    ..folded
                },
                SpecAction::Receive { message, .. } => NetworkStatistics {
                    received: vstd::wrapping::u64_specs::wrapping_add(
                        folded.received,
                        message.size,
                    ),
                    ..folded
                },
                SpecAction::Check { .. } => folded,
            }
        }),
{
    assert(s.push(a).drop_last() =~= s);
    assert(s.push(a).last() == a);
}

/// The sends of one value to the first `n` members of a communicator, the
/// planning party excluded: one send action per other member, in id order.
pub open spec fn spec_sends_to_others(
    id: PartyID,
    c: Collective,
    parties: Seq<PartyID>,
    mid: MessageID,
    data: int,
    n: int,
) -> Seq<SpecAction>
    decreases n,
{
    if n <= 0 {
        Seq::<SpecAction>::empty()
    } else {
        spec_sends_to_others(id, c, parties, mid, data, n - 1) + if parties[n - 1] != id {
            seq![
                SpecAction::Send { message: spec_to_message(c, id, parties[n - 1], mid), data },
            ]
        } else {
            Seq::<SpecAction>::empty()
        }
    }
}

/// The consistency expectation of one received collective value: the peers
/// other than the planner and the sender are expected to attest.
pub open spec fn spec_check_action(
    id: PartyID,
    c: Collective,
    sender: PartyID,
    receivers: Seq<PartyID>,
    mid: MessageID,
) -> SpecAction {
    SpecAction::Check {
        kind: c.spec_kind(),
        datatype: c.spec_datatype(),
        sender,
        receivers: seq_without_two(receivers, id, sender),
        id: mid,
    }
}

/// The actions of one broadcast message: the sender sends to every other
/// member; a receiver registers a consistency expectation (when the feature
/// is on) and receives from the sender.
pub open spec fn spec_broadcast_actions(
    id: PartyID,
    consistency: bool,
    b: Broadcast,
    comm: Seq<PartyID>,
    mid: MessageID,
    data: int,
) -> Seq<SpecAction> {
    let c = Collective::Broadcast(b);
    if b.sender == id {
        spec_sends_to_others(id, c, comm, mid, data, comm.len() as int)
    } else {
        (if consistency {
            seq![spec_check_action(id, c, b.sender, comm, mid)]
        } else {
            Seq::<SpecAction>::empty()
        }) + seq![
            SpecAction::Receive { message: spec_to_message(c, b.sender, id, mid), data },
        ]
    }
}

/// The actions of a multi-broadcast: the actions of each message in order,
/// message `k` using payload buffer `k` and message id `mids[k]`.
pub open spec fn spec_multi_broadcast_actions(
    id: PartyID,
    consistency: bool,
    messages: Seq<Broadcast>,
    comm: Seq<PartyID>,
    mids: Seq<MessageID>,
) -> Seq<SpecAction>
    decreases messages.len(),
{
    if messages.len() == 0 {
        Seq::<SpecAction>::empty()
    } else {
        spec_multi_broadcast_actions(id, consistency, messages.drop_last(), comm, mids.drop_last())
            + spec_broadcast_actions(
            id,
            consistency,
            messages.last(),
            comm,
            mids.last(),
            messages.len() - 1,
        )
    }
}

/// The id-derivation calls of a multi-broadcast.
pub open spec fn spec_broadcast_calls(messages: Seq<Broadcast>, comm: Seq<PartyID>) -> Seq<IdCall> {
    messages.map_values(
        |m: Broadcast| IdCall {
            collective: Collective::Broadcast(m),
            senders: comm,
            receivers: comm,
        },
    )
}

impl Planner {
    /// Push the sends of one value to every other member of `parties`, and
    /// account for them.
    fn push_sends_to_others(
        &mut self,
        actions: &mut Vec<Action>,
        c: &Collective,
        parties: &Communicator,
        mid: MessageID,
        data: usize,
    )
        ensures
            actions_view(final(actions)@) == actions_view(old(actions)@) + spec_sends_to_others(
                old(self).spec_id(),
                *c,
                parties@,
                mid,
                data as int,
                parties@.len() as int,
            ),
            final(self).spec_statistics() == spec_stats_after(
                old(self).spec_statistics(),
                spec_sends_to_others(
                    old(self).spec_id(),
                    *c,
                    parties@,
                    mid,
                    data as int,
                    parties@.len() as int,
                ),
            ),
            final(self).spec_id() == old(self).spec_id(),
            final(self).spec_consistency() == old(self).spec_consistency(),
            final(self).spec_history() == old(self).spec_history(),
            final(self).spec_entries() == old(self).spec_entries(),
    {
        let ghost pre_actions = actions@;
        let ghost pre_stats = self.statistics;
        let mut j: usize = 0;
        while j < parties.len()
            invariant
                j <= parties@.len(),
                actions_view(actions@) == actions_view(pre_actions) + spec_sends_to_others(
                    self.spec_id(),
                    *c,
                    parties@,
                    mid,
                    data as int,
                    j as int,
                ),
                self.spec_statistics() == spec_stats_after(
                    pre_stats,
                    spec_sends_to_others(
                        self.spec_id(),
                        *c,
                        parties@,
                        mid,
                        data as int,
                        j as int,
                    ),
                ),
                self.spec_id() == old(self).spec_id(),
                self.spec_consistency() == old(self).spec_consistency(),
                self.spec_history() == old(self).spec_history(),
                self.spec_entries() == old(self).spec_entries(),
                pre_stats == old(self).spec_statistics(),
                pre_actions == old(actions)@,
            decreases parties@.len() - j,
        {
            let ghost before = actions@;
            let ghost step = spec_sends_to_others(
                self.spec_id(),
                *c,
                parties@,
                mid,
                data as int,
                j as int,
            );
            let ghost step1 = spec_sends_to_others(
                self.spec_id(),
                *c,
                parties@,
                mid,
                data as int,
                j as int + 1,
            );
            let party = parties.get(j);
            if party != self.id {
                let message = c.to_message(self.id, party, mid);
                self.statistics.sent = self.statistics.sent.wrapping_add(message.size);
                actions.push(Action::Send { message, data });
                proof {
                    assert(actions@.drop_last() == before);
                    assert(step1 =~= step.push(actions@.last()@));
                    lemma_stats_after_push(pre_stats, step, actions@.last()@);
                    assert(actions_view(actions@) =~= actions_view(pre_actions) + step1);
                }
            } else {
                proof {
                    assert(step1 =~= step);
                }
            }
            j = j + 1;
        }
    }

    /// Plan one broadcast: one payload buffer, sent by `message.sender` to
    /// every other member of the communicator.
    pub fn broadcast(&mut self, message: Broadcast, communicator: &Communicator) -> (r: Result<
        Plan,
        PlanError,
    >)
        requires
            old(self).wf(),
            communicator.well_formed(),
        ensures
            final(self).wf(),
            final(self).spec_id() == old(self).spec_id(),
            final(self).spec_consistency() == old(self).spec_consistency(),
            r is Err ==> *final(self) == *old(self) && communicator@.len() == 0 && r == Err::<
                Plan,
                PlanError,
            >(PlanError::InvalidCommunicator),
            communicator@.len() == 0 ==> r is Err,
            r matches Ok(plan) ==> {
                let mids = spec_message_id_trace(final(self).spec_history()).skip(
                    old(self).spec_history().len() as int,
                );
                &&& final(self).spec_history() == old(self).spec_history()
                    + spec_broadcast_calls(seq![message], communicator@)
                &&& actions_view(plan.actions@) == spec_multi_broadcast_actions(
                    old(self).spec_id(),
                    old(self).spec_consistency(),
                    seq![message],
                    communicator@,
                    mids,
                )
                &&& plan.flush_first == (old(self).spec_consistency() && message.sender == old(
                    self,
                ).spec_id())
                &&& final(self).spec_statistics() == spec_stats_after(
                    NetworkStatistics {
                        rounds: vstd::wrapping::u64_specs::wrapping_add(
                            old(self).spec_statistics().rounds,
                            1,
                        ),
                        ..old(self).spec_statistics()
                    },
                    actions_view(plan.actions@),
                )
            },
    {
        let mut messages: Vec<Broadcast> = Vec::new();
        messages.push(message);
        let r = self.multi_broadcast(&messages, communicator, 1);
        proof {
            assert(messages@ =~= seq![message]);
        }
        r
    }

    /// Plan a multi-broadcast: message `k` uses payload buffer `k`; the
    /// sender of each message sends to every other member, the others receive
    /// from it and, with the consistency feature on, expect the remaining
    /// members to attest what they saw.
    pub fn multi_broadcast(
        &mut self,
        messages: &Vec<Broadcast>,
        communicator: &Communicator,
        data_len: usize,
    ) -> (r: Result<Plan, PlanError>)
        requires
            old(self).wf(),
            communicator.well_formed(),
        ensures
            final(self).wf(),
            final(self).spec_id() == old(self).spec_id(),
            final(self).spec_consistency() == old(self).spec_consistency(),
            r is Err ==> *final(self) == *old(self),
            r is Err <==> (communicator@.len() == 0 || messages@.len() != data_len),
            communicator@.len() == 0 ==> r == Err::<Plan, PlanError>(
                PlanError::InvalidCommunicator,
            ),
            communicator@.len() != 0 && messages@.len() != data_len ==> r == Err::<
                Plan,
                PlanError,
            >(PlanError::InvalidSize),
            r matches Ok(plan) ==> {
                let mids = spec_message_id_trace(final(self).spec_history()).skip(
                    old(self).spec_history().len() as int,
                );
                &&& final(self).spec_history() == old(self).spec_history()
                    + spec_broadcast_calls(messages@, communicator@)
                &&& actions_view(plan.actions@) == spec_multi_broadcast_actions(
                    old(self).spec_id(),
                    old(self).spec_consistency(),
                    messages@,
                    communicator@,
                    mids,
                )
                &&& plan.flush_first == (old(self).spec_consistency() && exists|i: int|
                    0 <= i < messages@.len() && (#[trigger] messages@[i]).sender == old(
                        self,
                    ).spec_id())
                &&& final(self).spec_statistics() == spec_stats_after(
                    NetworkStatistics {
                        rounds: vstd::wrapping::u64_specs::wrapping_add(
                            old(self).spec_statistics().rounds,
                            1,
                        ),
                        ..old(self).spec_statistics()
                    },
                    actions_view(plan.actions@),
                )
            },
    {
        if communicator.is_empty() {
            return Err(PlanError::InvalidCommunicator);
        }
        if messages.len() != data_len {
            return Err(PlanError::InvalidSize);
        }
        let mut flush_first = false;
        let mut k: usize = 0;
        while k < messages.len()
            invariant
                k <= messages@.len(),
                flush_first == exists|i: int|
                    0 <= i < k && (#[trigger] messages@[i]).sender == self.spec_id(),
                self == old(self),
            decreases messages@.len() - k,
        {
            if messages[k].sender == self.id {
                flush_first = true;
                assert(messages@[k as int].sender == self.spec_id());
            }
            k = k + 1;
        }
        let flush_first = self.consistency && flush_first;
        self.statistics.rounds = self.statistics.rounds.wrapping_add(1);
        let ghost start_stats = self.statistics;
        let ghost start_history = self.history@;
        let mut actions: Vec<Action> = Vec::new();
        let ghost mut mids: Seq<MessageID> = Seq::empty();
        proof {
            lemma_trace_len(start_history);
            assert(spec_message_id_trace(start_history).skip(start_history.len() as int)
                =~= Seq::<MessageID>::empty());
        }
        let mut k: usize = 0;
        while k < messages.len()
            invariant
                k <= messages@.len(),
                communicator.well_formed(),
                self.wf(),
                mids == spec_message_id_trace(self.spec_history()).skip(
                    start_history.len() as int,
                ),
                mids.len() == k,
                self.spec_history() == start_history + spec_broadcast_calls(
                    messages@.take(k as int),
                    communicator@,
                ),
                actions_view(actions@) == spec_multi_broadcast_actions(
                    self.spec_id(),
                    self.spec_consistency(),
                    messages@.take(k as int),
                    communicator@,
                    mids,
                ),
                self.spec_statistics() == spec_stats_after(start_stats, actions_view(actions@)),
                self.spec_id() == old(self).spec_id(),
                self.spec_consistency() == old(self).spec_consistency(),
                start_history == old(self).spec_history(),
            decreases messages@.len() - k,
        {
            let message = messages[k];
            let collective = Collective::Broadcast(message);
            let ghost pre_history = self.history@;
            let ghost pre_actions = actions@;
            let ghost pre_stats = self.statistics;
            let mid = self.next_message_id(&collective, communicator);
            proof {
                mids = mids.push(mid);
                assert(self.spec_history().drop_last() =~= pre_history);
                lemma_trace_len(pre_history);
                lemma_trace_len(self.spec_history());
                assert(spec_message_id_trace(self.spec_history())
                    =~= spec_message_id_trace(pre_history).push(mid));
                assert(pre_history.len() >= start_history.len());
                assert(spec_message_id_trace(self.spec_history()).skip(start_history.len() as int)
                    =~= mids);
            }
            if message.sender == self.id {
                self.push_sends_to_others(&mut actions, &collective, communicator, mid, k);
            } else {
                if self.consistency {
                    let receivers = communicator.without_two(self.id, message.sender);
                    let ghost before = actions@;
                    actions.push(
                        Action::Check {
                            check: collective.to_consistency_check(message.sender, receivers, mid),
                        },
                    );
                    proof {
                        assert(actions@.drop_last() == before);
                        assert(actions@.last()@ == spec_check_action(
                            self.spec_id(),
                            collective,
                            message.sender,
                            communicator@,
                            mid,
                        ));
                        assert(actions_view(actions@) =~= actions_view(pre_actions).push(
                            actions@.last()@,
                        ));
                    }
                }
                let frame = collective.to_message(message.sender, self.id, mid);
                self.statistics.received = self.statistics.received.wrapping_add(frame.size);
                let ghost before = actions@;
                actions.push(Action::Receive { message: frame, data: k });
                proof {
                    assert(actions@.drop_last() == before);
                    assert(actions_view(actions@) =~= actions_view(before).push(
                        actions@.last()@,
                    ));
                }
            }
            proof {
                let step = spec_broadcast_actions(
                    self.spec_id(),
                    self.spec_consistency(),
                    messages@[k as int],
                    communicator@,
                    mid,
                    k as int,
                );
                lemma_actions_view_concat_auto();
                if messages@[k as int].sender != self.spec_id() {
                    let receive = SpecAction::Receive {
                        message: spec_to_message(
                            Collective::Broadcast(messages@[k as int]),
                            messages@[k as int].sender,
                            self.spec_id(),
                            mid,
                        ),
                        data: k as int,
                    };
                    if self.spec_consistency() {
                        let check = spec_check_action(
                            self.spec_id(),
                            Collective::Broadcast(messages@[k as int]),
                            messages@[k as int].sender,
                            communicator@,
                            mid,
                        );
                        assert(step =~= seq![check, receive]);
                        assert(actions_view(actions@) =~= actions_view(pre_actions).push(
                            check,
                        ).push(receive));
                        lemma_stats_after_push(start_stats, actions_view(pre_actions), check);
                        lemma_stats_after_push(
                            start_stats,
                            actions_view(pre_actions).push(check),
                            receive,
                        );
                    } else {
                        assert(step =~= seq![receive]);
                        assert(actions_view(actions@) =~= actions_view(pre_actions).push(receive));
                        lemma_stats_after_push(start_stats, actions_view(pre_actions), receive);
                    }
                }
                assert(actions_view(actions@) =~= actions_view(pre_actions) + step);
                lemma_stats_after_concat(start_stats, actions_view(pre_actions), step);
                assert(messages@.take(k as int + 1).drop_last() =~= messages@.take(k as int));
                assert(mids.drop_last() =~= spec_message_id_trace(pre_history).skip(
                    start_history.len() as int,
                ));
                assert(actions_view(actions@) == spec_multi_broadcast_actions(
                    self.spec_id(),
                    self.spec_consistency(),
                    messages@.take(k as int + 1),
                    communicator@,
                    mids,
                ));
                assert(spec_broadcast_calls(messages@.take(k as int + 1), communicator@)
                    =~= spec_broadcast_calls(messages@.take(k as int), communicator@).push(
                    IdCall {
                        collective: Collective::Broadcast(messages@[k as int]),
                        senders: communicator@,
                        receivers: communicator@,
                    },
                ));
                assert(self.spec_history() =~= start_history + spec_broadcast_calls(
                    messages@.take(k as int + 1),
                    communicator@,
                ));
            }
            k = k + 1;
        }
        proof {
            assert(messages@.take(messages@.len() as int) == messages@);
        }
        Ok(Plan { flush_first, actions })
    }
}

proof fn lemma_actions_view_concat_auto()
    ensures
        forall|a: Seq<Action>, b: Seq<Action>| #[trigger]
            actions_view(a + b) == actions_view(a) + actions_view(b),
{
    assert forall|a: Seq<Action>, b: Seq<Action>| #[trigger]
        actions_view(a + b) == actions_view(a) + actions_view(b) by {
        lemma_actions_view_concat(a, b);
    }
}


/// The receives of one gather: one receive action per member of the
/// communicator other than the planner, member `j` into buffer `base + j`.
pub open spec fn spec_receives_from_others(
    id: PartyID,
    c: Collective,
    parties: Seq<PartyID>,
    mid: MessageID,
    base: int,
    n: int,
) -> Seq<SpecAction>
    decreases n,
{
    if n <= 0 {
        Seq::<SpecAction>::empty()
    } else {
        spec_receives_from_others(id, c, parties, mid, base, n - 1) + if parties[n - 1] != id {
            seq![
                SpecAction::Receive {
                    message: spec_to_message(c, parties[n - 1], id, mid),
                    data: base + n - 1,
                },
            ]
        } else {
            Seq::<SpecAction>::empty()
        }
    }
}

/// The actions of one gather message: the receiver receives from every other
/// member of the communicator; any other party sends its one buffer to the
/// receiver.
pub open spec fn spec_gather_actions(
    id: PartyID,
    g: Gather,
    comm: Seq<PartyID>,
    mid: MessageID,
    inner: int,
    k: int,
) -> Seq<SpecAction> {
    let c = Collective::Gather(g);
    if g.receiver == id {
        spec_receives_from_others(id, c, comm, mid, k * inner, comm.len() as int)
    } else {
        seq![
            SpecAction::Send { message: spec_to_message(c, id, g.receiver, mid), data: k * inner },
        ]
    }
}

/// The actions of a multi-gather: the actions of each message in order,
/// message `k` using the buffer row starting at `k * inner`.
pub open spec fn spec_multi_gather_actions(
    id: PartyID,
    messages: Seq<Gather>,
    comm: Seq<PartyID>,
    mids: Seq<MessageID>,
    inner: int,
) -> Seq<SpecAction>
    decreases messages.len(),
{
    if messages.len() == 0 {
        Seq::<SpecAction>::empty()
    } else {
        spec_multi_gather_actions(id, messages.drop_last(), comm, mids.drop_last(), inner)
            + spec_gather_actions(
            id,
            messages.last(),
            comm,
            mids.last(),
            inner,
            messages.len() - 1,
        )
    }
}

/// The id-derivation calls of a multi-gather.
pub open spec fn spec_gather_calls(messages: Seq<Gather>, comm: Seq<PartyID>) -> Seq<IdCall> {
    messages.map_values(
        |m: Gather| IdCall { collective: Collective::Gather(m), senders: comm, receivers: comm },
    )
}

/// Why a multi-gather's inputs are rejected, if they are.
pub open spec fn spec_multi_gather_error(
    id: PartyID,
    messages: Seq<Gather>,
    comm: Seq<PartyID>,
    outer: int,
    inner: int,
) -> Option<PlanError> {
    if comm.len() == 0 {
        Some(PlanError::InvalidCommunicator)
    } else if messages.len() != outer {
        Some(PlanError::InvalidSize)
    } else if !(forall|i: int|
        0 <= i < messages.len() ==> (#[trigger] messages[i]).receiver == id) && !(forall|i: int|
        0 <= i < messages.len() ==> (#[trigger] messages[i]).receiver != id) {
        Some(PlanError::InvalidMetadata)
    } else if exists|i: int|
        0 <= i < messages.len() && (#[trigger] messages[i]).receiver != id && !comm.contains(
            messages[i].receiver,
        ) {
        Some(PlanError::InvalidMetadata)
    } else if (forall|i: int|
        0 <= i < messages.len() ==> (#[trigger] messages[i]).receiver == id) && messages.len()
        > 0 && inner != comm.len() {
        Some(PlanError::InvalidSize)
    } else if (exists|i: int| 0 <= i < messages.len() && (#[trigger] messages[i]).receiver != id)
        && inner != 1 {
        Some(PlanError::InvalidSize)
    } else {
        None
    }
}

impl Planner {
    /// Push the receives of one gathered value from every other member of
    /// `parties`, member `j` into buffer `base + j`, and account for them.
    fn push_receives_from_others(
        &mut self,
        actions: &mut Vec<Action>,
        c: &Collective,
        parties: &Communicator,
        mid: MessageID,
        base: usize,
    )
        requires
            base + parties@.len() <= usize::MAX,
        ensures
            actions_view(final(actions)@) == actions_view(old(actions)@)
                + spec_receives_from_others(
                old(self).spec_id(),
                *c,
                parties@,
                mid,
                base as int,
                parties@.len() as int,
            ),
            final(self).spec_statistics() == spec_stats_after(
                old(self).spec_statistics(),
                spec_receives_from_others(
                    old(self).spec_id(),
                    *c,
                    parties@,
                    mid,
                    base as int,
                    parties@.len() as int,
                ),
            ),
            final(self).spec_id() == old(self).spec_id(),
            final(self).spec_consistency() == old(self).spec_consistency(),
            final(self).spec_history() == old(self).spec_history(),
            final(self).spec_entries() == old(self).spec_entries(),
    {
        let ghost pre_actions = actions@;
        let ghost pre_stats = self.statistics;
        let mut j: usize = 0;
        while j < parties.len()
            invariant
                j <= parties@.len(),
                base + parties@.len() <= usize::MAX,
                actions_view(actions@) == actions_view(pre_actions) + spec_receives_from_others(
                    self.spec_id(),
                    *c,
                    parties@,
                    mid,
                    base as int,
                    j as int,
                ),
                self.spec_statistics() == spec_stats_after(
                    pre_stats,
                    spec_receives_from_others(
                        self.spec_id(),
                        *c,
                        parties@,
                        mid,
                        base as int,
                        j as int,
                    ),
                ),
                self.spec_id() == old(self).spec_id(),
                self.spec_consistency() == old(self).spec_consistency(),
                self.spec_history() == old(self).spec_history(),
                self.spec_entries() == old(self).spec_entries(),
                pre_stats == old(self).spec_statistics(),
                pre_actions == old(actions)@,
            decreases parties@.len() - j,
        {
            let ghost before = actions@;
            let ghost step = spec_receives_from_others(
                self.spec_id(),
                *c,
                parties@,
                mid,
                base as int,
                j as int,
            );
            let ghost step1 = spec_receives_from_others(
                self.spec_id(),
                *c,
                parties@,
                mid,
                base as int,
                j as int + 1,
            );
            let party = parties.get(j);
            if party != self.id {
                let message = c.to_message(party, self.id, mid);
                self.statistics.received = self.statistics.received.wrapping_add(message.size);
                actions.push(Action::Receive { message, data: base + j });
                proof {
                    assert(actions@.drop_last() == before);
                    assert(step1 =~= step.push(actions@.last()@));
                    lemma_stats_after_push(pre_stats, step, actions@.last()@);
                    assert(actions_view(actions@) =~= actions_view(pre_actions) + step1);
                }
            } else {
                proof {
                    assert(step1 =~= step);
                }
            }
            j = j + 1;
        }
    }

    /// Plan one gather: the receiver collects one buffer from every other
    /// member of the communicator; any other member sends its single buffer.
    pub fn gather(
        &mut self,
        message: Gather,
        communicator: &Communicator,
        data_len: usize,
    ) -> (r: Result<Plan, PlanError>)
        requires
            old(self).wf(),
            communicator.well_formed(),
        ensures
            final(self).wf(),
            final(self).spec_id() == old(self).spec_id(),
            final(self).spec_consistency() == old(self).spec_consistency(),
            r is Err ==> *final(self) == *old(self),
            r is Err <==> spec_multi_gather_error(
                old(self).spec_id(),
                seq![message],
                communicator@,
                1,
                data_len as int,
            ) is Some,
            r matches Err(e) ==> Some(e) == spec_multi_gather_error(
                old(self).spec_id(),
                seq![message],
                communicator@,
                1,
                data_len as int,
            ),
            r matches Ok(plan) ==> {
                let mids = spec_message_id_trace(final(self).spec_history()).skip(
                    old(self).spec_history().len() as int,
                );
                &&& final(self).spec_history() == old(self).spec_history() + spec_gather_calls(
                    seq![message],
                    communicator@,
                )
                &&& actions_view(plan.actions@) == spec_multi_gather_actions(
                    old(self).spec_id(),
                    seq![message],
                    communicator@,
                    mids,
                    data_len as int,
                )
                &&& plan.flush_first == (old(self).spec_consistency() && message.receiver != old(
                    self,
                ).spec_id())
                &&& final(self).spec_statistics() == spec_stats_after(
                    NetworkStatistics {
                        rounds: vstd::wrapping::u64_specs::wrapping_add(
                            old(self).spec_statistics().rounds,
                            1,
                        ),
                        ..old(self).spec_statistics()
                    },
                    actions_view(plan.actions@),
                )
            },
    {
        let mut messages: Vec<Gather> = Vec::new();
        messages.push(message);
        let r = self.multi_gather(&messages, communicator, 1, data_len);
        proof {
            assert(messages@ =~= seq![message]);
        }
        r
    }

    /// Plan a multi-gather: message `k` uses the buffer row starting at
    /// `k * inner`. The caller is either the receiver of every message (one
    /// buffer per member, its own slot untouched) or of none (one buffer).
    pub fn multi_gather(
        &mut self,
        messages: &Vec<Gather>,
        communicator: &Communicator,
        outer: usize,
        inner: usize,
    ) -> (r: Result<Plan, PlanError>)
        requires
            old(self).wf(),
            communicator.well_formed(),
            (outer as int) * (inner as int) <= usize::MAX,
        ensures
            final(self).wf(),
            final(self).spec_id() == old(self).spec_id(),
            final(self).spec_consistency() == old(self).spec_consistency(),
            r is Err ==> *final(self) == *old(self),
            r is Err <==> spec_multi_gather_error(
                old(self).spec_id(),
                messages@,
                communicator@,
                outer as int,
                inner as int,
            ) is Some,
            r matches Err(e) ==> Some(e) == spec_multi_gather_error(
                old(self).spec_id(),
                messages@,
                communicator@,
                outer as int,
                inner as int,
            ),
            r matches Ok(plan) ==> {
                let mids = spec_message_id_trace(final(self).spec_history()).skip(
                    old(self).spec_history().len() as int,
                );
                &&& final(self).spec_history() == old(self).spec_history() + spec_gather_calls(
                    messages@,
                    communicator@,
                )
                &&& actions_view(plan.actions@) == spec_multi_gather_actions(
                    old(self).spec_id(),
                    messages@,
                    communicator@,
                    mids,
                    inner as int,
                )
                &&& plan.flush_first == (old(self).spec_consistency() && exists|i: int|
                    0 <= i < messages@.len() && (#[trigger] messages@[i]).receiver != old(
                        self,
                    ).spec_id())
                &&& final(self).spec_statistics() == spec_stats_after(
                    NetworkStatistics {
                        rounds: vstd::wrapping::u64_specs::wrapping_add(
                            old(self).spec_statistics().rounds,
                            1,
                        ),
                        ..old(self).spec_statistics()
                    },
                    actions_view(plan.actions@),
                )
            },
    {
        if communicator.is_empty() {
            return Err(PlanError::InvalidCommunicator);
        }
        if messages.len() != outer {
            return Err(PlanError::InvalidSize);
        }
        let mut always_receiver = true;
        let mut never_receiver = true;
        let mut known_receivers = true;
        let mut k: usize = 0;
        while k < messages.len()
            invariant
                k <= messages@.len(),
                always_receiver == forall|i: int|
                    0 <= i < k ==> (#[trigger] messages@[i]).receiver == self.spec_id(),
                never_receiver == forall|i: int|
                    0 <= i < k ==> (#[trigger] messages@[i]).receiver != self.spec_id(),
                known_receivers == forall|i: int|
                    0 <= i < k ==> ((#[trigger] messages@[i]).receiver == self.spec_id()
                        || communicator@.contains(messages@[i].receiver)),
                self == old(self),
                communicator.well_formed(),
            decreases messages@.len() - k,
        {
            let receiver = messages[k].receiver;
            if receiver == self.id {
                never_receiver = false;
            } else {
                always_receiver = false;
                if !communicator.contains(receiver) {
                    known_receivers = false;
                }
            }
            k = k + 1;
        }
        if !always_receiver && !never_receiver {
            return Err(PlanError::InvalidMetadata);
        }
        if !known_receivers {
            return Err(PlanError::InvalidMetadata);
        }
        if always_receiver && messages.len() > 0 && inner != communicator.len() {
            return Err(PlanError::InvalidSize);
        }
        if !always_receiver && inner != 1 {
            return Err(PlanError::InvalidSize);
        }
        proof {
            assert(spec_multi_gather_error(
                self.spec_id(),
                messages@,
                communicator@,
                outer as int,
                inner as int,
            ) is None);
        }
        let flush_first = self.consistency && !always_receiver;
        self.statistics.rounds = self.statistics.rounds.wrapping_add(1);
        let ghost start_stats = self.statistics;
        let ghost start_history = self.history@;
        let mut actions: Vec<Action> = Vec::new();
        let ghost mut mids: Seq<MessageID> = Seq::empty();
        proof {
            lemma_trace_len(start_history);
            assert(spec_message_id_trace(start_history).skip(start_history.len() as int)
                =~= Seq::<MessageID>::empty());
        }
        let mut k: usize = 0;
        while k < messages.len()
            invariant
                k <= messages@.len(),
                messages@.len() == outer,
                (outer as int) * (inner as int) <= usize::MAX,
                forall|i: int|
                    0 <= i < messages@.len() ==> ((#[trigger] messages@[i]).receiver
                        == self.spec_id() ==> inner == communicator@.len()),
                forall|i: int|
                    0 <= i < messages@.len() ==> ((#[trigger] messages@[i]).receiver
                        != self.spec_id() ==> inner == 1),
                communicator.well_formed(),
                self.wf(),
                mids == spec_message_id_trace(self.spec_history()).skip(
                    start_history.len() as int,
                ),
                mids.len() == k,
                self.spec_history() == start_history + spec_gather_calls(
                    messages@.take(k as int),
                    communicator@,
                ),
                actions_view(actions@) == spec_multi_gather_actions(
                    self.spec_id(),
                    messages@.take(k as int),
                    communicator@,
                    mids,
                    inner as int,
                ),
                self.spec_statistics() == spec_stats_after(start_stats, actions_view(actions@)),
                self.spec_id() == old(self).spec_id(),
                self.spec_consistency() == old(self).spec_consistency(),
                start_history == old(self).spec_history(),
            decreases messages@.len() - k,
        {
            let message = messages[k];
            let collective = Collective::Gather(message);
            let ghost pre_history = self.history@;
            let ghost pre_actions = actions@;
            let mid = self.next_message_id(&collective, communicator);
            proof {
                mids = mids.push(mid);
                assert(self.spec_history().drop_last() =~= pre_history);
                lemma_trace_len(pre_history);
                lemma_trace_len(self.spec_history());
                assert(spec_message_id_trace(self.spec_history())
                    =~= spec_message_id_trace(pre_history).push(mid));
                assert(spec_message_id_trace(self.spec_history()).skip(start_history.len() as int)
                    =~= mids);
            }
            proof {
                assert((k as int) * (inner as int) + (inner as int) <= (outer as int) * (
                inner as int)) by (nonlinear_arith)
                    requires
                        0 <= k as int,
                        (k as int) < (outer as int),
                        0 <= inner as int,
                ;
            }
            let base = k * inner;
            if message.receiver == self.id {
                self.push_receives_from_others(&mut actions, &collective, communicator, mid, base);
            } else {
                let frame = collective.to_message(self.id, message.receiver, mid);
                self.statistics.sent = self.statistics.sent.wrapping_add(frame.size);
                let ghost before = actions@;
                actions.push(Action::Send { message: frame, data: base });
                proof {
                    assert(actions@.drop_last() == before);
                    assert(actions_view(actions@) =~= actions_view(before).push(
                        actions@.last()@,
                    ));
                }
            }
            proof {
                let step = spec_gather_actions(
                    self.spec_id(),
                    messages@[k as int],
                    communicator@,
                    mid,
                    inner as int,
                    k as int,
                );
                lemma_actions_view_concat_auto();
                if messages@[k as int].receiver != self.spec_id() {
                    let send = SpecAction::Send {
                        message: spec_to_message(
                            Collective::Gather(messages@[k as int]),
                            self.spec_id(),
                            messages@[k as int].receiver,
                            mid,
                        ),
                        data: k as int * inner as int,
                    };
                    assert(step =~= seq![send]);
                    assert(actions_view(actions@) =~= actions_view(pre_actions).push(send));
                    lemma_stats_after_push(start_stats, actions_view(pre_actions), send);
                }
                assert(actions_view(actions@) =~= actions_view(pre_actions) + step);
                lemma_stats_after_concat(start_stats, actions_view(pre_actions), step);
                assert(messages@.take(k as int + 1).drop_last() =~= messages@.take(k as int));
                assert(mids.drop_last() =~= spec_message_id_trace(pre_history).skip(
                    start_history.len() as int,
                ));
                assert(actions_view(actions@) == spec_multi_gather_actions(
                    self.spec_id(),
                    messages@.take(k as int + 1),
                    communicator@,
                    mids,
                    inner as int,
                ));
                assert(spec_gather_calls(messages@.take(k as int + 1), communicator@)
                    =~= spec_gather_calls(messages@.take(k as int), communicator@).push(
                    IdCall {
                        collective: Collective::Gather(messages@[k as int]),
                        senders: communicator@,
                        receivers: communicator@,
                    },
                ));
                assert(self.spec_history() =~= start_history + spec_gather_calls(
                    messages@.take(k as int + 1),
                    communicator@,
                ));
            }
            k = k + 1;
        }
        proof {
            assert(messages@.take(messages@.len() as int) == messages@);
        }
        Ok(Plan { flush_first, actions })
    }
}


/// The actions one sender of an all-gather contributes, from the planner's
/// point of view: the planner sends its value to every other receiver; for
/// any other sender it receives that sender's value and, with the consistency
/// feature on, expects the remaining receivers to attest what they saw.
pub open spec fn spec_all_gather_sender_actions(
    id: PartyID,
    consistency: bool,
    c: Collective,
    receivers: Seq<PartyID>,
    sender: PartyID,
    mid: MessageID,
    data: int,
) -> Seq<SpecAction> {
    if sender == id {
        spec_sends_to_others(id, c, receivers, mid, data, receivers.len() as int)
    } else {
        (if consistency {
            seq![spec_check_action(id, c, sender, receivers, mid)]
        } else {
            Seq::<SpecAction>::empty()
        }) + seq![
            SpecAction::Receive { message: spec_to_message(c, sender, id, mid), data },
        ]
    }
}

/// The actions of one all-gather message over the first `n` senders, sender
/// `j` using buffer `base + j`.
pub open spec fn spec_all_gather_message_actions(
    id: PartyID,
    consistency: bool,
    c: Collective,
    senders: Seq<PartyID>,
    receivers: Seq<PartyID>,
    mid: MessageID,
    base: int,
    n: int,
) -> Seq<SpecAction>
    decreases n,
{
    if n <= 0 {
        Seq::<SpecAction>::empty()
    } else {
        spec_all_gather_message_actions(id, consistency, c, senders, receivers, mid, base, n - 1)
            + spec_all_gather_sender_actions(
            id,
            consistency,
            c,
            receivers,
            senders[n - 1],
            mid,
            base + n - 1,
        )
    }
}

/// The actions of an extended multi-all-gather: the actions of each message
/// in order, message `k` using the buffer row starting at `k * inner`.
pub open spec fn spec_multi_all_gather_actions(
    id: PartyID,
    consistency: bool,
    messages: Seq<AllGather>,
    senders: Seq<PartyID>,
    receivers: Seq<PartyID>,
    mids: Seq<MessageID>,
    inner: int,
) -> Seq<SpecAction>
    decreases messages.len(),
{
    if messages.len() == 0 {
        Seq::<SpecAction>::empty()
    } else {
        spec_multi_all_gather_actions(
            id,
            consistency,
            messages.drop_last(),
            senders,
            receivers,
            mids.drop_last(),
            inner,
        ) + spec_all_gather_message_actions(
            id,
            consistency,
            Collective::AllGather(messages.last()),
            senders,
            receivers,
            mids.last(),
            (messages.len() - 1) * inner,
            senders.len() as int,
        )
    }
}

/// The id-derivation calls of an extended multi-all-gather.
pub open spec fn spec_all_gather_calls(
    messages: Seq<AllGather>,
    senders: Seq<PartyID>,
    receivers: Seq<PartyID>,
) -> Seq<IdCall> {
    messages.map_values(
        |m: AllGather| IdCall { collective: Collective::AllGather(m), senders, receivers },
    )
}

/// Why an extended multi-all-gather's inputs are rejected, if they are.
pub open spec fn spec_multi_all_gather_error(
    id: PartyID,
    messages: Seq<AllGather>,
    senders: Seq<PartyID>,
    receivers: Seq<PartyID>,
    outer: int,
    inner: int,
) -> Option<PlanError> {
    if senders.len() == 0 || receivers.len() == 0 {
        Some(PlanError::InvalidCommunicator)
    } else if !(forall|p: PartyID| senders.contains(p) ==> receivers.contains(p)) {
        Some(PlanError::InvalidCommunicator)
    } else if !receivers.contains(id) {
        Some(PlanError::InvalidCommunicator)
    } else if messages.len() != outer {
        Some(PlanError::InvalidSize)
    } else if senders.len() != inner {
        Some(PlanError::InvalidSize)
    } else {
        None
    }
}

impl Planner {
    /// Plan one all-gather: every member both contributes one value to all
    /// others and collects theirs.
    pub fn all_gather(
        &mut self,
        message: AllGather,
        communicator: &Communicator,
        data_len: usize,
    ) -> (r: Result<Plan, PlanError>)
        requires
            old(self).wf(),
            communicator.well_formed(),
        ensures
            final(self).wf(),
            final(self).spec_id() == old(self).spec_id(),
            final(self).spec_consistency() == old(self).spec_consistency(),
            r is Err ==> *final(self) == *old(self),
            r is Err <==> spec_multi_all_gather_error(
                old(self).spec_id(),
                seq![message],
                communicator@,
                communicator@,
                1,
                data_len as int,
            ) is Some,
            r matches Err(e) ==> Some(e) == spec_multi_all_gather_error(
                old(self).spec_id(),
                seq![message],
                communicator@,
                communicator@,
                1,
                data_len as int,
            ),
            r matches Ok(plan) ==> {
                let mids = spec_message_id_trace(final(self).spec_history()).skip(
                    old(self).spec_history().len() as int,
                );
                &&& final(self).spec_history() == old(self).spec_history() + spec_all_gather_calls(
                    seq![message],
                    communicator@,
                    communicator@,
                )
                &&& actions_view(plan.actions@) == spec_multi_all_gather_actions(
                    old(self).spec_id(),
                    old(self).spec_consistency(),
                    seq![message],
                    communicator@,
                    communicator@,
                    mids,
                    data_len as int,
                )
                &&& plan.flush_first == (old(self).spec_consistency() && communicator@.contains(
                    old(self).spec_id(),
                ))
                &&& final(self).spec_statistics() == spec_stats_after(
                    NetworkStatistics {
                        rounds: vstd::wrapping::u64_specs::wrapping_add(
                            old(self).spec_statistics().rounds,
                            1,
                        ),
                        ..old(self).spec_statistics()
                    },
                    actions_view(plan.actions@),
                )
            },
    {
        let mut messages: Vec<AllGather> = Vec::new();
        messages.push(message);
        let r = self.extended_multi_all_gather(&messages, communicator, communicator, 1, data_len);
        proof {
            assert(messages@ =~= seq![message]);
        }
        r
    }

    /// Plan a multi-all-gather over one communicator.
    pub fn multi_all_gather(
        &mut self,
        messages: &Vec<AllGather>,
        communicator: &Communicator,
        outer: usize,
        inner: usize,
    ) -> (r: Result<Plan, PlanError>)
        requires
            old(self).wf(),
            communicator.well_formed(),
            (outer as int) * (inner as int) <= usize::MAX,
        ensures
            final(self).wf(),
            final(self).spec_id() == old(self).spec_id(),
            final(self).spec_consistency() == old(self).spec_consistency(),
            r is Err ==> *final(self) == *old(self),
            r is Err <==> spec_multi_all_gather_error(
                old(self).spec_id(),
                messages@,
                communicator@,
                communicator@,
                outer as int,
                inner as int,
            ) is Some,
            r matches Err(e) ==> Some(e) == spec_multi_all_gather_error(
                old(self).spec_id(),
                messages@,
                communicator@,
                communicator@,
                outer as int,
                inner as int,
            ),
            r matches Ok(plan) ==> {
                let mids = spec_message_id_trace(final(self).spec_history()).skip(
                    old(self).spec_history().len() as int,
                );
                &&& final(self).spec_history() == old(self).spec_history() + spec_all_gather_calls(
                    messages@,
                    communicator@,
                    communicator@,
                )
                &&& actions_view(plan.actions@) == spec_multi_all_gather_actions(
                    old(self).spec_id(),
                    old(self).spec_consistency(),
                    messages@,
                    communicator@,
                    communicator@,
                    mids,
                    inner as int,
                )
                &&& plan.flush_first == (old(self).spec_consistency() && communicator@.contains(
                    old(self).spec_id(),
                ))
                &&& final(self).spec_statistics() == spec_stats_after(
                    NetworkStatistics {
                        rounds: vstd::wrapping::u64_specs::wrapping_add(
                            old(self).spec_statistics().rounds,
                            1,
                        ),
                        ..old(self).spec_statistics()
                    },
                    actions_view(plan.actions@),
                )
            },
    {
        self.extended_multi_all_gather(messages, communicator, communicator, outer, inner)
    }

    /// Plan one extended all-gather: every sender contributes one value to
    /// all receivers; the senders are a subset of the receivers and the
    /// planner is a receiver.
    pub fn extended_all_gather(
        &mut self,
        message: AllGather,
        senders: &Communicator,
        receivers: &Communicator,
        data_len: usize,
    ) -> (r: Result<Plan, PlanError>)
        requires
            old(self).wf(),
            senders.well_formed(),
            receivers.well_formed(),
        ensures
            final(self).wf(),
            final(self).spec_id() == old(self).spec_id(),
            final(self).spec_consistency() == old(self).spec_consistency(),
            r is Err ==> *final(self) == *old(self),
            r is Err <==> spec_multi_all_gather_error(
                old(self).spec_id(),
                seq![message],
                senders@,
                receivers@,
                1,
                data_len as int,
            ) is Some,
            r matches Err(e) ==> Some(e) == spec_multi_all_gather_error(
                old(self).spec_id(),
                seq![message],
                senders@,
                receivers@,
                1,
                data_len as int,
            ),
            r matches Ok(plan) ==> {
                let mids = spec_message_id_trace(final(self).spec_history()).skip(
                    old(self).spec_history().len() as int,
                );
                &&& final(self).spec_history() == old(self).spec_history() + spec_all_gather_calls(
                    seq![message],
                    senders@,
                    receivers@,
                )
                &&& actions_view(plan.actions@) == spec_multi_all_gather_actions(
                    old(self).spec_id(),
                    old(self).spec_consistency(),
                    seq![message],
                    senders@,
                    receivers@,
                    mids,
                    data_len as int,
                )
                &&& plan.flush_first == (old(self).spec_consistency() && senders@.contains(
                    old(self).spec_id(),
                ))
                &&& final(self).spec_statistics() == spec_stats_after(
                    NetworkStatistics {
                        rounds: vstd::wrapping::u64_specs::wrapping_add(
                            old(self).spec_statistics().rounds,
                            1,
                        ),
                        ..old(self).spec_statistics()
                    },
                    actions_view(plan.actions@),
                )
            },
    {
        let mut messages: Vec<AllGather> = Vec::new();
        messages.push(message);
        let r = self.extended_multi_all_gather(&messages, senders, receivers, 1, data_len);
        proof {
            assert(messages@ =~= seq![message]);
        }
        r
    }

    /// Plan an extended multi-all-gather: message `k` uses the buffer row
    /// starting at `k * inner`, one buffer per sender in id order.
    pub fn extended_multi_all_gather(
        &mut self,
        messages: &Vec<AllGather>,
        senders: &Communicator,
        receivers: &Communicator,
        outer: usize,
        inner: usize,
    ) -> (r: Result<Plan, PlanError>)
        requires
            old(self).wf(),
            senders.well_formed(),
            receivers.well_formed(),
            (outer as int) * (inner as int) <= usize::MAX,
        ensures
            final(self).wf(),
            final(self).spec_id() == old(self).spec_id(),
            final(self).spec_consistency() == old(self).spec_consistency(),
            r is Err ==> *final(self) == *old(self),
            r is Err <==> spec_multi_all_gather_error(
                old(self).spec_id(),
                messages@,
                senders@,
                receivers@,
                outer as int,
                inner as int,
            ) is Some,
            r matches Err(e) ==> Some(e) == spec_multi_all_gather_error(
                old(self).spec_id(),
                messages@,
                senders@,
                receivers@,
                outer as int,
                inner as int,
            ),
            r matches Ok(plan) ==> {
                let mids = spec_message_id_trace(final(self).spec_history()).skip(
                    old(self).spec_history().len() as int,
                );
                &&& final(self).spec_history() == old(self).spec_history() + spec_all_gather_calls(
                    messages@,
                    senders@,
                    receivers@,
                )
                &&& actions_view(plan.actions@) == spec_multi_all_gather_actions(
                    old(self).spec_id(),
                    old(self).spec_consistency(),
                    messages@,
                    senders@,
                    receivers@,
                    mids,
                    inner as int,
                )
                &&& plan.flush_first == (old(self).spec_consistency() && senders@.contains(
                    old(self).spec_id(),
                ))
                &&& final(self).spec_statistics() == spec_stats_after(
                    NetworkStatistics {
                        rounds: vstd::wrapping::u64_specs::wrapping_add(
                            old(self).spec_statistics().rounds,
                            1,
                        ),
                        ..old(self).spec_statistics()
                    },
                    actions_view(plan.actions@),
                )
            },
    {
        if senders.is_empty() || receivers.is_empty() {
            return Err(PlanError::InvalidCommunicator);
        }
        if !senders.is_subset(receivers) {
            return Err(PlanError::InvalidCommunicator);
        }
        if !receivers.contains(self.id) {
            return Err(PlanError::InvalidCommunicator);
        }
        if messages.len() != outer {
            return Err(PlanError::InvalidSize);
        }
        if senders.len() != inner {
            return Err(PlanError::InvalidSize);
        }
        let flush_first = self.consistency && senders.contains(self.id);
        self.statistics.rounds = self.statistics.rounds.wrapping_add(1);
        let ghost start_stats = self.statistics;
        let ghost start_history = self.history@;
        let mut actions: Vec<Action> = Vec::new();
        let ghost mut mids: Seq<MessageID> = Seq::empty();
        proof {
            lemma_trace_len(start_history);
            assert(spec_message_id_trace(start_history).skip(start_history.len() as int)
                =~= Seq::<MessageID>::empty());
        }
        let mut k: usize = 0;
        while k < messages.len()
            invariant
                k <= messages@.len(),
                messages@.len() == outer,
                senders@.len() == inner,
                (outer as int) * (inner as int) <= usize::MAX,
                senders.well_formed(),
                receivers.well_formed(),
                self.wf(),
                mids == spec_message_id_trace(self.spec_history()).skip(
                    start_history.len() as int,
                ),
                mids.len() == k,
                self.spec_history() == start_history + spec_all_gather_calls(
                    messages@.take(k as int),
                    senders@,
                    receivers@,
                ),
                actions_view(actions@) == spec_multi_all_gather_actions(
                    self.spec_id(),
                    self.spec_consistency(),
                    messages@.take(k as int),
                    senders@,
                    receivers@,
                    mids,
                    inner as int,
                ),
                self.spec_statistics() == spec_stats_after(start_stats, actions_view(actions@)),
                self.spec_id() == old(self).spec_id(),
                self.spec_consistency() == old(self).spec_consistency(),
                start_history == old(self).spec_history(),
            decreases messages@.len() - k,
        {
            let message = messages[k];
            let collective = Collective::AllGather(message);
            let ghost pre_history = self.history@;
            let ghost pre_message_actions = actions@;
            let mid = self.extended_next_message_id(&collective, senders, receivers);
            proof {
                mids = mids.push(mid);
                assert(self.spec_history().drop_last() =~= pre_history);
                lemma_trace_len(pre_history);
                lemma_trace_len(self.spec_history());
                assert(spec_message_id_trace(self.spec_history())
                    =~= spec_message_id_trace(pre_history).push(mid));
                assert(spec_message_id_trace(self.spec_history()).skip(start_history.len() as int)
                    =~= mids);
            }
            proof {
                assert((k as int) * (inner as int) + (inner as int) <= (outer as int) * (
                inner as int)) by (nonlinear_arith)
                    requires
                        0 <= k as int,
                        (k as int) < (outer as int),
                        0 <= inner as int,
                ;
            }
            let base = k * inner;
            let mut j: usize = 0;
            while j < senders.len()
                invariant
                    j <= senders@.len(),
                    senders@.len() == inner,
                    base == k as int * inner as int,
                    base + inner <= usize::MAX,
                    senders.well_formed(),
                    receivers.well_formed(),
                    self.wf(),
                    actions_view(actions@) == actions_view(pre_message_actions)
                        + spec_all_gather_message_actions(
                        self.spec_id(),
                        self.spec_consistency(),
                        collective,
                        senders@,
                        receivers@,
                        mid,
                        base as int,
                        j as int,
                    ),
                    self.spec_statistics() == spec_stats_after(
                        start_stats,
                        actions_view(actions@),
                    ),
                    self.spec_id() == old(self).spec_id(),
                    self.spec_consistency() == old(self).spec_consistency(),
                    self.spec_history() == pre_history.push(
                        IdCall {
                            collective,
                            senders: senders@,
                            receivers: receivers@,
                        },
                    ),
                decreases senders@.len() - j,
            {
                let ghost pre_actions = actions@;
                let sender = senders.get(j);
                if sender == self.id {
                    self.push_sends_to_others(&mut actions, &collective, receivers, mid, base + j);
                    proof {
                        lemma_actions_view_concat_auto();
                        lemma_stats_after_concat(
                            start_stats,
                            actions_view(pre_actions),
                            spec_all_gather_sender_actions(
                                self.spec_id(),
                                self.spec_consistency(),
                                collective,
                                receivers@,
                                sender,
                                mid,
                                base + j,
                            ),
                        );
                    }
                } else {
                    if self.consistency {
                        let check_receivers = receivers.without_two(self.id, sender);
                        let ghost before = actions@;
                        actions.push(
                            Action::Check {
                                check: collective.to_consistency_check(sender, check_receivers, mid),
                            },
                        );
                        proof {
                            assert(actions@.drop_last() == before);
                            assert(actions@.last()@ == spec_check_action(
                                self.spec_id(),
                                collective,
                                sender,
                                receivers@,
                                mid,
                            ));
                            assert(actions_view(actions@) =~= actions_view(pre_actions).push(
                                actions@.last()@,
                            ));
                            lemma_stats_after_push(
                                start_stats,
                                actions_view(pre_actions),
                                actions@.last()@,
                            );
                        }
                    }
                    let frame = collective.to_message(sender, self.id, mid);
                    self.statistics.received = self.statistics.received.wrapping_add(frame.size);
                    let ghost before = actions@;
                    actions.push(Action::Receive { message: frame, data: base + j });
                    proof {
                        assert(actions@.drop_last() == before);
                        assert(actions_view(actions@) =~= actions_view(before).push(
                            actions@.last()@,
                        ));
                        lemma_stats_after_push(start_stats, actions_view(before), actions@.last()@);
                        lemma_actions_view_concat_auto();
                        assert(spec_all_gather_sender_actions(
                            self.spec_id(),
                            self.spec_consistency(),
                            collective,
                            receivers@,
                            sender,
                            mid,
                            base + j,
                        ) =~= actions_view(actions@).skip(actions_view(pre_actions).len() as int));
                    }
                }
                proof {
                    let step = spec_all_gather_sender_actions(
                        self.spec_id(),
                        self.spec_consistency(),
                        collective,
                        receivers@,
                        senders@[j as int],
                        mid,
                        base as int + j as int,
                    );
                    lemma_actions_view_concat_auto();
                    assert(actions_view(actions@) =~= actions_view(pre_actions) + step);
                    assert(actions_view(actions@) == actions_view(pre_message_actions)
                        + spec_all_gather_message_actions(
                        self.spec_id(),
                        self.spec_consistency(),
                        collective,
                        senders@,
                        receivers@,
                        mid,
                        base as int,
                        j as int + 1,
                    ));
                }
                j = j + 1;
            }
            proof {
                assert(messages@.take(k as int + 1).drop_last() =~= messages@.take(k as int));
                assert(mids.drop_last() =~= spec_message_id_trace(pre_history).skip(
                    start_history.len() as int,
                ));
                assert(actions_view(actions@) == spec_multi_all_gather_actions(
                    self.spec_id(),
                    self.spec_consistency(),
                    messages@.take(k as int + 1),
                    senders@,
                    receivers@,
                    mids,
                    inner as int,
                ));
                assert(spec_all_gather_calls(messages@.take(k as int + 1), senders@, receivers@)
                    =~= spec_all_gather_calls(messages@.take(k as int), senders@, receivers@).push(
                    IdCall {
                        collective: Collective::AllGather(messages@[k as int]),
                        senders: senders@,
                        receivers: receivers@,
                    },
                ));
                assert(self.spec_history() =~= start_history + spec_all_gather_calls(
                    messages@.take(k as int + 1),
                    senders@,
                    receivers@,
                ));
            }
            k = k + 1;
        }
        proof {
            assert(messages@.take(messages@.len() as int) == messages@);
        }
        Ok(Plan { flush_first, actions })
    }
}


/// The send/receive pair actions of one all-to-all message over the first `n`
/// members: for every other member `j`, a send from buffer `send_base + j`
/// and a receive into buffer `receive_base + j`.
pub open spec fn spec_all_to_all_pairs(
    id: PartyID,
    c: Collective,
    parties: Seq<PartyID>,
    mid: MessageID,
    send_base: int,
    receive_base: int,
    n: int,
) -> Seq<SpecAction>
    decreases n,
{
    if n <= 0 {
        Seq::<SpecAction>::empty()
    } else {
        spec_all_to_all_pairs(id, c, parties, mid, send_base, receive_base, n - 1) + if parties[n
            - 1] != id {
            seq![
                SpecAction::Send {
                    message: spec_to_message(c, id, parties[n - 1], mid),
                    data: send_base + n - 1,
                },
                SpecAction::Receive {
                    message: spec_to_message(c, parties[n - 1], id, mid),
                    data: receive_base + n - 1,
                },
            ]
        } else {
            Seq::<SpecAction>::empty()
        }
    }
}

/// The actions of a multi-all-to-all: the actions of each message in order,
/// message `k` using the buffer rows starting at `k * inner`.
pub open spec fn spec_multi_all_to_all_actions(
    id: PartyID,
    messages: Seq<AllToAll>,
    comm: Seq<PartyID>,
    mids: Seq<MessageID>,
    inner: int,
) -> Seq<SpecAction>
    decreases messages.len(),
{
    if messages.len() == 0 {
        Seq::<SpecAction>::empty()
    } else {
        spec_multi_all_to_all_actions(id, messages.drop_last(), comm, mids.drop_last(), inner)
            + spec_all_to_all_pairs(
            id,
            Collective::AllToAll(messages.last()),
            comm,
            mids.last(),
            (messages.len() - 1) * inner,
            (messages.len() - 1) * inner,
            comm.len() as int,
        )
    }
}

/// The id-derivation calls of a multi-all-to-all.
pub open spec fn spec_all_to_all_calls(messages: Seq<AllToAll>, comm: Seq<PartyID>) -> Seq<IdCall> {
    messages.map_values(
        |m: AllToAll| IdCall { collective: Collective::AllToAll(m), senders: comm, receivers: comm },
    )
}

/// Why a multi-all-to-all's inputs are rejected, if they are.
pub open spec fn spec_multi_all_to_all_error(
    id: PartyID,
    messages: Seq<AllToAll>,
    comm: Seq<PartyID>,
    send_outer: int,
    send_inner: int,
    receive_outer: int,
    receive_inner: int,
) -> Option<PlanError> {
    if comm.len() == 0 {
        Some(PlanError::InvalidCommunicator)
    } else if !comm.contains(id) {
        Some(PlanError::InvalidCommunicator)
    } else if messages.len() != send_outer || messages.len() != receive_outer {
        Some(PlanError::InvalidSize)
    } else if comm.len() != send_inner || comm.len() != receive_inner {
        Some(PlanError::InvalidSize)
    } else {
        None
    }
}

impl Planner {
    /// Plan one all-to-all: every member sends a distinct buffer to, and
    /// receives a distinct buffer from, every other member.
    pub fn all_to_all(
        &mut self,
        message: AllToAll,
        communicator: &Communicator,
        send_len: usize,
        receive_len: usize,
    ) -> (r: Result<Plan, PlanError>)
        requires
            old(self).wf(),
            communicator.well_formed(),
        ensures
            final(self).wf(),
            final(self).spec_id() == old(self).spec_id(),
            final(self).spec_consistency() == old(self).spec_consistency(),
            r is Err ==> *final(self) == *old(self),
            r is Err <==> spec_multi_all_to_all_error(
                old(self).spec_id(),
                seq![message],
                communicator@,
                1,
                send_len as int,
                1,
                receive_len as int,
            ) is Some,
            r matches Err(e) ==> Some(e) == spec_multi_all_to_all_error(
                old(self).spec_id(),
                seq![message],
                communicator@,
                1,
                send_len as int,
                1,
                receive_len as int,
            ),
            r matches Ok(plan) ==> {
                let mids = spec_message_id_trace(final(self).spec_history()).skip(
                    old(self).spec_history().len() as int,
                );
                &&& final(self).spec_history() == old(self).spec_history()
                    + spec_all_to_all_calls(seq![message], communicator@)
                &&& actions_view(plan.actions@) == spec_multi_all_to_all_actions(
                    old(self).spec_id(),
                    seq![message],
                    communicator@,
                    mids,
                    send_len as int,
                )
                &&& plan.flush_first == old(self).spec_consistency()
                &&& final(self).spec_statistics() == spec_stats_after(
                    NetworkStatistics {
                        rounds: vstd::wrapping::u64_specs::wrapping_add(
                            old(self).spec_statistics().rounds,
                            1,
                        ),
                        ..old(self).spec_statistics()
                    },
                    actions_view(plan.actions@),
                )
            },
    {
        let mut messages: Vec<AllToAll> = Vec::new();
        messages.push(message);
        let r = self.multi_all_to_all(&messages, communicator, 1, send_len, 1, receive_len);
        proof {
            assert(messages@ =~= seq![message]);
        }
        r
    }

    /// Plan a multi-all-to-all: message `k` uses the send and receive buffer
    /// rows starting at `k * inner`, one buffer per member in id order; the
    /// planner's own slots are untouched.
    pub fn multi_all_to_all(
        &mut self,
        messages: &Vec<AllToAll>,
        communicator: &Communicator,
        send_outer: usize,
        send_inner: usize,
        receive_outer: usize,
        receive_inner: usize,
    ) -> (r: Result<Plan, PlanError>)
        requires
            old(self).wf(),
            communicator.well_formed(),
            (send_outer as int) * (send_inner as int) <= usize::MAX,
        ensures
            final(self).wf(),
            final(self).spec_id() == old(self).spec_id(),
            final(self).spec_consistency() == old(self).spec_consistency(),
            r is Err ==> *final(self) == *old(self),
            r is Err <==> spec_multi_all_to_all_error(
                old(self).spec_id(),
                messages@,
                communicator@,
                send_outer as int,
                send_inner as int,
                receive_outer as int,
                receive_inner as int,
            ) is Some,
            r matches Err(e) ==> Some(e) == spec_multi_all_to_all_error(
                old(self).spec_id(),
                messages@,
                communicator@,
                send_outer as int,
                send_inner as int,
                receive_outer as int,
                receive_inner as int,
            ),
            r matches Ok(plan) ==> {
                let mids = spec_message_id_trace(final(self).spec_history()).skip(
                    old(self).spec_history().len() as int,
                );
                &&& final(self).spec_history() == old(self).spec_history()
                    + spec_all_to_all_calls(messages@, communicator@)
                &&& actions_view(plan.actions@) == spec_multi_all_to_all_actions(
                    old(self).spec_id(),
                    messages@,
                    communicator@,
                    mids,
                    send_inner as int,
                )
                &&& plan.flush_first == old(self).spec_consistency()
                &&& final(self).spec_statistics() == spec_stats_after(
                    NetworkStatistics {
                        rounds: vstd::wrapping::u64_specs::wrapping_add(
                            old(self).spec_statistics().rounds,
                            1,
                        ),
                        ..old(self).spec_statistics()
                    },
                    actions_view(plan.actions@),
                )
            },
    {
        if communicator.is_empty() {
            return Err(PlanError::InvalidCommunicator);
        }
        if !communicator.contains(self.id) {
            return Err(PlanError::InvalidCommunicator);
        }
        if messages.len() != send_outer || messages.len() != receive_outer {
            return Err(PlanError::InvalidSize);
        }
        if communicator.len() != send_inner || communicator.len() != receive_inner {
            return Err(PlanError::InvalidSize);
        }
        let flush_first = self.consistency;
        self.statistics.rounds = self.statistics.rounds.wrapping_add(1);
        let ghost start_stats = self.statistics;
        let ghost start_history = self.history@;
        let mut actions: Vec<Action> = Vec::new();
        let ghost mut mids: Seq<MessageID> = Seq::empty();
        proof {
            lemma_trace_len(start_history);
            assert(spec_message_id_trace(start_history).skip(start_history.len() as int)
                =~= Seq::<MessageID>::empty());
        }
        let inner = send_inner;
        let mut k: usize = 0;
        while k < messages.len()
            invariant
                k <= messages@.len(),
                messages@.len() == send_outer,
                communicator@.len() == inner,
                (send_outer as int) * (inner as int) <= usize::MAX,
                communicator.well_formed(),
                self.wf(),
                mids == spec_message_id_trace(self.spec_history()).skip(
                    start_history.len() as int,
                ),
                mids.len() == k,
                self.spec_history() == start_history + spec_all_to_all_calls(
                    messages@.take(k as int),
                    communicator@,
                ),
                actions_view(actions@) == spec_multi_all_to_all_actions(
                    self.spec_id(),
                    messages@.take(k as int),
                    communicator@,
                    mids,
                    inner as int,
                ),
                self.spec_statistics() == spec_stats_after(start_stats, actions_view(actions@)),
                self.spec_id() == old(self).spec_id(),
                self.spec_consistency() == old(self).spec_consistency(),
                start_history == old(self).spec_history(),
            decreases messages@.len() - k,
        {
            let message = messages[k];
            let collective = Collective::AllToAll(message);
            let ghost pre_history = self.history@;
            let ghost pre_message_actions = actions@;
            let mid = self.next_message_id(&collective, communicator);
            proof {
                mids = mids.push(mid);
                assert(self.spec_history().drop_last() =~= pre_history);
                lemma_trace_len(pre_history);
                lemma_trace_len(self.spec_history());
                assert(spec_message_id_trace(self.spec_history())
                    =~= spec_message_id_trace(pre_history).push(mid));
                assert(spec_message_id_trace(self.spec_history()).skip(start_history.len() as int)
                    =~= mids);
            }
            proof {
                assert((k as int) * (inner as int) + (inner as int) <= (send_outer as int) * (
                inner as int)) by (nonlinear_arith)
                    requires
                        0 <= k as int,
                        (k as int) < (send_outer as int),
                        0 <= inner as int,
                ;
            }
            let base = k * inner;
            let mut j: usize = 0;
            while j < communicator.len()
                invariant
                    j <= communicator@.len(),
                    communicator@.len() == inner,
                    base == k as int * inner as int,
                    base + inner <= usize::MAX,
                    communicator.well_formed(),
                    self.wf(),
                    actions_view(actions@) == actions_view(pre_message_actions)
                        + spec_all_to_all_pairs(
                        self.spec_id(),
                        collective,
                        communicator@,
                        mid,
                        base as int,
                        base as int,
                        j as int,
                    ),
                    self.spec_statistics() == spec_stats_after(
                        start_stats,
                        actions_view(actions@),
                    ),
                    self.spec_id() == old(self).spec_id(),
                    self.spec_consistency() == old(self).spec_consistency(),
                    self.spec_history() == pre_history.push(
                        IdCall {
                            collective,
                            senders: communicator@,
                            receivers: communicator@,
                        },
                    ),
                decreases communicator@.len() - j,
            {
                let ghost pre_actions = actions@;
                let party = communicator.get(j);
                if party != self.id {
                    let send_frame = collective.to_message(self.id, party, mid);
                    self.statistics.sent = self.statistics.sent.wrapping_add(send_frame.size);
                    let ghost before = actions@;
                    actions.push(Action::Send { message: send_frame, data: base + j });
                    proof {
                        assert(actions@.drop_last() == before);
                        assert(actions_view(actions@) =~= actions_view(before).push(
                            actions@.last()@,
                        ));
                        lemma_stats_after_push(start_stats, actions_view(before), actions@.last()@);
                    }
                    let receive_frame = collective.to_message(party, self.id, mid);
                    self.statistics.received = self.statistics.received.wrapping_add(
                        receive_frame.size,
                    );
                    let ghost before = actions@;
                    actions.push(Action::Receive { message: receive_frame, data: base + j });
                    proof {
                        assert(actions@.drop_last() == before);
                        assert(actions_view(actions@) =~= actions_view(before).push(
                            actions@.last()@,
                        ));
                        lemma_stats_after_push(start_stats, actions_view(before), actions@.last()@);
                    }
                }
                proof {
                    let step = spec_all_to_all_pairs(
                        self.spec_id(),
                        collective,
                        communicator@,
                        mid,
                        base as int,
                        base as int,
                        j as int + 1,
                    );
                    lemma_actions_view_concat_auto();
                    assert(actions_view(actions@) == actions_view(pre_message_actions) + step);
                }
                j = j + 1;
            }
            proof {
                assert(messages@.take(k as int + 1).drop_last() =~= messages@.take(k as int));
                assert(mids.drop_last() =~= spec_message_id_trace(pre_history).skip(
                    start_history.len() as int,
                ));
                assert(actions_view(actions@) == spec_multi_all_to_all_actions(
                    self.spec_id(),
                    messages@.take(k as int + 1),
                    communicator@,
                    mids,
                    inner as int,
                ));
                assert(spec_all_to_all_calls(messages@.take(k as int + 1), communicator@)
                    =~= spec_all_to_all_calls(messages@.take(k as int), communicator@).push(
                    IdCall {
                        collective: Collective::AllToAll(messages@[k as int]),
                        senders: communicator@,
                        receivers: communicator@,
                    },
                ));
                assert(self.spec_history() =~= start_history + spec_all_to_all_calls(
                    messages@.take(k as int + 1),
                    communicator@,
                ));
            }
            k = k + 1;
        }
        proof {
            assert(messages@.take(messages@.len() as int) == messages@);
        }
        Ok(Plan { flush_first, actions })
    }
}


/// Whether an actual byte count matches the declared payload size.
pub fn check_size(x: usize, y: crate::MessageSize) -> (r: Result<
    (),
    crate::errors::SizeMismatchError,
>)
    ensures
        x as crate::MessageSize == y ==> r == Ok::<(), crate::errors::SizeMismatchError>(()),
        x as crate::MessageSize != y ==> r == Err::<(), crate::errors::SizeMismatchError>(
            crate::errors::SizeMismatchError(x as crate::MessageSize, y),
        ),
{
    let actual = x as crate::MessageSize;
    if actual == y {
        Ok(())
    } else {
        Err(crate::errors::SizeMismatchError(actual, y))
    }
}

/// What collecting the outcomes of one collective's tasks yields: the first
/// error is retained, and a second error collapses the call into a
/// `Multiple` verdict.
pub open spec fn spec_collect_outcomes(
    results: Seq<Result<(), crate::errors::SendReceiveError>>,
) -> Result<(), crate::errors::SendReceiveError>
    decreases results.len(),
{
    if results.len() == 0 {
        Ok(())
    } else {
        match (spec_collect_outcomes(results.drop_last()), results.last()) {
            (Ok(()), outcome) => outcome,
            (Err(e), Ok(())) => Err(e),
            (Err(_), Err(_)) => Err(crate::errors::SendReceiveError::Multiple),
        }
    }
}

/// Collect the outcomes of one collective's tasks, in completion order.
pub fn collect_outcomes(results: &Vec<Result<(), crate::errors::SendReceiveError>>) -> (r: Result<
    (),
    crate::errors::SendReceiveError,
>)
    ensures
        r == spec_collect_outcomes(results@),
{
    let mut outcome: Result<(), crate::errors::SendReceiveError> = Ok(());
    let mut i: usize = 0;
    while i < results.len()
        invariant
            i <= results@.len(),
            outcome == spec_collect_outcomes(results@.take(i as int)),
        decreases results@.len() - i,
    {
        let next = results[i];
        outcome = match (outcome, next) {
            (Ok(()), next) => next,
            (Err(e), Ok(())) => Err(e),
            (Err(_), Err(_)) => Err(crate::errors::SendReceiveError::Multiple),
        };
        proof {
            assert(results@.take(i as int + 1).drop_last() =~= results@.take(i as int));
            assert(results@.take(i as int + 1).last() == results@[i as int]);
        }
        i = i + 1;
    }
    proof {
        assert(results@.take(results@.len() as int) == results@);
    }
    outcome
}

} // verus!

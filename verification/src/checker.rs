//! The collective-consistency checker: per-message records of the locally
//! observed payload hash and the fellow receivers' attestations, and the
//! rules that close a record or detect equivocation.
//!
//! An attestation carries the hash a receiver saw and the data sender's own
//! signature over the frame it sent to that receiver. The checker verifies
//! each attestation under the sender's key and compares its hash with the
//! locally observed one: a mismatch under a valid signature is equivocation.

use vstd::prelude::*;

use crate::codec::{header_bytes, ReceiveMessage, SendMessage};
use crate::communicator::Communicator;
use crate::crypto::{ed25519_verifies, VerificationKeys, HASH_SIZE, SIGNATURE_SIZE};
use crate::errors::{ConsistencyCheckError, ReadExactFault, ServerError};
use crate::kind::MessageKind;
use crate::metadata::{ConsistencyCheck, Message};
use crate::{MessageDatatype, MessageID, PartyID, SessionID};

verus! {

/// One attestation's content: the payload hash a receiver observed, and the
/// data sender's signature over the frame that carried it.
#[derive(Debug, Clone)]
pub struct ConsistencyCheckData {
    pub hash: Vec<u8>,
    pub signature: Vec<u8>,
}

impl View for ConsistencyCheckData {
    type V = (Seq<u8>, Seq<u8>);

    open spec fn view(&self) -> (Seq<u8>, Seq<u8>) {
        (self.hash@, self.signature@)
    }
}

/// The identity of a checked message: the checked kind, the datatype, the
/// data sender, and the message id.
#[derive(PartialEq, Eq, Structural, Debug, Clone, Copy)]
pub struct ConsistencyCheckKey {
    pub kind: MessageKind,
    pub datatype: MessageDatatype,
    pub sender: PartyID,
    pub id: MessageID,
}

/// A consistency-check message: either received from a fellow receiver or
/// built locally from an arrived data frame.
#[derive(Debug, Clone)]
pub struct ConsistencyCheckMessage {
    pub metadata: Message,
    pub hash: Vec<u8>,
    pub signature: Vec<u8>,
}

impl ConsistencyCheckMessage {
    /// Split a received consistency-check frame's payload into the attested
    /// hash and the data sender's signature.
    pub fn from_check_frame(value: ReceiveMessage) -> (r: Result<
        ConsistencyCheckMessage,
        ServerError,
    >)
        ensures
            value.metadata.kind.spec_is_consistency_check() && value.data@.len() == HASH_SIZE
                + SIGNATURE_SIZE ==> (r matches Ok(m) && m.metadata == value.metadata && m.hash@
                == value.data@.subrange(0, HASH_SIZE as int) && m.signature@
                == value.data@.subrange(HASH_SIZE as int, value.data@.len() as int)),
            !value.metadata.kind.spec_is_consistency_check() ==> r is Err,
            value.data@.len() != HASH_SIZE + SIGNATURE_SIZE ==> r is Err,
    {
        if !value.metadata.kind.is_consistency_check() {
            return Err(ServerError::FromPrimitive(
                crate::errors::FromPrimitiveError::FromU8(value.metadata.kind.code()),
            ));
        }
        if value.data.len() != HASH_SIZE + SIGNATURE_SIZE {
            return Err(ServerError::ReadExact(ReadExactFault::FinishedEarly(value.data.len())));
        }
        let hash = vstd::slice::slice_to_vec(
            vstd::slice::slice_subrange(value.data.as_slice(), 0, HASH_SIZE),
        );
        let signature = vstd::slice::slice_to_vec(
            vstd::slice::slice_subrange(value.data.as_slice(), HASH_SIZE, value.data.len()),
        );
        Ok(ConsistencyCheckMessage { metadata: value.metadata, hash, signature })
    }

    /// Build the local attestation of an arrived data frame from its payload
    /// hash and its signature.
    pub fn from_data_frame(
        metadata: Message,
        payload_hash: Vec<u8>,
        signature: Vec<u8>,
    ) -> (r: Result<ConsistencyCheckMessage, ()>)
        ensures
            metadata.kind.spec_needs_check() ==> (r matches Ok(m) && m.metadata == metadata
                && m.hash@ == payload_hash@ && m.signature@ == signature@),
            !metadata.kind.spec_needs_check() ==> r is Err,
    {
        if metadata.kind.needs_check() {
            Ok(ConsistencyCheckMessage { metadata, hash: payload_hash, signature })
        } else {
            Err(())
        }
    }
}

/// The attested value a party reported, if it reported one.
pub type AttestationView = Option<(Seq<u8>, Seq<u8>)>;

/// The view of one receiver-table entry.
pub open spec fn entry_view(e: (PartyID, Option<ConsistencyCheckData>)) -> (
    PartyID,
    AttestationView,
) {
    (
        e.0,
        match e.1 {
            Some(d) => Some(d@),
            None => None,
        },
    )
}

/// The view of a record's receiver table: the expected or attesting parties
/// in arrival order, each with its attestation if one arrived.
pub open spec fn receivers_view(entries: Seq<(PartyID, Option<ConsistencyCheckData>)>) -> Seq<
    (PartyID, AttestationView),
>
    decreases entries.len(),
{
    if entries.len() == 0 {
        Seq::<(PartyID, AttestationView)>::empty()
    } else {
        receivers_view(entries.drop_last()).push(entry_view(entries.last()))
    }
}

/// The receiver-table view is as long as the table.
pub proof fn lemma_receivers_view_len(entries: Seq<(PartyID, Option<ConsistencyCheckData>)>)
    ensures
        receivers_view(entries).len() == entries.len(),
        forall|i: int| 0 <= i < entries.len() ==> receivers_view(entries)[i] == entry_view(
            #[trigger] entries[i],
        ),
    decreases entries.len(),
{
    if entries.len() > 0 {
        lemma_receivers_view_len(entries.drop_last());
        assert(forall|i: int| 0 <= i < entries.len() - 1 ==> entries.drop_last()[i] == (
        #[trigger] entries[i]));
    }
}

/// Whether a receiver table holds a party.
pub open spec fn table_contains(entries: Seq<(PartyID, AttestationView)>, party: PartyID) -> bool {
    exists|i: int| 0 <= i < entries.len() && (#[trigger] entries[i]).0 == party
}

/// No two table entries name the same party.
pub open spec fn table_unique(entries: Seq<(PartyID, AttestationView)>) -> bool {
    forall|i: int, j: int|
        0 <= i < j < entries.len() ==> (#[trigger] entries[i]).0 != (#[trigger] entries[j]).0
}

/// One record of the checker: the locally observed hash and signature once
/// the data frame arrived, the fellow receivers' attestations, and whether
/// the planner has registered the expectation.
pub struct ConsistencyCheckValue {
    received: Option<ConsistencyCheckData>,
    receivers: Vec<(PartyID, Option<ConsistencyCheckData>)>,
    registered: bool,
}

impl ConsistencyCheckValue {
    /// No two receiver entries name the same party.
    pub open spec fn wf(&self) -> bool {
        table_unique(self.table())
    }

    /// The view of the receiver table.
    pub closed spec fn table(&self) -> Seq<(PartyID, AttestationView)> {
        receivers_view(self.receivers@)
    }

    /// The locally observed hash and signature, if the data frame arrived.
    pub closed spec fn spec_received(&self) -> AttestationView {
        match self.received {
            Some(d) => Some(d@),
            None => None,
        }
    }

    /// Whether the planner has registered this record's expectation.
    pub closed spec fn spec_registered(&self) -> bool {
        self.registered
    }

    /// A record created by the planner's expectation: every given receiver is
    /// awaited, nothing has arrived.
    pub fn new_request(receivers: &Communicator) -> (r: ConsistencyCheckValue)
        requires
            receivers.well_formed(),
        ensures
            r.wf(),
            r.spec_registered(),
            r.spec_received() is None,
            r.table().len() == receivers@.len(),
            forall|i: int| 0 <= i < receivers@.len() ==> r.table()[i] == (
                receivers@[i],
                None::<(Seq<u8>, Seq<u8>)>,
            ),
    {
        let mut entries: Vec<(PartyID, Option<ConsistencyCheckData>)> = Vec::new();
        let mut i: usize = 0;
        while i < receivers.len()
            invariant
                i <= receivers@.len(),
                entries@.len() == i,
                receivers_view(entries@).len() == i,
                forall|k: int| 0 <= k < i ==> receivers_view(entries@)[k] == (
                    receivers@[k],
                    None::<(Seq<u8>, Seq<u8>)>,
                ),
            decreases receivers@.len() - i,
        {
            let ghost before = entries@;
            entries.push((receivers.get(i), None));
            proof {
                assert(entries@.drop_last() == before);
                assert(receivers_view(entries@) == receivers_view(before).push(
                    entry_view(entries@.last()),
                ));
                assert forall|k: int| 0 <= k < i + 1 implies receivers_view(entries@)[k] == (
                    receivers@[k],
                    None::<(Seq<u8>, Seq<u8>)>,
                ) by {
                    if k < i {
                        assert(receivers_view(entries@)[k] == receivers_view(before)[k]);
                    } else {
                        assert(receivers_view(entries@)[k] == entry_view(
                            (receivers@[k], None::<ConsistencyCheckData>),
                        ));
                    }
                }
            }
            i = i + 1;
        }
        let r = ConsistencyCheckValue { received: None, receivers: entries, registered: true };
        proof {
            let table = r.table();
            assert forall|a: int, b: int|
                0 <= a < b < table.len() implies (#[trigger] table[a]).0 != (
            #[trigger] table[b]).0 by {
                assert(receivers@[a] != receivers@[b]);
            }
        }
        r
    }

    /// A record created by an attestation that arrived before anything else.
    pub fn new_received(receiver: PartyID, check: ConsistencyCheckData) -> (r:
        ConsistencyCheckValue)
        ensures
            r.wf(),
            !r.spec_registered(),
            r.spec_received() is None,
            r.table() =~= seq![(receiver, Some(check@))],
    {
        let mut entries: Vec<(PartyID, Option<ConsistencyCheckData>)> = Vec::new();
        entries.push((receiver, Some(check)));
        let r = ConsistencyCheckValue { received: None, receivers: entries, registered: false };
        proof {
            lemma_receivers_view_len(r.receivers@);
            assert(r.table() =~= seq![(receiver, Some(check@))]);
        }
        r
    }

    /// A record created by a data frame that arrived before anything else.
    pub fn new_received_data(check: ConsistencyCheckData) -> (r: ConsistencyCheckValue)
        ensures
            r.wf(),
            !r.spec_registered(),
            r.spec_received() == Some(check@),
            r.table() =~= Seq::<(PartyID, AttestationView)>::empty(),
    {
        ConsistencyCheckValue { received: Some(check), receivers: Vec::new(), registered: false }
    }

    /// Whether the planner has registered this record's expectation.
    pub fn is_registered(&self) -> (r: bool)
        ensures
            r == self.spec_registered(),
    {
        self.registered
    }

    /// Whether this record is closed: registered, data observed, and no
    /// receiver left to hear from.
    pub fn is_done(&self) -> (r: bool)
        ensures
            r == (self.spec_registered() && self.spec_received() is Some && self.table().len()
                == 0),
    {
        proof {
            lemma_receivers_view_len(self.receivers@);
        }
        self.registered && self.received.is_some() && self.receivers.len() == 0
    }

    /// The parties of the receiver table, in table order.
    pub fn keys(&self) -> (r: Vec<PartyID>)
        ensures
            r@.len() == self.table().len(),
            forall|i: int| 0 <= i < r@.len() ==> r@[i] == self.table()[i].0,
    {
        proof {
            lemma_receivers_view_len(self.receivers@);
        }
        let mut out: Vec<PartyID> = Vec::new();
        let mut i: usize = 0;
        while i < self.receivers.len()
            invariant
                i <= self.receivers@.len(),
                self.table().len() == self.receivers@.len(),
                forall|k: int| 0 <= k < self.receivers@.len() ==> self.table()[k] == entry_view(
                    #[trigger] self.receivers@[k],
                ),
                out@.len() == i,
                forall|k: int| 0 <= k < i ==> out@[k] == self.table()[k].0,
            decreases self.receivers@.len() - i,
        {
            out.push(self.receivers[i].0);
            i = i + 1;
        }
        out
    }

    /// The locally observed hash and signature.
    pub fn data(&self) -> (r: &ConsistencyCheckData)
        requires
            self.spec_received() is Some,
        ensures
            Some(r@) == self.spec_received(),
    {
        match &self.received {
            Some(d) => d,
            None => {
                // never reached: the precondition rules this arm out
                vstd::pervasive::unreached()
            },
        }
    }
}


/// The bytes a data sender signed for the frame it sent to `receiver`: the
/// frame header with the payload hash in place of the payload. The header
/// carries no size field, so the size entry of the metadata is immaterial.
pub open spec fn attestation_input(
    key: ConsistencyCheckKey,
    receiver: PartyID,
    session: SessionID,
    hash: Seq<u8>,
) -> Seq<u8> {
    header_bytes(
        Message {
            kind: key.kind,
            datatype: key.datatype,
            sender: key.sender,
            receiver,
            id: key.id,
            size: 0,
        },
        session,
    ) + hash
}

/// Whether an attestation verifies under the data sender's key.
pub open spec fn attestation_verifies(
    keys: Map<PartyID, Seq<u8>>,
    key: ConsistencyCheckKey,
    receiver: PartyID,
    session: SessionID,
    att: (Seq<u8>, Seq<u8>),
) -> bool {
    keys.contains_key(key.sender) && ed25519_verifies(
        keys[key.sender],
        attestation_input(key, receiver, session, att.0),
        att.1,
    )
}

/// Verify one attestation: the data sender must have a known key, and its
/// signature over the frame it sent to `receiver` must verify with the
/// attested hash in place of the payload.
pub fn check_signature(
    metadata: &ConsistencyCheckKey,
    receiver: PartyID,
    check: &ConsistencyCheckData,
    verification_keys: &VerificationKeys,
    session: SessionID,
) -> (r: Result<(), ConsistencyCheckError>)
    ensures
        !verification_keys@.contains_key(metadata.sender) ==> r == Err::<
            (),
            ConsistencyCheckError,
        >(ConsistencyCheckError::UnknownSender),
        verification_keys@.contains_key(metadata.sender) ==> r == (if ed25519_verifies(
            verification_keys@[metadata.sender],
            attestation_input(*metadata, receiver, session, check.hash@),
            check.signature@,
        ) {
            Ok::<(), ConsistencyCheckError>(())
        } else {
            Err::<(), ConsistencyCheckError>(
                ConsistencyCheckError::InconsistentSignatureVerification,
            )
        }),
{
    let frame = Message::new(
        metadata.kind,
        metadata.datatype,
        metadata.sender,
        receiver,
        metadata.id,
        0,
    );
    let mut input = crate::codec::build_header(&frame, session);
    let mut hash_bytes = vstd::slice::slice_to_vec(check.hash.as_slice());
    input.append(&mut hash_bytes);
    match verification_keys.get(metadata.sender) {
        None => Err(ConsistencyCheckError::UnknownSender),
        Some(key) => {
            if key.verify(input.as_slice(), check.signature.as_slice()) {
                Ok(())
            } else {
                Err(ConsistencyCheckError::InconsistentSignatureVerification)
            }
        },
    }
}

/// The attestation a table holds for a party in its latest entry, if any.
pub open spec fn table_get(
    entries: Seq<(PartyID, AttestationView)>,
    party: PartyID,
) -> Option<AttestationView>
    decreases entries.len(),
{
    if entries.len() == 0 {
        None
    } else if entries.last().0 == party {
        Some(entries.last().1)
    } else {
        table_get(entries.drop_last(), party)
    }
}

/// The entries a registration adds to a table: one awaited entry per given
/// receiver not already in the table, in the receivers' order.
pub open spec fn spec_register_additions(
    table: Seq<(PartyID, AttestationView)>,
    receivers: Seq<PartyID>,
) -> Seq<(PartyID, AttestationView)>
    decreases receivers.len(),
{
    if receivers.len() == 0 {
        Seq::<(PartyID, AttestationView)>::empty()
    } else {
        spec_register_additions(table, receivers.drop_last()) + if !table_contains(
            table,
            receivers.last(),
        ) {
            seq![(receivers.last(), None::<(Seq<u8>, Seq<u8>)>)]
        } else {
            Seq::<(PartyID, AttestationView)>::empty()
        }
    }
}

/// The table a failed registration rebuilds: the given receivers in their
/// order, each keeping the attestation the old table held for it.
pub open spec fn spec_reindexed_table(
    table: Seq<(PartyID, AttestationView)>,
    receivers: Seq<PartyID>,
) -> Seq<(PartyID, AttestationView)>
    decreases receivers.len(),
{
    if receivers.len() == 0 {
        Seq::<(PartyID, AttestationView)>::empty()
    } else {
        spec_reindexed_table(table, receivers.drop_last()).push(
            (
                receivers.last(),
                match table_get(table, receivers.last()) {
                    Some(att) => att,
                    None => None,
                },
            ),
        )
    }
}

/// The first failure the closing scan of a record meets among its first `n`
/// attestations, if any: an unknown data sender, a signature the sender's key
/// does not accept, or a hash that differs from the locally observed one
/// (equivocation).
pub open spec fn spec_check_scan(
    entries: Seq<(PartyID, AttestationView)>,
    key: ConsistencyCheckKey,
    session: SessionID,
    keys: Map<PartyID, Seq<u8>>,
    received_hash: Seq<u8>,
    n: int,
) -> Result<(), ConsistencyCheckError>
    decreases n,
{
    if n <= 0 {
        Ok(())
    } else {
        match spec_check_scan(entries, key, session, keys, received_hash, n - 1) {
            Err(e) => Err(e),
            Ok(()) => match entries[n - 1].1 {
                None => Ok(()),
                Some(att) => if !keys.contains_key(key.sender) {
                    Err(ConsistencyCheckError::UnknownSender)
                } else if !ed25519_verifies(
                    keys[key.sender],
                    attestation_input(key, entries[n - 1].0, session, att.0),
                    att.1,
                ) {
                    Err(ConsistencyCheckError::InconsistentSignatureVerification)
                } else if att.0 != received_hash {
                    Err(ConsistencyCheckError::InconsistentCollectiveCommunication)
                } else {
                    Ok(())
                },
            },
        }
    }
}

/// The entries of a table whose attestation has not arrived yet, in order.
pub open spec fn spec_unattested(entries: Seq<(PartyID, AttestationView)>) -> Seq<
    (PartyID, AttestationView),
>
    decreases entries.len(),
{
    if entries.len() == 0 {
        Seq::<(PartyID, AttestationView)>::empty()
    } else {
        spec_unattested(entries.drop_last()) + if entries.last().1 is None {
            seq![entries.last()]
        } else {
            Seq::<(PartyID, AttestationView)>::empty()
        }
    }
}

impl ConsistencyCheckValue {
    /// Register the planner's expectation on this record: the given receivers
    /// are awaited. Fails if the record is already registered, or if a peer
    /// not among the given receivers has already attested (the table is then
    /// cut down to the given receivers).
    pub fn register(&mut self, receivers: &Communicator) -> (r: Result<
        bool,
        ConsistencyCheckError,
    >)
        requires
            old(self).wf(),
            receivers.well_formed(),
        ensures
            final(self).wf(),
            final(self).spec_received() == old(self).spec_received(),
            old(self).spec_registered() ==> r == Err::<bool, ConsistencyCheckError>(
                ConsistencyCheckError::MultipleRequests,
            ) && final(self).table() == old(self).table() && final(self).spec_registered(),
            !old(self).spec_registered() && !(forall|k: int|
                0 <= k < old(self).table().len() ==> receivers@.contains(
                    (#[trigger] old(self).table()[k]).0,
                )) ==> r == Err::<bool, ConsistencyCheckError>(ConsistencyCheckError::UnknownCheck)
                && final(self).table() == spec_reindexed_table(old(self).table(), receivers@)
                && !final(self).spec_registered(),
            !old(self).spec_registered() && (forall|k: int|
                0 <= k < old(self).table().len() ==> receivers@.contains(
                    (#[trigger] old(self).table()[k]).0,
                )) ==> r == Ok::<bool, ConsistencyCheckError>(old(self).spec_received() is Some)
                && final(self).table() == old(self).table() + spec_register_additions(
                old(self).table(),
                receivers@,
            ) && final(self).spec_registered(),
    {
        proof {
            lemma_receivers_view_len(self.receivers@);
        }
        if self.registered {
            return Err(ConsistencyCheckError::MultipleRequests);
        }
        let ghost old_table = self.table();
        // is every already-known peer among the expected receivers?
        let mut superset = true;
        let mut i: usize = 0;
        while i < self.receivers.len()
            invariant
                i <= self.receivers@.len(),
                self == old(self),
                self.table().len() == self.receivers@.len(),
                forall|k: int| 0 <= k < self.receivers@.len() ==> self.table()[k] == entry_view(
                    #[trigger] self.receivers@[k],
                ),
                superset == forall|k: int|
                    0 <= k < i ==> receivers@.contains((#[trigger] self.table()[k]).0),
            decreases self.receivers@.len() - i,
        {
            if !receivers.contains(self.receivers[i].0) {
                superset = false;
                assert(!receivers@.contains(self.table()[i as int].0));
            }
            i = i + 1;
        }
        if !superset {
            // cut the table down to the expected receivers, keeping what they
            // have already attested
            let mut drained: Vec<(PartyID, Option<ConsistencyCheckData>)> = Vec::new();
            core::mem::swap(&mut drained, &mut self.receivers);
            let mut rebuilt: Vec<(PartyID, Option<ConsistencyCheckData>)> = Vec::new();
            let mut j: usize = 0;
            while j < receivers.len()
                invariant
                    j <= receivers@.len(),
                    receivers.well_formed(),
                    receivers_view(drained@) == old_table,
                    table_unique(old_table),
                    receivers_view(rebuilt@) == spec_reindexed_table(
                        old_table,
                        receivers@.take(j as int),
                    ),
                decreases receivers@.len() - j,
            {
                let party = receivers.get(j);
                let mut idx: Option<usize> = None;
                let mut m: usize = 0;
                proof {
                    lemma_receivers_view_len(drained@);
                }
                while m < drained.len()
                    invariant
                        m <= drained@.len(),
                        old_table == receivers_view(drained@),
                        old_table.len() == drained@.len(),
                        forall|k: int| 0 <= k < drained@.len() ==> old_table[k] == entry_view(
                            #[trigger] drained@[k],
                        ),
                        match idx {
                            Some(w) => w < m && old_table[w as int].0 == party && forall|k: int|
                                w < k < m ==> (#[trigger] old_table[k]).0 != party,
                            None => forall|k: int|
                                0 <= k < m ==> (#[trigger] old_table[k]).0 != party,
                        },
                    decreases drained@.len() - m,
                {
                    if drained[m].0 == party {
                        idx = Some(m);
                    }
                    m = m + 1;
                }
                let found: Option<ConsistencyCheckData> = match idx {
                    Some(w) => {
                        proof {
                            lemma_table_get_at(old_table, party, w as int);
                        }
                        match &drained[w].1 {
                            Some(d) => Some(
                                ConsistencyCheckData {
                                    hash: vstd::slice::slice_to_vec(d.hash.as_slice()),
                                    signature: vstd::slice::slice_to_vec(d.signature.as_slice()),
                                },
                            ),
                            None => None,
                        }
                    },
                    None => {
                        proof {
                            lemma_table_get_absent(old_table, party);
                        }
                        None
                    },
                };
                let ghost pre = rebuilt@;
                rebuilt.push((party, found));
                proof {
                    assert(rebuilt@.drop_last() == pre);
                    assert(receivers@.take(j as int + 1).drop_last() =~= receivers@.take(
                        j as int,
                    ));
                    assert(receivers@.take(j as int + 1).last() == receivers@[j as int]);
                    assert(receivers_view(rebuilt@) =~= spec_reindexed_table(
                        old_table,
                        receivers@.take(j as int + 1),
                    ));
                }
                j = j + 1;
            }
            self.receivers = rebuilt;
            proof {
                assert(receivers@.take(receivers@.len() as int) == receivers@);
                lemma_receivers_view_len(self.receivers@);
                lemma_reindexed_len(old_table, receivers@);
                assert forall|a: int, b: int|
                    0 <= a < b < self.table().len() implies (#[trigger] self.table()[a]).0 != (
                #[trigger] self.table()[b]).0 by {
                    lemma_reindexed_keys(old_table, receivers@, a);
                    lemma_reindexed_keys(old_table, receivers@, b);
                }
            }
            return Err(ConsistencyCheckError::UnknownCheck);
        }
        // await the expected receivers that are not yet in the table
        let original_len = self.receivers.len();
        let mut j: usize = 0;
        while j < receivers.len()
            invariant
                j <= receivers@.len(),
                receivers.well_formed(),
                original_len == old_table.len(),
                old_table == receivers_view(old(self).receivers@),
                table_unique(old_table),
                self.receivers@.len() >= original_len,
                self.receivers@.take(original_len as int) == old(self).receivers@,
                self.received == old(self).received,
                self.registered == old(self).registered,
                self.table() == old_table + spec_register_additions(
                    old_table,
                    receivers@.take(j as int),
                ),
                forall|k: int| original_len <= k < self.table().len() ==> receivers@.take(
                    j as int,
                ).contains((#[trigger] self.table()[k]).0),
                table_unique(self.table()),
            decreases receivers@.len() - j,
        {
            let party = receivers.get(j);
            let mut present = false;
            let mut m: usize = 0;
            while m < original_len
                invariant
                    m <= original_len,
                    original_len <= self.receivers@.len(),
                    old_table == receivers_view(old(self).receivers@),
                    self.receivers@.take(original_len as int) == old(self).receivers@,
                    old_table.len() == original_len,
                    present == exists|k: int| 0 <= k < m && (#[trigger] old_table[k]).0 == party,
                decreases original_len - m,
            {
                proof {
                    lemma_receivers_view_len(old(self).receivers@);
                    assert(self.receivers@[m as int] == old(self).receivers@[m as int]);
                }
                if self.receivers[m].0 == party {
                    present = true;
                    proof {
                        assert(old_table[m as int].0 == party);
                    }
                }
                m = m + 1;
            }
            let ghost pre = self.receivers@;
            let ghost pre_table = self.table();
            if !present {
                self.receivers.push((party, None));
                proof {
                    assert(self.receivers@.drop_last() == pre);
                    assert(self.receivers@.take(original_len as int) =~= pre.take(
                        original_len as int,
                    ));
                }
            }
            proof {
                assert(receivers@.take(j as int + 1).drop_last() =~= receivers@.take(j as int));
                assert(receivers@.take(j as int + 1).last() == receivers@[j as int]);
                assert(!present == !table_contains(old_table, party));
                assert(self.table() =~= old_table + spec_register_additions(
                    old_table,
                    receivers@.take(j as int + 1),
                ));
                if !present {
                    assert forall|a: int, b: int|
                        0 <= a < b < self.table().len() implies (#[trigger] self.table()[a]).0
                        != (#[trigger] self.table()[b]).0 by {
                        if b == self.table().len() - 1 {
                            assert(self.table()[b].0 == party);
                            if a < original_len {
                                assert(self.table()[a] == old_table[a]);
                            } else {
                                assert(receivers@.take(j as int).contains(self.table()[a].0));
                                assert(receivers@[j as int] == party);
                                let key_a = self.table()[a].0;
                                let w = choose|w: int|
                                    0 <= w < j && receivers@.take(j as int)[w] == key_a;
                                assert(receivers@[w] == self.table()[a].0);
                            }
                        } else {
                            assert(self.table()[a] == pre_table[a]);
                            assert(self.table()[b] == pre_table[b]);
                        }
                    }
                }
            }
            j = j + 1;
        }
        self.registered = true;
        proof {
            assert(receivers@.take(receivers@.len() as int) == receivers@);
        }
        Ok(self.received.is_some())
    }
}

/// A table's latest entry for a party is what `table_get` finds.
proof fn lemma_table_get_at(entries: Seq<(PartyID, AttestationView)>, party: PartyID, j: int)
    requires
        0 <= j < entries.len(),
        entries[j].0 == party,
        forall|k: int| j < k < entries.len() ==> (#[trigger] entries[k]).0 != party,
    ensures
        table_get(entries, party) == Some(entries[j].1),
    decreases entries.len(),
{
    if j < entries.len() - 1 {
        assert(entries.drop_last()[j] == entries[j]);
        assert(forall|k: int| j < k < entries.len() - 1 ==> (#[trigger] entries.drop_last()[k])
            == entries[k]);
        lemma_table_get_at(entries.drop_last(), party, j);
    }
}

/// A party no entry names is not found by `table_get`.
proof fn lemma_table_get_absent(entries: Seq<(PartyID, AttestationView)>, party: PartyID)
    requires
        forall|k: int| 0 <= k < entries.len() ==> (#[trigger] entries[k]).0 != party,
    ensures
        table_get(entries, party) is None,
    decreases entries.len(),
{
    if entries.len() > 0 {
        assert(forall|k: int| 0 <= k < entries.len() - 1 ==> (#[trigger] entries.drop_last()[k])
            == entries[k]);
        lemma_table_get_absent(entries.drop_last(), party);
    }
}

/// The length of a reindexed table.
proof fn lemma_reindexed_len(table: Seq<(PartyID, AttestationView)>, receivers: Seq<PartyID>)
    ensures
        spec_reindexed_table(table, receivers).len() == receivers.len(),
    decreases receivers.len(),
{
    if receivers.len() > 0 {
        lemma_reindexed_len(table, receivers.drop_last());
    }
}

/// Every key of a reindexed table comes from the given receivers, position
/// by position.
proof fn lemma_reindexed_keys(
    table: Seq<(PartyID, AttestationView)>,
    receivers: Seq<PartyID>,
    i: int,
)
    requires
        0 <= i < receivers.len(),
    ensures
        spec_reindexed_table(table, receivers)[i].0 == receivers[i],
    decreases receivers.len(),
{
    lemma_reindexed_len(table, receivers);
    if i < receivers.len() - 1 {
        lemma_reindexed_keys(table, receivers.drop_last(), i);
        assert(receivers.drop_last()[i] == receivers[i]);
        lemma_reindexed_len(table, receivers.drop_last());
    }
}


impl ConsistencyCheckValue {
    /// Record a peer's attestation. Fails if the peer already attested, or if
    /// it was not expected of a registered record.
    pub fn receive(&mut self, receiver: PartyID, check: ConsistencyCheckData) -> (r: Result<
        (),
        ConsistencyCheckError,
    >)
        requires
            old(self).wf(),
        ensures
            final(self).wf(),
            final(self).spec_received() == old(self).spec_received(),
            final(self).spec_registered() == old(self).spec_registered(),
            ({
                let table = old(self).table();
                if table_contains(table, receiver) {
                    let j = choose|j: int|
                        0 <= j < table.len() && (#[trigger] table[j]).0 == receiver;
                    if table[j].1 is Some {
                        r == Err::<(), ConsistencyCheckError>(
                            ConsistencyCheckError::MultipleChecks,
                        ) && final(self).table() == table
                    } else {
                        r == Ok::<(), ConsistencyCheckError>(()) && final(self).table()
                            == table.update(j, (receiver, Some(check@)))
                    }
                } else if old(self).spec_registered() {
                    r == Err::<(), ConsistencyCheckError>(ConsistencyCheckError::UnknownCheck)
                        && final(self).table() == table
                } else {
                    r == Ok::<(), ConsistencyCheckError>(()) && final(self).table() == table.push(
                        (receiver, Some(check@)),
                    )
                }
            }),
    {
        proof {
            lemma_receivers_view_len(self.receivers@);
        }
        let ghost table = self.table();
        let ghost checkv = check@;
        let mut idx: Option<usize> = None;
        let mut m: usize = 0;
        while m < self.receivers.len()
            invariant
                m <= self.receivers@.len(),
                self == old(self),
                table == self.table(),
                table.len() == self.receivers@.len(),
                forall|i: int| 0 <= i < self.receivers@.len() ==> table[i] == entry_view(
                    #[trigger] self.receivers@[i],
                ),
                match idx {
                    Some(w) => w < m && table[w as int].0 == receiver,
                    None => forall|k: int| 0 <= k < m ==> (#[trigger] table[k]).0 != receiver,
                },
            decreases self.receivers@.len() - m,
        {
            if idx.is_none() && self.receivers[m].0 == receiver {
                idx = Some(m);
            }
            m = m + 1;
        }
        match idx {
            Some(w) => {
                proof {
                    assert(table_contains(table, receiver));
                    let j = choose|j: int|
                        0 <= j < table.len() && (#[trigger] table[j]).0 == receiver;
                    // the table's keys are unique, so the found index is the one
                    assert(j == w as int);
                }
                let attested = self.receivers[w].1.is_some();
                if attested {
                    return Err(ConsistencyCheckError::MultipleChecks);
                }
                let ghost pre = self.receivers@;
                let entry = self.receivers.remove(w);
                self.receivers.insert(w, (receiver, Some(check)));
                proof {
                    assert(self.receivers@ =~= pre.update(w as int, self.receivers@[w as int]));
                    lemma_receivers_view_len(self.receivers@);
                    assert(entry_view(self.receivers@[w as int]) == (receiver, Some(checkv)));
                    let updated = table.update(w as int, (receiver, Some(checkv)));
                    assert(self.table().len() == updated.len());
                    assert forall|k: int| 0 <= k < updated.len() implies self.table()[k]
                        == updated[k] by {
                        if k != w {
                            assert(self.receivers@[k] == pre[k]);
                        }
                    }
                    assert(self.table() =~= updated);
                }
                Ok(())
            },
            None => {
                proof {
                    assert(!table_contains(table, receiver));
                }
                if self.registered {
                    return Err(ConsistencyCheckError::UnknownCheck);
                }
                let ghost pre = self.receivers@;
                self.receivers.push((receiver, Some(check)));
                proof {
                    assert(self.receivers@.drop_last() == pre);
                    lemma_receivers_view_len(self.receivers@);
                    assert(self.table() =~= table.push((receiver, Some(checkv))));
                }
                Ok(())
            },
        }
    }

    /// Record the locally observed data frame's hash and signature. Fails if
    /// one was recorded before; returns whether the record is registered, so
    /// the caller knows to notify the expected receivers.
    pub fn receive_data(&mut self, check: ConsistencyCheckData) -> (r: Result<
        bool,
        ConsistencyCheckError,
    >)
        requires
            old(self).wf(),
        ensures
            final(self).wf(),
            final(self).spec_registered() == old(self).spec_registered(),
            final(self).table() == old(self).table(),
            old(self).spec_received() is Some ==> r == Err::<bool, ConsistencyCheckError>(
                ConsistencyCheckError::MultipleMessages,
            ) && final(self).spec_received() == old(self).spec_received(),
            old(self).spec_received() is None ==> r == Ok::<bool, ConsistencyCheckError>(
                old(self).spec_registered(),
            ) && final(self).spec_received() == Some(check@),
    {
        if self.received.is_some() {
            return Err(ConsistencyCheckError::MultipleMessages);
        }
        self.received = Some(check);
        Ok(self.registered)
    }

    /// Try to close this record: once it is registered and the data frame was
    /// observed, verify every attestation that has arrived against the data
    /// sender's key and the locally observed hash, and drop the verified
    /// entries. The first failing attestation fails the record: an unknown
    /// sender, a signature the key refuses, or — equivocation — a hash that
    /// differs from the locally observed one.
    pub fn check(
        &mut self,
        metadata: &ConsistencyCheckKey,
        verification_keys: &VerificationKeys,
        session: SessionID,
    ) -> (r: Result<bool, ConsistencyCheckError>)
        requires
            old(self).wf(),
        ensures
            final(self).wf(),
            final(self).spec_registered() == old(self).spec_registered(),
            final(self).spec_received() == old(self).spec_received(),
            !(old(self).spec_registered() && old(self).spec_received() is Some) ==> r == Ok::<
                bool,
                ConsistencyCheckError,
            >(false) && final(self).table() == old(self).table(),
            old(self).spec_registered() && old(self).spec_received() is Some ==> ({
                let scan = spec_check_scan(
                    old(self).table(),
                    *metadata,
                    session,
                    verification_keys@,
                    old(self).spec_received()->Some_0.0,
                    old(self).table().len() as int,
                );
                match r {
                    Ok(done) => done && scan == Ok::<(), ConsistencyCheckError>(())
                        && final(self).table() == spec_unattested(old(self).table()),
                    Err(e) => scan == Err::<(), ConsistencyCheckError>(e) && final(self).table()
                        == old(self).table(),
                }
            }),
    {
        proof {
            lemma_receivers_view_len(self.receivers@);
        }
        if !self.registered {
            return Ok(false);
        }
        let received_hash = match &self.received {
            Some(d) => vstd::slice::slice_to_vec(d.hash.as_slice()),
            None => {
                return Ok(false);
            },
        };
        let ghost table = self.table();
        let ghost received_view = self.spec_received()->Some_0.0;
        let mut i: usize = 0;
        while i < self.receivers.len()
            invariant
                old(self).wf(),
                old(self).spec_registered(),
                old(self).spec_received() is Some,
                received_view == old(self).spec_received()->Some_0.0,
                i <= self.receivers@.len(),
                self == old(self),
                table == self.table(),
                table.len() == self.receivers@.len(),
                forall|k: int| 0 <= k < self.receivers@.len() ==> table[k] == entry_view(
                    #[trigger] self.receivers@[k],
                ),
                received_hash@ == received_view,
                spec_check_scan(
                    table,
                    *metadata,
                    session,
                    verification_keys@,
                    received_view,
                    i as int,
                ) == Ok::<(), ConsistencyCheckError>(()),
            decreases self.receivers@.len() - i,
        {
            let entry_attested = self.receivers[i].1.is_some();
            if entry_attested {
                let party = self.receivers[i].0;
                let outcome = match &self.receivers[i].1 {
                    Some(att) => {
                        let signature_outcome = check_signature(
                            metadata,
                            party,
                            att,
                            verification_keys,
                            session,
                        );
                        match signature_outcome {
                            Err(e) => Err(e),
                            Ok(()) => {
                                if !crate::codec::bytes_eq(&att.hash, &received_hash) {
                                    Err(ConsistencyCheckError::InconsistentCollectiveCommunication)
                                } else {
                                    Ok(())
                                }
                            },
                        }
                    },
                    None => Ok(()),
                };
                match outcome {
                    Err(e) => {
                        proof {
                            assert(spec_check_scan(
                                table,
                                *metadata,
                                session,
                                verification_keys@,
                                received_view,
                                i as int + 1,
                            ) == Err::<(), ConsistencyCheckError>(e));
                            lemma_scan_err_persists(
                                table,
                                *metadata,
                                session,
                                verification_keys@,
                                received_view,
                                i as int + 1,
                                table.len() as int,
                            );
                        }
                        return Err(e);
                    },
                    Ok(()) => (),
                }
            }
            i = i + 1;
        }
        // every arrived attestation verified and matched: drop them
        let mut drained: Vec<(PartyID, Option<ConsistencyCheckData>)> = Vec::new();
        core::mem::swap(&mut drained, &mut self.receivers);
        let ghost all = drained@;
        let mut j: usize = 0;
        while j < drained.len()
            invariant
                old(self).wf(),
                old(self).spec_registered(),
                old(self).spec_received() is Some,
                received_view == old(self).spec_received()->Some_0.0,
                spec_check_scan(
                    table,
                    *metadata,
                    session,
                    verification_keys@,
                    received_view,
                    table.len() as int,
                ) == Ok::<(), ConsistencyCheckError>(()),
                j <= drained@.len(),
                drained@ == all,
                table == old(self).table(),
                table == receivers_view(all),
                table.len() == all.len(),
                forall|k: int| 0 <= k < all.len() ==> table[k] == entry_view(#[trigger] all[k]),
                receivers_view(self.receivers@) == spec_unattested(table.take(j as int)),
                self.registered == old(self).registered,
                self.received == old(self).received,
            decreases drained@.len() - j,
        {
            let keep = match &drained[j].1 {
                Some(_) => false,
                None => true,
            };
            let ghost pre = self.receivers@;
            if keep {
                let party = drained[j].0;
                self.receivers.push((party, None));
                proof {
                    assert(self.receivers@.drop_last() == pre);
                }
            }
            proof {
                assert(table.take(j as int + 1).drop_last() =~= table.take(j as int));
                assert(table.take(j as int + 1).last() == table[j as int]);
                assert(receivers_view(self.receivers@) =~= spec_unattested(
                    table.take(j as int + 1),
                ));
            }
            j = j + 1;
        }
        proof {
            assert(table.take(table.len() as int) == table);
            lemma_unattested_unique(table);
        }
        Ok(true)
    }
}

/// Once the closing scan has met an error, a longer scan meets the same one.
proof fn lemma_scan_err_persists(
    entries: Seq<(PartyID, AttestationView)>,
    key: ConsistencyCheckKey,
    session: SessionID,
    keys: Map<PartyID, Seq<u8>>,
    received_hash: Seq<u8>,
    m: int,
    n: int,
)
    requires
        0 <= m <= n,
        spec_check_scan(entries, key, session, keys, received_hash, m) is Err,
    ensures
        spec_check_scan(entries, key, session, keys, received_hash, n) == spec_check_scan(
            entries,
            key,
            session,
            keys,
            received_hash,
            m,
        ),
    decreases n - m,
{
    if n > m {
        lemma_scan_err_persists(entries, key, session, keys, received_hash, m, n - 1);
    }
}

/// The unattested entries of a table with unique keys keep unique keys.
proof fn lemma_unattested_unique(table: Seq<(PartyID, AttestationView)>)
    requires
        table_unique(table),
    ensures
        table_unique(spec_unattested(table)),
        forall|i: int| 0 <= i < spec_unattested(table).len() ==> table_contains(
            table,
            (#[trigger] spec_unattested(table)[i]).0,
        ),
    decreases table.len(),
{
    if table.len() > 0 {
        assert(forall|k: int| 0 <= k < table.len() - 1 ==> (#[trigger] table.drop_last()[k])
            == table[k]);
        lemma_unattested_unique(table.drop_last());
        let sub = spec_unattested(table.drop_last());
        let whole = spec_unattested(table);
        assert forall|i: int, j: int|
            0 <= i < j < whole.len() implies (#[trigger] whole[i]).0 != (
        #[trigger] whole[j]).0 by {
            if j < sub.len() {
            } else {
                assert(whole[j] == table.last());
                assert(table_contains(table.drop_last(), whole[i].0) || whole[i]
                    == table.last());
                if table_contains(table.drop_last(), whole[i].0) {
                    let w = choose|w: int|
                        0 <= w < table.drop_last().len() && (#[trigger] table.drop_last()[w]).0
                            == whole[i].0;
                    assert(table[w].0 == whole[i].0);
                    assert(table[w].0 != table.last().0);
                }
            }
        }
        assert forall|i: int| 0 <= i < whole.len() implies table_contains(
            table,
            (#[trigger] whole[i]).0,
        ) by {
            if i < sub.len() {
                assert(table_contains(table.drop_last(), sub[i].0));
                let w = choose|w: int|
                    0 <= w < table.drop_last().len() && (#[trigger] table.drop_last()[w]).0
                        == sub[i].0;
                assert(table[w].0 == sub[i].0);
            } else {
                assert(whole[i] == table.last());
                assert(table[table.len() - 1].0 == whole[i].0);
            }
        }
    }
}


/// When every attestation that has arrived carries the locally observed hash
/// and a signature the data sender's key accepts, the closing scan accepts
/// the record: a broadcast all of whose receivers observed the sender's
/// payload closes cleanly, and `wait` can report success.
pub proof fn lemma_all_matching_attestations_close(
    entries: Seq<(PartyID, AttestationView)>,
    key: ConsistencyCheckKey,
    session: SessionID,
    keys: Map<PartyID, Seq<u8>>,
    received_hash: Seq<u8>,
    n: int,
)
    requires
        n <= entries.len(),
        keys.contains_key(key.sender),
        forall|i: int| 0 <= i < entries.len() && (#[trigger] entries[i]).1 is Some ==> ({
            let att = entries[i].1->Some_0;
            att.0 == received_hash && ed25519_verifies(
                keys[key.sender],
                attestation_input(key, entries[i].0, session, att.0),
                att.1,
            )
        }),
    ensures
        spec_check_scan(entries, key, session, keys, received_hash, n) == Ok::<
            (),
            ConsistencyCheckError,
        >(()),
    decreases n,
{
    if n > 0 {
        lemma_all_matching_attestations_close(entries, key, session, keys, received_hash, n - 1);
    }
}

/// When every arrived attestation carries a signature the data sender's key
/// accepts, but one of them carries a hash that differs from the locally
/// observed one, the closing scan detects equivocation: the record fails with
/// `InconsistentCollectiveCommunication`, and the next `wait` reports it.
pub proof fn lemma_mismatching_attestation_detected(
    entries: Seq<(PartyID, AttestationView)>,
    key: ConsistencyCheckKey,
    session: SessionID,
    keys: Map<PartyID, Seq<u8>>,
    received_hash: Seq<u8>,
)
    requires
        keys.contains_key(key.sender),
        forall|i: int| 0 <= i < entries.len() && (#[trigger] entries[i]).1 is Some ==> ({
            let att = entries[i].1->Some_0;
            ed25519_verifies(
                keys[key.sender],
                attestation_input(key, entries[i].0, session, att.0),
                att.1,
            )
        }),
        exists|i: int| 0 <= i < entries.len() && (#[trigger] entries[i]).1 is Some
            && entries[i].1->Some_0.0 != received_hash,
    ensures
        spec_check_scan(entries, key, session, keys, received_hash, entries.len() as int) == Err::<
            (),
            ConsistencyCheckError,
        >(ConsistencyCheckError::InconsistentCollectiveCommunication),
{
    let w = choose|i: int|
        0 <= i < entries.len() && (#[trigger] entries[i]).1 is Some && entries[i].1->Some_0.0
            != received_hash;
    lemma_scan_hits_first_mismatch(entries, key, session, keys, received_hash, w);
}

proof fn lemma_scan_hits_first_mismatch(
    entries: Seq<(PartyID, AttestationView)>,
    key: ConsistencyCheckKey,
    session: SessionID,
    keys: Map<PartyID, Seq<u8>>,
    received_hash: Seq<u8>,
    w: int,
)
    requires
        0 <= w < entries.len(),
        keys.contains_key(key.sender),
        forall|i: int| 0 <= i < entries.len() && (#[trigger] entries[i]).1 is Some ==> ({
            let att = entries[i].1->Some_0;
            ed25519_verifies(
                keys[key.sender],
                attestation_input(key, entries[i].0, session, att.0),
                att.1,
            )
        }),
        entries[w].1 is Some,
        entries[w].1->Some_0.0 != received_hash,
    ensures
        spec_check_scan(entries, key, session, keys, received_hash, entries.len() as int) == Err::<
            (),
            ConsistencyCheckError,
        >(ConsistencyCheckError::InconsistentCollectiveCommunication),
    decreases entries.len(),
{
    lemma_scan_mismatch_from(entries, key, session, keys, received_hash, w + 1);
}

/// A scan that has already passed a mismatching entry stays failed; a scan
/// short of one fails no later than the first mismatch it meets.
proof fn lemma_scan_mismatch_from(
    entries: Seq<(PartyID, AttestationView)>,
    key: ConsistencyCheckKey,
    session: SessionID,
    keys: Map<PartyID, Seq<u8>>,
    received_hash: Seq<u8>,
    n: int,
)
    requires
        0 < n <= entries.len(),
        keys.contains_key(key.sender),
        forall|i: int| 0 <= i < entries.len() && (#[trigger] entries[i]).1 is Some ==> ({
            let att = entries[i].1->Some_0;
            ed25519_verifies(
                keys[key.sender],
                attestation_input(key, entries[i].0, session, att.0),
                att.1,
            )
        }),
        exists|i: int| 0 <= i < n && (#[trigger] entries[i]).1 is Some && entries[i].1->Some_0.0
            != received_hash,
    ensures
        spec_check_scan(entries, key, session, keys, received_hash, entries.len() as int) == Err::<
            (),
            ConsistencyCheckError,
        >(ConsistencyCheckError::InconsistentCollectiveCommunication),
    decreases entries.len() - n,
{
    let scan_n = spec_check_scan(entries, key, session, keys, received_hash, n);
    if scan_n is Err {
        assert(scan_n == Err::<(), ConsistencyCheckError>(
            ConsistencyCheckError::InconsistentCollectiveCommunication,
        )) by {
            lemma_scan_only_mismatch_errors(entries, key, session, keys, received_hash, n);
        }
        lemma_scan_err_persists(
            entries,
            key,
            session,
            keys,
            received_hash,
            n,
            entries.len() as int,
        );
    } else {
        assert(n < entries.len()) by {
            if n == entries.len() {
                lemma_scan_ok_prefix(entries, key, session, keys, received_hash, n);
                assert(false);
            }
        }
        lemma_scan_mismatch_from(entries, key, session, keys, received_hash, n + 1);
    }
}

/// Under universally valid signatures, the only error a scan can meet is the
/// hash mismatch.
proof fn lemma_scan_only_mismatch_errors(
    entries: Seq<(PartyID, AttestationView)>,
    key: ConsistencyCheckKey,
    session: SessionID,
    keys: Map<PartyID, Seq<u8>>,
    received_hash: Seq<u8>,
    n: int,
)
    requires
        0 <= n <= entries.len(),
        keys.contains_key(key.sender),
        forall|i: int| 0 <= i < entries.len() && (#[trigger] entries[i]).1 is Some ==> ({
            let att = entries[i].1->Some_0;
            ed25519_verifies(
                keys[key.sender],
                attestation_input(key, entries[i].0, session, att.0),
                att.1,
            )
        }),
        spec_check_scan(entries, key, session, keys, received_hash, n) is Err,
    ensures
        spec_check_scan(entries, key, session, keys, received_hash, n) == Err::<
            (),
            ConsistencyCheckError,
        >(ConsistencyCheckError::InconsistentCollectiveCommunication),
    decreases n,
{
    if n > 0 {
        if spec_check_scan(entries, key, session, keys, received_hash, n - 1) is Err {
            lemma_scan_only_mismatch_errors(entries, key, session, keys, received_hash, n - 1);
        }
    }
}

/// A scan that accepted every prefix step accepts only if no scanned entry
/// mismatches.
proof fn lemma_scan_ok_prefix(
    entries: Seq<(PartyID, AttestationView)>,
    key: ConsistencyCheckKey,
    session: SessionID,
    keys: Map<PartyID, Seq<u8>>,
    received_hash: Seq<u8>,
    n: int,
)
    requires
        0 <= n <= entries.len(),
        spec_check_scan(entries, key, session, keys, received_hash, n) is Ok,
    ensures
        forall|i: int| 0 <= i < n && (#[trigger] entries[i]).1 is Some ==> entries[i].1->Some_0.0
            == received_hash,
    decreases n,
{
    if n > 0 {
        lemma_scan_ok_prefix(entries, key, session, keys, received_hash, n - 1);
    }
}


/// The last entry of a record list holding a key, if any.
pub open spec fn find_key(
    entries: Seq<(ConsistencyCheckKey, CheckValueView)>,
    key: ConsistencyCheckKey,
) -> Option<int>
    decreases entries.len(),
{
    if entries.len() == 0 {
        None
    } else if entries.last().0 == key {
        Some(entries.len() - 1)
    } else {
        find_key(entries.drop_last(), key)
    }
}

/// The spec-level view of one record.
pub struct CheckValueView {
    pub received: AttestationView,
    pub table: Seq<(PartyID, AttestationView)>,
    pub registered: bool,
}

impl View for ConsistencyCheckValue {
    type V = CheckValueView;

    open spec fn view(&self) -> CheckValueView {
        CheckValueView {
            received: self.spec_received(),
            table: self.table(),
            registered: self.spec_registered(),
        }
    }
}

/// What registering does to a record: the result, the new table, and whether
/// the record is registered afterwards.
pub open spec fn spec_register_t(v: CheckValueView, receivers: Seq<PartyID>) -> (
    Result<bool, ConsistencyCheckError>,
    CheckValueView,
) {
    if v.registered {
        (Err(ConsistencyCheckError::MultipleRequests), v)
    } else if !(forall|k: int|
        0 <= k < v.table.len() ==> receivers.contains((#[trigger] v.table[k]).0)) {
        (
            Err(ConsistencyCheckError::UnknownCheck),
            CheckValueView { table: spec_reindexed_table(v.table, receivers), ..v },
        )
    } else {
        (
            Ok(v.received is Some),
            CheckValueView {
                table: v.table + spec_register_additions(v.table, receivers),
                registered: true,
                ..v
            },
        )
    }
}

/// What recording an attestation does to a record.
pub open spec fn spec_receive_t(
    v: CheckValueView,
    receiver: PartyID,
    att: (Seq<u8>, Seq<u8>),
) -> (Result<(), ConsistencyCheckError>, CheckValueView) {
    if table_contains(v.table, receiver) {
        let j = choose|j: int| 0 <= j < v.table.len() && (#[trigger] v.table[j]).0 == receiver;
        if v.table[j].1 is Some {
            (Err(ConsistencyCheckError::MultipleChecks), v)
        } else {
            (Ok(()), CheckValueView { table: v.table.update(j, (receiver, Some(att))), ..v })
        }
    } else if v.registered {
        (Err(ConsistencyCheckError::UnknownCheck), v)
    } else {
        (Ok(()), CheckValueView { table: v.table.push((receiver, Some(att))), ..v })
    }
}

/// What recording the local data frame does to a record.
pub open spec fn spec_receive_data_t(v: CheckValueView, att: (Seq<u8>, Seq<u8>)) -> (
    Result<bool, ConsistencyCheckError>,
    CheckValueView,
) {
    if v.received is Some {
        (Err(ConsistencyCheckError::MultipleMessages), v)
    } else {
        (Ok(v.registered), CheckValueView { received: Some(att), ..v })
    }
}

/// What trying to close a record does to it.
pub open spec fn spec_check_t(
    v: CheckValueView,
    key: ConsistencyCheckKey,
    session: SessionID,
    keys: Map<PartyID, Seq<u8>>,
) -> (Result<bool, ConsistencyCheckError>, CheckValueView) {
    if !(v.registered && v.received is Some) {
        (Ok(false), v)
    } else {
        match spec_check_scan(
            v.table,
            key,
            session,
            keys,
            v.received->Some_0.0,
            v.table.len() as int,
        ) {
            Ok(()) => (Ok(true), CheckValueView { table: spec_unattested(v.table), ..v }),
            Err(e) => (Err(e), v),
        }
    }
}

/// Whether a record is closed and can be dropped.
pub open spec fn spec_done(v: CheckValueView) -> bool {
    v.registered && v.received is Some && v.table.len() == 0
}

/// The view of a list of notification effects.
pub open spec fn effects_view(effects: Seq<(PartyID, SendMessage)>) -> Seq<
    (PartyID, Message, Seq<u8>),
>
    decreases effects.len(),
{
    if effects.len() == 0 {
        Seq::<(PartyID, Message, Seq<u8>)>::empty()
    } else {
        effects_view(effects.drop_last()).push(
            (effects.last().0, effects.last().1.metadata, effects.last().1.data@),
        )
    }
}

/// The check kind that announces a checked kind's attestation.
pub open spec fn spec_check_kind(kind: MessageKind) -> MessageKind {
    if kind == MessageKind::Broadcast {
        MessageKind::ConsistencyCheckBroadcast
    } else {
        MessageKind::ConsistencyCheckAllGather
    }
}

/// The notifications that announce the locally observed hash and signature of
/// a record to the first `n` of its expected receivers: one consistency-check
/// frame per target, whose payload is the hash followed by the signature.
pub open spec fn spec_notifications(
    id: PartyID,
    key: ConsistencyCheckKey,
    targets: Seq<PartyID>,
    data: (Seq<u8>, Seq<u8>),
    n: int,
) -> Seq<(PartyID, Message, Seq<u8>)>
    decreases n,
{
    if n <= 0 {
        Seq::<(PartyID, Message, Seq<u8>)>::empty()
    } else {
        spec_notifications(id, key, targets, data, n - 1).push(
            (
                targets[n - 1],
                Message {
                    kind: spec_check_kind(key.kind),
                    datatype: key.datatype,
                    sender: key.sender,
                    receiver: id,
                    id: key.id,
                    size: (data.0.len() + data.1.len()) as crate::MessageSize,
                },
                data.0 + data.1,
            ),
        )
    }
}

/// The record list of the checker: each checked message's key with its
/// record, no key twice.
pub open spec fn records_unique(entries: Seq<(ConsistencyCheckKey, CheckValueView)>) -> bool {
    forall|i: int, j: int|
        0 <= i < j < entries.len() ==> (#[trigger] entries[i]).0 != (#[trigger] entries[j]).0
}

/// Whether no record is registered: the checker owes nothing and a `wait`
/// can be answered.
pub open spec fn spec_is_consistent(entries: Seq<(ConsistencyCheckKey, CheckValueView)>) -> bool {
    forall|i: int| 0 <= i < entries.len() ==> !(#[trigger] entries[i]).1.registered
}

/// The collective-consistency checker of one runtime: its party id, the run's
/// session, the roster's verification keys, the open records, and the first
/// failure met, which `wait` reports.
pub struct Checker {
    id: PartyID,
    session: SessionID,
    keys: VerificationKeys,
    records: Vec<(ConsistencyCheckKey, ConsistencyCheckValue)>,
    failure: Option<ConsistencyCheckError>,
}

/// The view of the checker's record list.
pub open spec fn records_view(records: Seq<(ConsistencyCheckKey, ConsistencyCheckValue)>) -> Seq<
    (ConsistencyCheckKey, CheckValueView),
>
    decreases records.len(),
{
    if records.len() == 0 {
        Seq::<(ConsistencyCheckKey, CheckValueView)>::empty()
    } else {
        records_view(records.drop_last()).push((records.last().0, records.last().1@))
    }
}

proof fn lemma_records_view_len(records: Seq<(ConsistencyCheckKey, ConsistencyCheckValue)>)
    ensures
        records_view(records).len() == records.len(),
        forall|i: int| 0 <= i < records.len() ==> records_view(records)[i] == (
            (#[trigger] records[i]).0,
            records[i].1@,
        ),
    decreases records.len(),
{
    if records.len() > 0 {
        lemma_records_view_len(records.drop_last());
        assert(forall|i: int| 0 <= i < records.len() - 1 ==> records.drop_last()[i] == (
        #[trigger] records[i]));
    }
}

impl Checker {
    /// Every record is well formed and no key repeats.
    pub open spec fn wf(&self) -> bool {
        &&& records_unique(self.spec_records())
        &&& forall|i: int| 0 <= i < self.spec_records().len() ==> table_unique(
            (#[trigger] self.spec_records()[i]).1.table,
        )
        &&& forall|i: int| 0 <= i < self.spec_records().len() ==> (
        #[trigger] self.spec_records()[i]).0.kind.spec_needs_check()
    }

    /// The open records.
    pub closed spec fn spec_records(&self) -> Seq<(ConsistencyCheckKey, CheckValueView)> {
        records_view(self.records@)
    }

    /// The first failure met so far.
    pub closed spec fn spec_failure(&self) -> Option<ConsistencyCheckError> {
        self.failure
    }

    /// This checker's own party id.
    pub closed spec fn spec_id(&self) -> PartyID {
        self.id
    }

    /// The run's session id.
    pub closed spec fn spec_session(&self) -> SessionID {
        self.session
    }

    /// The roster's verification keys.
    pub closed spec fn spec_keys(&self) -> Map<PartyID, Seq<u8>> {
        self.keys@
    }

    /// A fresh checker with no records and no failure.
    pub fn new(id: PartyID, session: SessionID, keys: VerificationKeys) -> (r: Checker)
        ensures
            r.wf(),
            r.spec_id() == id,
            r.spec_session() == session,
            r.spec_keys() == keys@,
            r.spec_records() == Seq::<(ConsistencyCheckKey, CheckValueView)>::empty(),
            r.spec_failure() is None,
    {
        Checker { id, session, keys, records: Vec::new(), failure: None }
    }

    /// Whether a `wait` can be answered, and with what: the first failure if
    /// one was met, else whether no record is registered (then the waiter is
    /// answered now, otherwise it parks until the records are clean).
    pub fn wait_status(&self) -> (r: Result<bool, ConsistencyCheckError>)
        ensures
            self.spec_failure() matches Some(e) ==> r == Err::<bool, ConsistencyCheckError>(e),
            self.spec_failure() is None ==> r == Ok::<bool, ConsistencyCheckError>(
                spec_is_consistent(self.spec_records()),
            ),
    {
        match self.failure {
            Some(e) => Err(e),
            None => Ok(is_consistent(self)),
        }
    }

    /// Record a failure, keeping the first.
    fn record_failure(&mut self, error: ConsistencyCheckError)
        ensures
            final(self).spec_failure() == (if old(self).spec_failure() is Some {
                old(self).spec_failure()
            } else {
                Some(error)
            }),
            final(self).spec_records() == old(self).spec_records(),
            final(self).spec_id() == old(self).spec_id(),
            final(self).spec_session() == old(self).spec_session(),
            final(self).spec_keys() == old(self).spec_keys(),
    {
        if self.failure.is_none() {
            self.failure = Some(error);
        }
    }
}

/// Whether no record of the checker is registered: nothing is owed, a `wait`
/// is answered at once.
pub fn is_consistent(checker: &Checker) -> (r: bool)
    ensures
        r == spec_is_consistent(checker.spec_records()),
{
    proof {
        lemma_records_view_len(checker.records@);
    }
    let mut i: usize = 0;
    while i < checker.records.len()
        invariant
            i <= checker.records@.len(),
            checker.spec_records().len() == checker.records@.len(),
            forall|k: int| 0 <= k < checker.records@.len() ==> checker.spec_records()[k] == (
                (#[trigger] checker.records@[k]).0,
                checker.records@[k].1@,
            ),
            forall|k: int| 0 <= k < i ==> !(#[trigger] checker.spec_records()[k]).1.registered,
        decreases checker.records@.len() - i,
    {
        if checker.records[i].1.is_registered() {
            assert(checker.spec_records()[i as int].1.registered);
            return false;
        }
        i = i + 1;
    }
    true
}


proof fn lemma_find_key_at(
    entries: Seq<(ConsistencyCheckKey, CheckValueView)>,
    key: ConsistencyCheckKey,
    j: int,
)
    requires
        0 <= j < entries.len(),
        entries[j].0 == key,
        forall|k: int| j < k < entries.len() ==> (#[trigger] entries[k]).0 != key,
    ensures
        find_key(entries, key) == Some(j),
    decreases entries.len(),
{
    if j < entries.len() - 1 {
        assert(entries.drop_last()[j] == entries[j]);
        assert(forall|k: int| j < k < entries.len() - 1 ==> (#[trigger] entries.drop_last()[k])
            == entries[k]);
        lemma_find_key_at(entries.drop_last(), key, j);
    }
}

proof fn lemma_find_key_props(
    entries: Seq<(ConsistencyCheckKey, CheckValueView)>,
    key: ConsistencyCheckKey,
)
    requires
        find_key(entries, key) is Some,
    ensures
        0 <= find_key(entries, key)->Some_0 < entries.len(),
        entries[find_key(entries, key)->Some_0].0 == key,
    decreases entries.len(),
{
    if entries.len() > 0 && entries.last().0 != key {
        lemma_find_key_props(entries.drop_last(), key);
        assert(entries.drop_last()[find_key(entries.drop_last(), key)->Some_0] == entries[find_key(
            entries,
            key,
        )->Some_0]);
    }
}

proof fn lemma_find_key_none(
    entries: Seq<(ConsistencyCheckKey, CheckValueView)>,
    key: ConsistencyCheckKey,
)
    requires
        find_key(entries, key) is None,
    ensures
        forall|k: int| 0 <= k < entries.len() ==> (#[trigger] entries[k]).0 != key,
    decreases entries.len(),
{
    if entries.len() > 0 {
        lemma_find_key_none(entries.drop_last(), key);
        assert(forall|k: int| 0 <= k < entries.len() - 1 ==> (#[trigger] entries[k])
            == entries.drop_last()[k]);
    }
}

proof fn lemma_find_key_absent(
    entries: Seq<(ConsistencyCheckKey, CheckValueView)>,
    key: ConsistencyCheckKey,
)
    requires
        forall|k: int| 0 <= k < entries.len() ==> (#[trigger] entries[k]).0 != key,
    ensures
        find_key(entries, key) is None,
    decreases entries.len(),
{
    if entries.len() > 0 {
        assert(forall|k: int| 0 <= k < entries.len() - 1 ==> (#[trigger] entries.drop_last()[k])
            == entries[k]);
        lemma_find_key_absent(entries.drop_last(), key);
    }
}

impl Checker {
    /// Locate the record of a key.
    fn find_record(&self, key: &ConsistencyCheckKey) -> (r: Option<usize>)
        ensures
            match r {
                Some(j) => find_key(self.spec_records(), *key) == Some(j as int),
                None => find_key(self.spec_records(), *key) is None,
            },
    {
        proof {
            lemma_records_view_len(self.records@);
        }
        let mut idx: Option<usize> = None;
        let mut m: usize = 0;
        while m < self.records.len()
            invariant
                m <= self.records@.len(),
                self.spec_records().len() == self.records@.len(),
                forall|k: int| 0 <= k < self.records@.len() ==> self.spec_records()[k] == (
                    (#[trigger] self.records@[k]).0,
                    self.records@[k].1@,
                ),
                match idx {
                    Some(w) => w < m && self.spec_records()[w as int].0 == *key && forall|k: int|
                        w < k < m ==> (#[trigger] self.spec_records()[k]).0 != *key,
                    None => forall|k: int|
                        0 <= k < m ==> (#[trigger] self.spec_records()[k]).0 != *key,
                },
            decreases self.records@.len() - m,
        {
            if self.records[m].0.kind == key.kind && self.records[m].0.datatype == key.datatype
                && self.records[m].0.sender == key.sender && self.records[m].0.id == key.id {
                idx = Some(m);
            }
            m = m + 1;
        }
        proof {
            match idx {
                Some(w) => lemma_find_key_at(self.spec_records(), *key, w as int),
                None => lemma_find_key_absent(self.spec_records(), *key),
            }
        }
        idx
    }

    /// Build the notifications that announce a record's observed hash and
    /// signature to a list of fellow receivers.
    fn build_notifications(
        &self,
        key: &ConsistencyCheckKey,
        targets: &Vec<PartyID>,
        data: &ConsistencyCheckData,
    ) -> (r: Vec<(PartyID, SendMessage)>)
        requires
            key.kind.spec_needs_check(),
        ensures
            effects_view(r@) == spec_notifications(
                self.spec_id(),
                *key,
                targets@,
                data@,
                targets@.len() as int,
            ),
    {
        let check_kind = match key.kind {
            MessageKind::Broadcast => MessageKind::ConsistencyCheckBroadcast,
            _ => MessageKind::ConsistencyCheckAllGather,
        };
        let mut payload = vstd::slice::slice_to_vec(data.hash.as_slice());
        let mut signature_bytes = vstd::slice::slice_to_vec(data.signature.as_slice());
        payload.append(&mut signature_bytes);
        let size = payload.len() as crate::MessageSize;
        let mut out: Vec<(PartyID, SendMessage)> = Vec::new();
        let mut n: usize = 0;
        while n < targets.len()
            invariant
                n <= targets@.len(),
                payload@ == data@.0 + data@.1,
                size == payload@.len() as crate::MessageSize,
                effects_view(out@) == spec_notifications(
                    self.spec_id(),
                    *key,
                    targets@,
                    data@,
                    n as int,
                ),
                check_kind == spec_check_kind(key.kind),
            decreases targets@.len() - n,
        {
            let message = Message::new(
                check_kind,
                key.datatype,
                key.sender,
                self.id,
                key.id,
                size,
            );
            let body = vstd::slice::slice_to_vec(payload.as_slice());
            let ghost pre = out@;
            out.push((targets[n], SendMessage { metadata: message, data: body }));
            proof {
                assert(out@.drop_last() == pre);
            }
            n = n + 1;
        }
        out
    }

    /// Handle the planner's expectation for one checked message: create or
    /// register its record; if the data frame had already arrived, announce
    /// the observed hash and signature to the expected receivers; then try to
    /// close the record. Failures are kept for the next `wait`.
    pub fn handle_request(&mut self, check: &ConsistencyCheck) -> (r: Vec<(PartyID, SendMessage)>)
        requires
            old(self).wf(),
            check.kind.spec_needs_check(),
            check.receivers.well_formed(),
        ensures
            final(self).wf(),
            final(self).spec_id() == old(self).spec_id(),
            final(self).spec_session() == old(self).spec_session(),
            final(self).spec_keys() == old(self).spec_keys(),
            ({
                let key = ConsistencyCheckKey {
                    kind: check.kind,
                    datatype: check.datatype,
                    sender: check.sender,
                    id: check.id,
                };
                match find_key(old(self).spec_records(), key) {
                    None => {
                        &&& final(self).spec_records() == old(self).spec_records().push(
                            (
                                key,
                                CheckValueView {
                                    received: None,
                                    table: check.receivers@.map_values(
                                        |p: PartyID| (p, None::<(Seq<u8>, Seq<u8>)>),
                                    ),
                                    registered: true,
                                },
                            ),
                        )
                        &&& r@.len() == 0
                        &&& final(self).spec_failure() == old(self).spec_failure()
                    },
                    Some(j) => {
                        let v0 = old(self).spec_records()[j].1;
                        let (r1, v1) = spec_register_t(v0, check.receivers@);
                        let (r2, v2) = spec_check_t(
                            v1,
                            key,
                            old(self).spec_session(),
                            old(self).spec_keys(),
                        );
                        &&& effects_view(r@) == (if r1 == Ok::<bool, ConsistencyCheckError>(true) {
                            spec_notifications(
                                old(self).spec_id(),
                                key,
                                check.receivers@,
                                v0.received->Some_0,
                                check.receivers@.len() as int,
                            )
                        } else {
                            Seq::<(PartyID, Message, Seq<u8>)>::empty()
                        })
                        &&& final(self).spec_records() == (if r2 == Ok::<
                            bool,
                            ConsistencyCheckError,
                        >(true) && spec_done(v2) {
                            old(self).spec_records().remove(j)
                        } else {
                            old(self).spec_records().remove(j).push((key, v2))
                        })
                        &&& final(self).spec_failure() == (if old(self).spec_failure() is Some {
                            old(self).spec_failure()
                        } else if r1 is Err {
                            Some(r1->Err_0)
                        } else if r2 is Err {
                            Some(r2->Err_0)
                        } else {
                            None::<ConsistencyCheckError>
                        })
                    },
                }
            }),
    {
        let key = ConsistencyCheckKey {
            kind: check.kind,
            datatype: check.datatype,
            sender: check.sender,
            id: check.id,
        };
        proof {
            lemma_records_view_len(self.records@);
        }
        match self.find_record(&key) {
            None => {
                let value = ConsistencyCheckValue::new_request(&check.receivers);
                let ghost pre = self.records@;
                self.records.push((key, value));
                proof {
                    assert(self.records@.drop_last() == pre);
                    lemma_records_view_len(self.records@);
                    assert(value@.table =~= check.receivers@.map_values(
                        |p: PartyID| (p, None::<(Seq<u8>, Seq<u8>)>),
                    ));
                    let pre_view = old(self).spec_records();
                    assert(self.spec_records() =~= pre_view.push((key, value@)));
                    lemma_find_key_none(pre_view, key);
                    assert forall|a: int, b: int|
                        0 <= a < b < self.spec_records().len() implies (
                    #[trigger] self.spec_records()[a]).0 != (
                    #[trigger] self.spec_records()[b]).0 by {
                        if b < pre_view.len() {
                            assert(self.spec_records()[a] == pre_view[a]);
                            assert(self.spec_records()[b] == pre_view[b]);
                        } else {
                            assert(self.spec_records()[a] == pre_view[a]);
                            assert(self.spec_records()[b].0 == key);
                        }
                    }
                    assert forall|i: int| 0 <= i < self.spec_records().len() implies table_unique(
                        (#[trigger] self.spec_records()[i]).1.table,
                    ) && self.spec_records()[i].0.kind.spec_needs_check() by {
                        if i < pre_view.len() {
                            assert(self.spec_records()[i] == pre_view[i]);
                        } else {
                            assert(self.spec_records()[i] == (key, value@));
                        }
                    }
                }
                Vec::new()
            },
            Some(j) => {
                let ghost pre = self.spec_records();
                proof {
                    lemma_find_key_props(pre, key);
                    lemma_records_view_len(self.records@);
                }
                let ghost before_records = self.records@;
                let (entry_key, mut value) = self.records.remove(j);
                proof {
                    lemma_records_view_len(self.records@);
                    assert(self.records@ == before_records.remove(j as int));
                    assert(self.spec_records().len() == pre.len() - 1);
                    assert forall|k: int| 0 <= k < self.spec_records().len() implies self.spec_records()[k] == pre.remove(j as int)[k] by {
                        let k0: int = if k < j { k } else { k + 1 };
                        assert(self.records@[k] == before_records[k0]);
                        assert(pre[k0] == (before_records[k0].0, before_records[k0].1@));
                    }
                    assert(self.spec_records() =~= pre.remove(j as int));
                    assert(entry_key == key);
                }
                let ghost v0 = value@;
                let register_result = value.register(&check.receivers);
                let ghost v1 = value@;
                proof {
                    assert((register_result, v1) == spec_register_t(v0, check.receivers@));
                }
                let effects: Vec<(PartyID, SendMessage)> = match &register_result {
                    Ok(true) => {
                        let targets = check.receivers.to_vec();
                        self.build_notifications(&key, &targets, value.data())
                    },
                    Ok(false) => Vec::new(),
                    Err(e) => {
                        self.record_failure(*e);
                        Vec::new()
                    },
                };
                let check_result = value.check(&key, &self.keys, self.session);
                let ghost v2 = value@;
                proof {
                    assert((check_result, v2) == spec_check_t(
                        v1,
                        key,
                        self.spec_session(),
                        self.spec_keys(),
                    ));
                }
                let done = match &check_result {
                    Ok(true) => value.is_done(),
                    Ok(false) => false,
                    Err(e) => {
                        self.record_failure(*e);
                        false
                    },
                };
                let ghost mid = self.spec_records();
                let ghost mid_records = self.records@;
                if !done {
                    self.records.push((key, value));
                    proof {
                        assert(self.records@.drop_last() == mid_records);
                        lemma_records_view_len(self.records@);
                        assert(self.spec_records() =~= mid.push((key, v2)));
                    }
                }
                proof {
                    let scan_ok = check_result == Ok::<bool, ConsistencyCheckError>(true)
                        && spec_done(v2);
                    assert(done == scan_ok);
                    let removed = pre.remove(j as int);
                    lemma_remove_keeps_unique(pre, j as int);
                    assert forall|a: int, b: int|
                        0 <= a < b < self.spec_records().len() implies (
                    #[trigger] self.spec_records()[a]).0 != (
                    #[trigger] self.spec_records()[b]).0 by {
                        if b < removed.len() {
                            assert(self.spec_records()[a] == removed[a]);
                            assert(self.spec_records()[b] == removed[b]);
                        } else {
                            assert(self.spec_records()[b].0 == key);
                            assert(self.spec_records()[a] == removed[a]);
                            lemma_remove_other_keys(pre, j as int, key, a);
                        }
                    }
                    assert forall|i: int| 0 <= i < self.spec_records().len() implies table_unique(
                        (#[trigger] self.spec_records()[i]).1.table,
                    ) && self.spec_records()[i].0.kind.spec_needs_check() by {
                        if i < removed.len() {
                            assert(self.spec_records()[i] == removed[i]);
                            let i0: int = if i < j { i } else { i + 1 };
                            assert(removed[i] == pre[i0]);
                        } else {
                            assert(self.spec_records()[i] == (key, v2));
                        }
                    }
                }
                effects
            },
        }
    }
}

/// Removing an entry keeps the remaining keys unique.
proof fn lemma_remove_keeps_unique(entries: Seq<(ConsistencyCheckKey, CheckValueView)>, j: int)
    requires
        0 <= j < entries.len(),
        records_unique(entries),
    ensures
        records_unique(entries.remove(j)),
{
    assert forall|a: int, b: int|
        0 <= a < b < entries.remove(j).len() implies (#[trigger] entries.remove(j)[a]).0 != (
    #[trigger] entries.remove(j)[b]).0 by {
        let a0: int = if a < j {
            a
        } else {
            a + 1
        };
        let b0: int = if b < j {
            b
        } else {
            b + 1
        };
        assert(entries.remove(j)[a] == entries[a0]);
        assert(entries.remove(j)[b] == entries[b0]);
    }
}

/// After removing the only entry of a key, no remaining entry has that key.
proof fn lemma_remove_other_keys(
    entries: Seq<(ConsistencyCheckKey, CheckValueView)>,
    j: int,
    key: ConsistencyCheckKey,
    a: int,
)
    requires
        0 <= j < entries.len(),
        records_unique(entries),
        entries[j].0 == key,
        0 <= a < entries.remove(j).len(),
    ensures
        entries.remove(j)[a].0 != key,
{
    let a0: int = if a < j {
        a
    } else {
        a + 1
    };
    assert(entries.remove(j)[a] == entries[a0]);
}


/// The parties of a table, in table order.
pub open spec fn table_keys(table: Seq<(PartyID, AttestationView)>) -> Seq<PartyID> {
    table.map_values(|e: (PartyID, AttestationView)| e.0)
}

impl Checker {
    /// Handle a fellow receiver's attestation for one checked message: store
    /// it in the message's record (creating one if the planner has not yet
    /// registered the expectation), then try to close the record. Failures
    /// are kept for the next `wait`.
    pub fn handle_received_check(&mut self, message: ConsistencyCheckMessage)
        requires
            old(self).wf(),
            message.metadata.kind.spec_is_consistency_check(),
        ensures
            final(self).wf(),
            final(self).spec_id() == old(self).spec_id(),
            final(self).spec_session() == old(self).spec_session(),
            final(self).spec_keys() == old(self).spec_keys(),
            ({
                let key = ConsistencyCheckKey {
                    kind: if message.metadata.kind == MessageKind::ConsistencyCheckBroadcast {
                        MessageKind::Broadcast
                    } else {
                        MessageKind::AllGather
                    },
                    datatype: message.metadata.datatype,
                    sender: message.metadata.sender,
                    id: message.metadata.id,
                };
                let receiver = message.metadata.receiver;
                let att = (message.hash@, message.signature@);
                match find_key(old(self).spec_records(), key) {
                    None => {
                        &&& final(self).spec_records() == old(self).spec_records().push(
                            (
                                key,
                                CheckValueView {
                                    received: None,
                                    table: seq![(receiver, Some(att))],
                                    registered: false,
                                },
                            ),
                        )
                        &&& final(self).spec_failure() == old(self).spec_failure()
                    },
                    Some(j) => {
                        let v0 = old(self).spec_records()[j].1;
                        let (r1, v1) = spec_receive_t(v0, receiver, att);
                        let (r2, v2) = spec_check_t(
                            v1,
                            key,
                            old(self).spec_session(),
                            old(self).spec_keys(),
                        );
                        &&& final(self).spec_records() == (if r2 == Ok::<
                            bool,
                            ConsistencyCheckError,
                        >(true) && spec_done(v2) {
                            old(self).spec_records().remove(j)
                        } else {
                            old(self).spec_records().remove(j).push((key, v2))
                        })
                        &&& final(self).spec_failure() == (if old(self).spec_failure() is Some {
                            old(self).spec_failure()
                        } else if r1 is Err {
                            Some(r1->Err_0)
                        } else if r2 is Err {
                            Some(r2->Err_0)
                        } else {
                            None::<ConsistencyCheckError>
                        })
                    },
                }
            }),
    {
        let key = ConsistencyCheckKey {
            kind: match message.metadata.kind {
                MessageKind::ConsistencyCheckBroadcast => MessageKind::Broadcast,
                _ => MessageKind::AllGather,
            },
            datatype: message.metadata.datatype,
            sender: message.metadata.sender,
            id: message.metadata.id,
        };
        let receiver = message.metadata.receiver;
        let data = ConsistencyCheckData { hash: message.hash, signature: message.signature };
        let ghost att = data@;
        proof {
            lemma_records_view_len(self.records@);
        }
        match self.find_record(&key) {
            None => {
                let value = ConsistencyCheckValue::new_received(receiver, data);
                let ghost pre = self.records@;
                self.records.push((key, value));
                proof {
                    assert(self.records@.drop_last() == pre);
                    lemma_records_view_len(self.records@);
                    let pre_view = old(self).spec_records();
                    assert(self.spec_records() =~= pre_view.push((key, value@)));
                    lemma_find_key_none(pre_view, key);
                    assert forall|a: int, b: int|
                        0 <= a < b < self.spec_records().len() implies (
                    #[trigger] self.spec_records()[a]).0 != (
                    #[trigger] self.spec_records()[b]).0 by {
                        if b < pre_view.len() {
                            assert(self.spec_records()[a] == pre_view[a]);
                            assert(self.spec_records()[b] == pre_view[b]);
                        } else {
                            assert(self.spec_records()[a] == pre_view[a]);
                            assert(self.spec_records()[b].0 == key);
                        }
                    }
                    assert forall|i: int| 0 <= i < self.spec_records().len() implies table_unique(
                        (#[trigger] self.spec_records()[i]).1.table,
                    ) && self.spec_records()[i].0.kind.spec_needs_check() by {
                        if i < pre_view.len() {
                            assert(self.spec_records()[i] == pre_view[i]);
                        } else {
                            assert(self.spec_records()[i] == (key, value@));
                        }
                    }
                }
            },
            Some(j) => {
                let ghost pre = self.spec_records();
                proof {
                    lemma_find_key_props(pre, key);
                    lemma_records_view_len(self.records@);
                }
                let ghost before_records = self.records@;
                let (entry_key, mut value) = self.records.remove(j);
                proof {
                    lemma_records_view_len(self.records@);
                    assert(self.records@ == before_records.remove(j as int));
                    assert forall|k: int|
                        0 <= k < self.spec_records().len() implies self.spec_records()[k]
                        == pre.remove(j as int)[k] by {
                        let k0: int = if k < j {
                            k
                        } else {
                            k + 1
                        };
                        assert(self.records@[k] == before_records[k0]);
                        assert(pre[k0] == (before_records[k0].0, before_records[k0].1@));
                    }
                    assert(self.spec_records() =~= pre.remove(j as int));
                    assert(entry_key == key);
                }
                let ghost v0 = value@;
                let receive_result = value.receive(receiver, data);
                let ghost v1 = value@;
                proof {
                    assert((receive_result, v1) == spec_receive_t(v0, receiver, att));
                }
                match &receive_result {
                    Err(e) => self.record_failure(*e),
                    Ok(()) => (),
                }
                let check_result = value.check(&key, &self.keys, self.session);
                let ghost v2 = value@;
                proof {
                    assert((check_result, v2) == spec_check_t(
                        v1,
                        key,
                        self.spec_session(),
                        self.spec_keys(),
                    ));
                }
                let done = match &check_result {
                    Ok(true) => value.is_done(),
                    Ok(false) => false,
                    Err(e) => {
                        self.record_failure(*e);
                        false
                    },
                };
                let ghost mid = self.spec_records();
                let ghost mid_records = self.records@;
                if !done {
                    self.records.push((key, value));
                    proof {
                        assert(self.records@.drop_last() == mid_records);
                        lemma_records_view_len(self.records@);
                        assert(self.spec_records() =~= mid.push((key, v2)));
                    }
                }
                proof {
                    let removed = pre.remove(j as int);
                    lemma_remove_keeps_unique(pre, j as int);
                    assert forall|a: int, b: int|
                        0 <= a < b < self.spec_records().len() implies (
                    #[trigger] self.spec_records()[a]).0 != (
                    #[trigger] self.spec_records()[b]).0 by {
                        if b < removed.len() {
                            assert(self.spec_records()[a] == removed[a]);
                            assert(self.spec_records()[b] == removed[b]);
                        } else {
                            assert(self.spec_records()[b].0 == key);
                            assert(self.spec_records()[a] == removed[a]);
                            lemma_remove_other_keys(pre, j as int, key, a);
                        }
                    }
                    assert forall|i: int| 0 <= i < self.spec_records().len() implies table_unique(
                        (#[trigger] self.spec_records()[i]).1.table,
                    ) && self.spec_records()[i].0.kind.spec_needs_check() by {
                        if i < removed.len() {
                            assert(self.spec_records()[i] == removed[i]);
                            let i0: int = if i < j {
                                i
                            } else {
                                i + 1
                            };
                            assert(removed[i] == pre[i0]);
                        } else {
                            assert(self.spec_records()[i] == (key, v2));
                        }
                    }
                }
            },
        }
    }

    /// Handle the hash and signature of an arrived data frame for one checked
    /// message: store them in the message's record (creating one if nothing
    /// arrived before); if the expectation was already registered, announce
    /// them to the record's expected receivers; then try to close the record.
    /// Failures are kept for the next `wait`.
    pub fn handle_received_data(&mut self, message: ConsistencyCheckMessage) -> (r: Vec<
        (PartyID, SendMessage),
    >)
        requires
            old(self).wf(),
            message.metadata.kind.spec_needs_check(),
        ensures
            final(self).wf(),
            final(self).spec_id() == old(self).spec_id(),
            final(self).spec_session() == old(self).spec_session(),
            final(self).spec_keys() == old(self).spec_keys(),
            ({
                let key = ConsistencyCheckKey {
                    kind: message.metadata.kind,
                    datatype: message.metadata.datatype,
                    sender: message.metadata.sender,
                    id: message.metadata.id,
                };
                let att = (message.hash@, message.signature@);
                match find_key(old(self).spec_records(), key) {
                    None => {
                        &&& final(self).spec_records() == old(self).spec_records().push(
                            (
                                key,
                                CheckValueView {
                                    received: Some(att),
                                    table: Seq::<(PartyID, AttestationView)>::empty(),
                                    registered: false,
                                },
                            ),
                        )
                        &&& r@.len() == 0
                        &&& final(self).spec_failure() == old(self).spec_failure()
                    },
                    Some(j) => {
                        let v0 = old(self).spec_records()[j].1;
                        let (r1, v1) = spec_receive_data_t(v0, att);
                        let (r2, v2) = spec_check_t(
                            v1,
                            key,
                            old(self).spec_session(),
                            old(self).spec_keys(),
                        );
                        &&& effects_view(r@) == (if r1 == Ok::<bool, ConsistencyCheckError>(true) {
                            spec_notifications(
                                old(self).spec_id(),
                                key,
                                table_keys(v0.table),
                                att,
                                v0.table.len() as int,
                            )
                        } else {
                            Seq::<(PartyID, Message, Seq<u8>)>::empty()
                        })
                        &&& final(self).spec_records() == (if r2 == Ok::<
                            bool,
                            ConsistencyCheckError,
                        >(true) && spec_done(v2) {
                            old(self).spec_records().remove(j)
                        } else {
                            old(self).spec_records().remove(j).push((key, v2))
                        })
                        &&& final(self).spec_failure() == (if old(self).spec_failure() is Some {
                            old(self).spec_failure()
                        } else if r1 is Err {
                            Some(r1->Err_0)
                        } else if r2 is Err {
                            Some(r2->Err_0)
                        } else {
                            None::<ConsistencyCheckError>
                        })
                    },
                }
            }),
    {
        let key = ConsistencyCheckKey {
            kind: message.metadata.kind,
            datatype: message.metadata.datatype,
            sender: message.metadata.sender,
            id: message.metadata.id,
        };
        let data = ConsistencyCheckData { hash: message.hash, signature: message.signature };
        let ghost att = data@;
        proof {
            lemma_records_view_len(self.records@);
        }
        match self.find_record(&key) {
            None => {
                let value = ConsistencyCheckValue::new_received_data(data);
                let ghost pre = self.records@;
                self.records.push((key, value));
                proof {
                    assert(self.records@.drop_last() == pre);
                    lemma_records_view_len(self.records@);
                    let pre_view = old(self).spec_records();
                    assert(self.spec_records() =~= pre_view.push((key, value@)));
                    lemma_find_key_none(pre_view, key);
                    assert forall|a: int, b: int|
                        0 <= a < b < self.spec_records().len() implies (
                    #[trigger] self.spec_records()[a]).0 != (
                    #[trigger] self.spec_records()[b]).0 by {
                        if b < pre_view.len() {
                            assert(self.spec_records()[a] == pre_view[a]);
                            assert(self.spec_records()[b] == pre_view[b]);
                        } else {
                            assert(self.spec_records()[a] == pre_view[a]);
                            assert(self.spec_records()[b].0 == key);
                        }
                    }
                    assert forall|i: int| 0 <= i < self.spec_records().len() implies table_unique(
                        (#[trigger] self.spec_records()[i]).1.table,
                    ) && self.spec_records()[i].0.kind.spec_needs_check() by {
                        if i < pre_view.len() {
                            assert(self.spec_records()[i] == pre_view[i]);
                        } else {
                            assert(self.spec_records()[i] == (key, value@));
                        }
                    }
                }
                Vec::new()
            },
            Some(j) => {
                let ghost pre = self.spec_records();
                proof {
                    lemma_find_key_props(pre, key);
                    lemma_records_view_len(self.records@);
                }
                let ghost before_records = self.records@;
                let (entry_key, mut value) = self.records.remove(j);
                proof {
                    lemma_records_view_len(self.records@);
                    assert(self.records@ == before_records.remove(j as int));
                    assert forall|k: int|
                        0 <= k < self.spec_records().len() implies self.spec_records()[k]
                        == pre.remove(j as int)[k] by {
                        let k0: int = if k < j {
                            k
                        } else {
                            k + 1
                        };
                        assert(self.records@[k] == before_records[k0]);
                        assert(pre[k0] == (before_records[k0].0, before_records[k0].1@));
                    }
                    assert(self.spec_records() =~= pre.remove(j as int));
                    assert(entry_key == key);
                }
                let ghost v0 = value@;
                let targets = value.keys();
                proof {
                    assert(targets@ =~= table_keys(v0.table));
                }
                let receive_result = value.receive_data(data);
                let ghost v1 = value@;
                proof {
                    assert((receive_result, v1) == spec_receive_data_t(v0, att));
                }
                let effects: Vec<(PartyID, SendMessage)> = match &receive_result {
                    Ok(true) => self.build_notifications(&key, &targets, value.data()),
                    Ok(false) => Vec::new(),
                    Err(e) => {
                        self.record_failure(*e);
                        Vec::new()
                    },
                };
                let check_result = value.check(&key, &self.keys, self.session);
                let ghost v2 = value@;
                proof {
                    assert((check_result, v2) == spec_check_t(
                        v1,
                        key,
                        self.spec_session(),
                        self.spec_keys(),
                    ));
                }
                let done = match &check_result {
                    Ok(true) => value.is_done(),
                    Ok(false) => false,
                    Err(e) => {
                        self.record_failure(*e);
                        false
                    },
                };
                let ghost mid = self.spec_records();
                let ghost mid_records = self.records@;
                if !done {
                    self.records.push((key, value));
                    proof {
                        assert(self.records@.drop_last() == mid_records);
                        lemma_records_view_len(self.records@);
                        assert(self.spec_records() =~= mid.push((key, v2)));
                    }
                }
                proof {
                    let removed = pre.remove(j as int);
                    lemma_remove_keeps_unique(pre, j as int);
                    assert forall|a: int, b: int|
                        0 <= a < b < self.spec_records().len() implies (
                    #[trigger] self.spec_records()[a]).0 != (
                    #[trigger] self.spec_records()[b]).0 by {
                        if b < removed.len() {
                            assert(self.spec_records()[a] == removed[a]);
                            assert(self.spec_records()[b] == removed[b]);
                        } else {
                            assert(self.spec_records()[b].0 == key);
                            assert(self.spec_records()[a] == removed[a]);
                            lemma_remove_other_keys(pre, j as int, key, a);
                        }
                    }
                    assert forall|i: int| 0 <= i < self.spec_records().len() implies table_unique(
                        (#[trigger] self.spec_records()[i]).1.table,
                    ) && self.spec_records()[i].0.kind.spec_needs_check() by {
                        if i < removed.len() {
                            assert(self.spec_records()[i] == removed[i]);
                            let i0: int = if i < j {
                                i
                            } else {
                                i + 1
                            };
                            assert(removed[i] == pre[i0]);
                        } else {
                            assert(self.spec_records()[i] == (key, v2));
                        }
                    }
                }
                effects
            },
        }
    }
}


proof fn lemma_all_attested_unattested_empty(entries: Seq<(PartyID, AttestationView)>)
    requires
        forall|i: int| 0 <= i < entries.len() ==> (#[trigger] entries[i]).1 is Some,
    ensures
        spec_unattested(entries).len() == 0,
    decreases entries.len(),
{
    if entries.len() > 0 {
        assert(forall|i: int| 0 <= i < entries.len() - 1 ==> (#[trigger] entries.drop_last()[i])
            == entries[i]);
        lemma_all_attested_unattested_empty(entries.drop_last());
    }
}

/// A broadcast whose receivers all observed the sender's payload closes: once
/// the record is registered, the data was observed, and every expected
/// receiver has attested the observed hash under the sender's valid
/// signature, closing the record succeeds and leaves it empty, so it is
/// dropped and `wait` reports success.
pub proof fn lemma_consistent_record_closes(
    v: CheckValueView,
    key: ConsistencyCheckKey,
    session: SessionID,
    keys: Map<PartyID, Seq<u8>>,
)
    requires
        v.registered,
        v.received is Some,
        keys.contains_key(key.sender),
        forall|i: int| 0 <= i < v.table.len() ==> (#[trigger] v.table[i]).1 is Some,
        forall|i: int| 0 <= i < v.table.len() && (#[trigger] v.table[i]).1 is Some ==> ({
            let att = v.table[i].1->Some_0;
            att.0 == v.received->Some_0.0 && ed25519_verifies(
                keys[key.sender],
                attestation_input(key, v.table[i].0, session, att.0),
                att.1,
            )
        }),
    ensures
        spec_check_t(v, key, session, keys).0 == Ok::<bool, ConsistencyCheckError>(true),
        spec_done(spec_check_t(v, key, session, keys).1),
{
    lemma_all_matching_attestations_close(
        v.table,
        key,
        session,
        keys,
        v.received->Some_0.0,
        v.table.len() as int,
    );
    lemma_all_attested_unattested_empty(v.table);
}

/// A receiver that observed a different payload fails the record: once the
/// record is registered and the data was observed, an attestation under the
/// sender's valid signature whose hash differs from the observed one makes
/// closing the record fail with equivocation detected, and the next `wait`
/// reports it.
pub proof fn lemma_equivocation_fails_record(
    v: CheckValueView,
    key: ConsistencyCheckKey,
    session: SessionID,
    keys: Map<PartyID, Seq<u8>>,
)
    requires
        v.registered,
        v.received is Some,
        keys.contains_key(key.sender),
        forall|i: int| 0 <= i < v.table.len() && (#[trigger] v.table[i]).1 is Some ==> ({
            let att = v.table[i].1->Some_0;
            ed25519_verifies(
                keys[key.sender],
                attestation_input(key, v.table[i].0, session, att.0),
                att.1,
            )
        }),
        exists|i: int| 0 <= i < v.table.len() && (#[trigger] v.table[i]).1 is Some
            && v.table[i].1->Some_0.0 != v.received->Some_0.0,
    ensures
        spec_check_t(v, key, session, keys).0 == Err::<bool, ConsistencyCheckError>(
            ConsistencyCheckError::InconsistentCollectiveCommunication,
        ),
{
    lemma_mismatching_attestation_detected(
        v.table,
        key,
        session,
        keys,
        v.received->Some_0.0,
    );
}


/// One attestation step of a record's exchange: the attestation is stored,
/// then the record is checked.
pub open spec fn spec_attestation_step(
    v: CheckValueView,
    key: ConsistencyCheckKey,
    session: SessionID,
    keys: Map<PartyID, Seq<u8>>,
    receiver: PartyID,
    att: (Seq<u8>, Seq<u8>),
) -> CheckValueView {
    spec_check_t(spec_receive_t(v, receiver, att).1, key, session, keys).1
}

/// The record a whole exchange leads to: each attestation arrives in turn,
/// and after each one the record is checked.
pub open spec fn spec_exchange(
    v: CheckValueView,
    key: ConsistencyCheckKey,
    session: SessionID,
    keys: Map<PartyID, Seq<u8>>,
    atts: Seq<(PartyID, (Seq<u8>, Seq<u8>))>,
) -> CheckValueView
    decreases atts.len(),
{
    if atts.len() == 0 {
        v
    } else {
        spec_exchange(
            spec_attestation_step(v, key, session, keys, atts[0].0, atts[0].1),
            key,
            session,
            keys,
            atts.skip(1),
        )
    }
}

/// Dropping the attested head of a table keeps exactly the remaining awaited
/// entries.
proof fn lemma_unattested_first_attested(table: Seq<(PartyID, AttestationView)>)
    requires
        table.len() > 0,
        table[0].1 is Some,
        forall|i: int| 0 < i < table.len() ==> (#[trigger] table[i]).1 is None,
    ensures
        spec_unattested(table) =~= table.skip(1),
    decreases table.len(),
{
    if table.len() == 1 {
        assert(spec_unattested(table.drop_last()) =~= Seq::<(PartyID, AttestationView)>::empty());
        assert(spec_unattested(table) =~= table.skip(1));
    } else {
        assert(table.drop_last()[0] == table[0]);
        assert(forall|i: int| 0 < i < table.len() - 1 ==> (#[trigger] table.drop_last()[i])
            == table[i]);
        lemma_unattested_first_attested(table.drop_last());
        assert(spec_unattested(table) =~= table.skip(1));
    }
}

/// One matching attestation from the first awaited receiver is accepted and
/// closes its table entry: the store succeeds, the check succeeds, and the
/// record keeps the remaining awaited receivers, in order.
pub proof fn lemma_matching_attestation_step(
    v: CheckValueView,
    key: ConsistencyCheckKey,
    session: SessionID,
    keys: Map<PartyID, Seq<u8>>,
    att: (Seq<u8>, Seq<u8>),
)
    requires
        v.registered,
        v.received is Some,
        table_unique(v.table),
        v.table.len() > 0,
        forall|i: int| 0 <= i < v.table.len() ==> (#[trigger] v.table[i]).1 is None,
        keys.contains_key(key.sender),
        att.0 == v.received->Some_0.0,
        ed25519_verifies(
            keys[key.sender],
            attestation_input(key, v.table[0].0, session, att.0),
            att.1,
        ),
    ensures
        spec_receive_t(v, v.table[0].0, att).0 == Ok::<(), ConsistencyCheckError>(()),
        spec_check_t(spec_receive_t(v, v.table[0].0, att).1, key, session, keys).0 == Ok::<
            bool,
            ConsistencyCheckError,
        >(true),
        ({
            let next = spec_attestation_step(v, key, session, keys, v.table[0].0, att);
            &&& next.registered
            &&& next.received == v.received
            &&& next.table =~= v.table.skip(1)
        }),
{
    let receiver = v.table[0].0;
    assert(table_contains(v.table, receiver));
    let j = choose|j: int| 0 <= j < v.table.len() && (#[trigger] v.table[j]).0 == receiver;
    // the keys are unique, so the found index is the head
    assert(j == 0);
    let stored = spec_receive_t(v, receiver, att).1;
    assert(stored.table == v.table.update(0, (receiver, Some(att))));
    assert(stored.table[0].1 == Some(att));
    assert(forall|i: int| 0 < i < stored.table.len() ==> (#[trigger] stored.table[i])
        == v.table[i]);
    lemma_all_matching_attestations_close(
        stored.table,
        key,
        session,
        keys,
        v.received->Some_0.0,
        stored.table.len() as int,
    );
    lemma_unattested_first_attested(stored.table);
    assert(stored.table.skip(1) =~= v.table.skip(1));
}

/// A full broadcast exchange closes its record, machine-checked end to end:
/// a registered record whose data frame was observed, once every awaited
/// receiver has attested the observed hash under the data sender's valid
/// signature, in order, ends empty — the checker drops it and `wait`
/// reports success.
pub proof fn lemma_broadcast_exchange_closes(
    v: CheckValueView,
    key: ConsistencyCheckKey,
    session: SessionID,
    keys: Map<PartyID, Seq<u8>>,
    atts: Seq<(PartyID, (Seq<u8>, Seq<u8>))>,
)
    requires
        v.registered,
        v.received is Some,
        table_unique(v.table),
        forall|i: int| 0 <= i < v.table.len() ==> (#[trigger] v.table[i]).1 is None,
        keys.contains_key(key.sender),
        atts.len() == v.table.len(),
        forall|i: int| 0 <= i < atts.len() ==> (#[trigger] atts[i]).0 == v.table[i].0,
        forall|i: int| 0 <= i < atts.len() ==> (#[trigger] atts[i]).1.0 == v.received->Some_0.0,
        forall|i: int| 0 <= i < atts.len() ==> ed25519_verifies(
            keys[key.sender],
            attestation_input(key, (#[trigger] atts[i]).0, session, atts[i].1.0),
            atts[i].1.1,
        ),
    ensures
        spec_done(spec_exchange(v, key, session, keys, atts)),
    decreases atts.len(),
{
    if atts.len() == 0 {
        assert(spec_exchange(v, key, session, keys, atts) == v);
    } else {
        lemma_matching_attestation_step(v, key, session, keys, atts[0].1);
        let next = spec_attestation_step(v, key, session, keys, atts[0].0, atts[0].1);
        let rest = atts.skip(1);
        assert(next.table =~= v.table.skip(1));
        assert forall|a: int, b: int|
            0 <= a < b < next.table.len() implies (#[trigger] next.table[a]).0 != (
        #[trigger] next.table[b]).0 by {
            assert(next.table[a] == v.table[a + 1]);
            assert(next.table[b] == v.table[b + 1]);
        }
        assert(forall|i: int| 0 <= i < next.table.len() ==> (#[trigger] next.table[i])
            == v.table[i + 1]);
        assert(forall|i: int| 0 <= i < rest.len() ==> (#[trigger] rest[i]) == atts[i + 1]);
        lemma_broadcast_exchange_closes(next, key, session, keys, rest);
    }
}

/// A mismatching attestation fails the exchange, machine-checked end to end:
/// on a registered record whose data frame was observed, an attestation from
/// an awaited receiver under the data sender's valid signature but with a
/// different hash is stored, and the check that follows detects equivocation.
pub proof fn lemma_mismatching_attestation_step(
    v: CheckValueView,
    key: ConsistencyCheckKey,
    session: SessionID,
    keys: Map<PartyID, Seq<u8>>,
    att: (Seq<u8>, Seq<u8>),
)
    requires
        v.registered,
        v.received is Some,
        table_unique(v.table),
        v.table.len() > 0,
        forall|i: int| 0 <= i < v.table.len() ==> (#[trigger] v.table[i]).1 is None,
        keys.contains_key(key.sender),
        att.0 != v.received->Some_0.0,
        ed25519_verifies(
            keys[key.sender],
            attestation_input(key, v.table[0].0, session, att.0),
            att.1,
        ),
    ensures
        spec_receive_t(v, v.table[0].0, att).0 == Ok::<(), ConsistencyCheckError>(()),
        spec_check_t(spec_receive_t(v, v.table[0].0, att).1, key, session, keys).0 == Err::<
            bool,
            ConsistencyCheckError,
        >(ConsistencyCheckError::InconsistentCollectiveCommunication),
{
    let receiver = v.table[0].0;
    assert(table_contains(v.table, receiver));
    let j = choose|j: int| 0 <= j < v.table.len() && (#[trigger] v.table[j]).0 == receiver;
    assert(j == 0);
    let stored = spec_receive_t(v, receiver, att).1;
    assert(stored.table == v.table.update(0, (receiver, Some(att))));
    assert(stored.table[0].1 == Some(att));
    assert(forall|i: int| 0 < i < stored.table.len() ==> (#[trigger] stored.table[i])
        == v.table[i]);
    lemma_equivocation_fails_record(stored, key, session, keys);
}

} // verus!

//! Message metadata: the generic per-frame metadata and the per-kind
//! collective descriptors, together with the bytes each contributes to the
//! message-id digest.

use vstd::bytes::{spec_u16_to_le_bytes, spec_u64_to_le_bytes, u16_to_le_bytes, u64_to_le_bytes};
use vstd::prelude::*;

use crate::communicator::Communicator;
use crate::kind::MessageKind;
use crate::{MessageDatatype, MessageID, MessageSize, PartyID};

verus! {

/// Generic metadata of one frame.
#[derive(PartialEq, Eq, Structural, Debug, Clone, Copy)]
pub struct Message {
    pub kind: MessageKind,
    pub datatype: MessageDatatype,
    pub sender: PartyID,
    pub receiver: PartyID,
    pub id: MessageID,
    pub size: MessageSize,
}

impl Message {
    #[must_use]
    pub fn new(
        kind: MessageKind,
        datatype: MessageDatatype,
        sender: PartyID,
        receiver: PartyID,
        id: MessageID,
        size: MessageSize,
    ) -> (r: Message)
        ensures
            r == (Message { kind, datatype, sender, receiver, id, size }),
    {
        Message { kind, datatype, sender, receiver, id, size }
    }
}

/// Broadcast operation metadata.
#[derive(PartialEq, Eq, Structural, Debug, Clone, Copy)]
pub struct Broadcast {
    pub datatype: MessageDatatype,
    pub sender: PartyID,
    pub size: MessageSize,
}

impl Broadcast {
    #[must_use]
    pub fn new(datatype: MessageDatatype, sender: PartyID, size: MessageSize) -> (r: Broadcast)
        ensures
            r == (Broadcast { datatype, sender, size }),
    {
        Broadcast { datatype, sender, size }
    }
}

/// Gather operation metadata.
#[derive(PartialEq, Eq, Structural, Debug, Clone, Copy)]
pub struct Gather {
    pub datatype: MessageDatatype,
    pub receiver: PartyID,
    pub size: MessageSize,
}

impl Gather {
    #[must_use]
    pub fn new(datatype: MessageDatatype, receiver: PartyID, size: MessageSize) -> (r: Gather)
        ensures
            r == (Gather { datatype, receiver, size }),
    {
        Gather { datatype, receiver, size }
    }
}

/// All-gather operation metadata.
#[derive(PartialEq, Eq, Structural, Debug, Clone, Copy)]
pub struct AllGather {
    pub datatype: MessageDatatype,
    pub size: MessageSize,
}

impl AllGather {
    #[must_use]
    pub fn new(datatype: MessageDatatype, size: MessageSize) -> (r: AllGather)
        ensures
            r == (AllGather { datatype, size }),
    {
        AllGather { datatype, size }
    }
}

/// All-to-all operation metadata.
#[derive(PartialEq, Eq, Structural, Debug, Clone, Copy)]
pub struct AllToAll {
    pub datatype: MessageDatatype,
    pub size: MessageSize,
}

impl AllToAll {
    #[must_use]
    pub fn new(datatype: MessageDatatype, size: MessageSize) -> (r: AllToAll)
        ensures
            r == (AllToAll { datatype, size }),
    {
        AllToAll { datatype, size }
    }
}

/// Metadata of a consistency-check expectation: the checked kind, datatype,
/// the original sender, the peers expected to attest, and the message id.
#[derive(Debug, Clone)]
pub struct ConsistencyCheck {
    pub kind: MessageKind,
    pub datatype: MessageDatatype,
    pub sender: PartyID,
    pub receivers: Communicator,
    pub id: MessageID,
}

/// One collective descriptor, for deriving message ids and frame metadata
/// uniformly over the kinds.
#[derive(PartialEq, Eq, Structural, Debug, Clone, Copy)]
pub enum Collective {
    Broadcast(Broadcast),
    Gather(Gather),
    AllGather(AllGather),
    AllToAll(AllToAll),
}

/// The little-endian bytes of a sequence of party ids, in order.
pub open spec fn parties_le_bytes(parties: Seq<PartyID>) -> Seq<u8>
    decreases parties.len(),
{
    if parties.len() == 0 {
        Seq::<u8>::empty()
    } else {
        parties_le_bytes(parties.drop_last()) + spec_u16_to_le_bytes(parties.last())
    }
}

/// The bytes a communicator contributes to the message-id digest: its length
/// as a little-endian 64-bit value, then each party id in ascending order.
pub open spec fn communicator_id_bytes(parties: Seq<PartyID>) -> Seq<u8> {
    spec_u64_to_le_bytes(parties.len() as u64) + parties_le_bytes(parties)
}

proof fn lemma_parties_le_bytes_len(parties: Seq<PartyID>)
    ensures
        parties_le_bytes(parties).len() == 2 * parties.len(),
    decreases parties.len(),
{
    vstd::bytes::lemma_auto_spec_u16_to_from_le_bytes();
    if parties.len() > 0 {
        lemma_parties_le_bytes_len(parties.drop_last());
    }
}

/// The length of the id-digest bytes of a communicator.
pub proof fn lemma_communicator_id_bytes_len(parties: Seq<PartyID>)
    ensures
        communicator_id_bytes(parties).len() == 8 + 2 * parties.len(),
{
    vstd::bytes::lemma_auto_spec_u64_to_from_le_bytes();
    lemma_parties_le_bytes_len(parties);
}

/// Append the id-digest bytes of a communicator to a buffer.
pub fn push_communicator_id_bytes(out: &mut Vec<u8>, communicator: &Communicator)
    ensures
        final(out)@ == old(out)@ + communicator_id_bytes(communicator@),
{
    let ghost pre = out@;
    let len64: u64 = communicator.len() as u64;
    let mut len_bytes = u64_to_le_bytes(len64);
    out.append(&mut len_bytes);
    let ghost after_len = out@;
    let mut i: usize = 0;
    while i < communicator.len()
        invariant
            i <= communicator@.len(),
            out@ == after_len + parties_le_bytes(communicator@.take(i as int)),
            after_len == pre + spec_u64_to_le_bytes(communicator@.len() as u64),
        decreases communicator@.len() - i,
    {
        let mut party_bytes = u16_to_le_bytes(communicator.get(i));
        out.append(&mut party_bytes);
        proof {
            let taken1 = communicator@.take(i as int + 1);
            assert(taken1.drop_last() == communicator@.take(i as int));
            assert(taken1.last() == communicator@[i as int]);
        }
        i = i + 1;
    }
    assert(communicator@.take(communicator@.len() as int) == communicator@);
}

impl Collective {
    /// The message kind of this collective.
    pub open spec fn spec_kind(&self) -> MessageKind {
        match self {
            Collective::Broadcast(_) => MessageKind::Broadcast,
            Collective::Gather(_) => MessageKind::Gather,
            Collective::AllGather(_) => MessageKind::AllGather,
            Collective::AllToAll(_) => MessageKind::AllToAll,
        }
    }

    /// The message kind of this collective.
    #[verifier::when_used_as_spec(spec_kind)]
    pub fn kind(&self) -> (r: MessageKind)
        ensures
            r == self.spec_kind(),
    {
        match self {
            Collective::Broadcast(_) => MessageKind::Broadcast,
            Collective::Gather(_) => MessageKind::Gather,
            Collective::AllGather(_) => MessageKind::AllGather,
            Collective::AllToAll(_) => MessageKind::AllToAll,
        }
    }

    /// The caller-chosen datatype tag.
    pub open spec fn spec_datatype(&self) -> MessageDatatype {
        match self {
            Collective::Broadcast(m) => m.datatype,
            Collective::Gather(m) => m.datatype,
            Collective::AllGather(m) => m.datatype,
            Collective::AllToAll(m) => m.datatype,
        }
    }

    /// The caller-chosen datatype tag.
    #[verifier::when_used_as_spec(spec_datatype)]
    pub fn datatype(&self) -> (r: MessageDatatype)
        ensures
            r == self.spec_datatype(),
    {
        match self {
            Collective::Broadcast(m) => m.datatype,
            Collective::Gather(m) => m.datatype,
            Collective::AllGather(m) => m.datatype,
            Collective::AllToAll(m) => m.datatype,
        }
    }

    /// The declared payload size.
    pub open spec fn spec_size(&self) -> MessageSize {
        match self {
            Collective::Broadcast(m) => m.size,
            Collective::Gather(m) => m.size,
            Collective::AllGather(m) => m.size,
            Collective::AllToAll(m) => m.size,
        }
    }

    /// The declared payload size.
    #[verifier::when_used_as_spec(spec_size)]
    pub fn size(&self) -> (r: MessageSize)
        ensures
            r == self.spec_size(),
    {
        match self {
            Collective::Broadcast(m) => m.size,
            Collective::Gather(m) => m.size,
            Collective::AllGather(m) => m.size,
            Collective::AllToAll(m) => m.size,
        }
    }

    /// The bytes this collective's metadata contributes to the message-id
    /// digest: the kind code, the datatype, then the kind's identifying field
    /// (the sender for a broadcast, the receiver for a gather, nothing for
    /// all-gather and all-to-all).
    pub open spec fn id_metadata_bytes(self) -> Seq<u8> {
        let prefix = seq![self.spec_kind().spec_code(), self.spec_datatype()];
        match self {
            Collective::Broadcast(m) => prefix + spec_u16_to_le_bytes(m.sender),
            Collective::Gather(m) => prefix + spec_u16_to_le_bytes(m.receiver),
            Collective::AllGather(_) => prefix,
            Collective::AllToAll(_) => prefix,
        }
    }

    /// Append the id-digest metadata bytes of this collective to a buffer.
    pub fn push_id_metadata_bytes(&self, out: &mut Vec<u8>)
        ensures
            final(out)@ == old(out)@ + self.id_metadata_bytes(),
    {
        out.push(self.kind().code());
        out.push(self.datatype());
        match self {
            Collective::Broadcast(m) => {
                let mut bytes = u16_to_le_bytes(m.sender);
                out.append(&mut bytes);
            },
            Collective::Gather(m) => {
                let mut bytes = u16_to_le_bytes(m.receiver);
                out.append(&mut bytes);
            },
            Collective::AllGather(_) => (),
            Collective::AllToAll(_) => (),
        }
        assert(out@ =~= old(out)@ + self.id_metadata_bytes());
    }

    /// The generic frame metadata of one message of this collective.
    pub fn to_message(&self, sender: PartyID, receiver: PartyID, id: MessageID) -> (r: Message)
        ensures
            r == (Message {
                kind: self.spec_kind(),
                datatype: self.spec_datatype(),
                sender,
                receiver,
                id,
                size: self.spec_size(),
            }),
    {
        Message::new(self.kind(), self.datatype(), sender, receiver, id, self.size())
    }

    /// The consistency-check expectation for one message of this collective.
    pub fn to_consistency_check(
        &self,
        sender: PartyID,
        receivers: Communicator,
        id: MessageID,
    ) -> (r: ConsistencyCheck)
        ensures
            r.kind == self.spec_kind(),
            r.datatype == self.spec_datatype(),
            r.sender == sender,
            r.receivers == receivers,
            r.id == id,
    {
        ConsistencyCheck {
            kind: self.kind(),
            datatype: self.datatype(),
            sender,
            receivers,
            id,
        }
    }
}

/// The full input of the message-id digest: the length-prefixed senders, the
/// per-kind metadata, then the length-prefixed receivers.
pub open spec fn message_id_input(
    collective: Collective,
    senders: Seq<PartyID>,
    receivers: Seq<PartyID>,
) -> Seq<u8> {
    communicator_id_bytes(senders) + collective.id_metadata_bytes() + communicator_id_bytes(
        receivers,
    )
}

/// Build the input bytes of the message-id digest for one collective.
pub fn build_message_id_input(
    collective: &Collective,
    senders: &Communicator,
    receivers: &Communicator,
) -> (r: Vec<u8>)
    ensures
        r@ == message_id_input(*collective, senders@, receivers@),
{
    let mut out: Vec<u8> = Vec::new();
    push_communicator_id_bytes(&mut out, senders);
    collective.push_id_metadata_bytes(&mut out);
    push_communicator_id_bytes(&mut out, receivers);
    assert(out@ == message_id_input(*collective, senders@, receivers@));
    out
}


proof fn lemma_parties_le_bytes_injective(a: Seq<PartyID>, b: Seq<PartyID>)
    requires
        a.len() == b.len(),
        parties_le_bytes(a) == parties_le_bytes(b),
    ensures
        a == b,
    decreases a.len(),
{
    vstd::bytes::lemma_auto_spec_u16_to_from_le_bytes();
    if a.len() > 0 {
        lemma_parties_le_bytes_len(a);
        lemma_parties_le_bytes_len(b);
        lemma_parties_le_bytes_len(a.drop_last());
        lemma_parties_le_bytes_len(b.drop_last());
        let bytes = parties_le_bytes(a);
        let n = a.len() as int;
        assert(parties_le_bytes(a.drop_last()) =~= bytes.subrange(0, 2 * (n - 1)));
        assert(parties_le_bytes(b.drop_last()) =~= bytes.subrange(0, 2 * (n - 1)));
        assert(spec_u16_to_le_bytes(a.last()) =~= bytes.subrange(2 * (n - 1), 2 * n));
        assert(spec_u16_to_le_bytes(b.last()) =~= bytes.subrange(2 * (n - 1), 2 * n));
        assert(a.last() == b.last());
        lemma_parties_le_bytes_injective(a.drop_last(), b.drop_last());
        assert forall|i: int| 0 <= i < a.len() implies a[i] == b[i] by {
            if i < a.len() - 1 {
                assert(a.drop_last()[i] == a[i]);
                assert(b.drop_last()[i] == b[i]);
            }
        }
        assert(a =~= b);
    } else {
        assert(a =~= b);
    }
}

/// Two collectives that differ in a communicator feed different bytes to the
/// message-id digest: the length-prefixed encoding of the communicators is
/// injective. Distinctness of the digests themselves rests on the collision
/// resistance of the hash, which nothing here states.
pub proof fn lemma_message_id_input_injective(
    c: Collective,
    senders1: Seq<PartyID>,
    receivers1: Seq<PartyID>,
    senders2: Seq<PartyID>,
    receivers2: Seq<PartyID>,
)
    requires
        message_id_input(c, senders1, receivers1) == message_id_input(c, senders2, receivers2),
        senders1.len() <= u64::MAX,
        senders2.len() <= u64::MAX,
        receivers1.len() <= u64::MAX,
        receivers2.len() <= u64::MAX,
    ensures
        senders1 == senders2,
        receivers1 == receivers2,
{
    vstd::bytes::lemma_auto_spec_u64_to_from_le_bytes();
    vstd::bytes::lemma_auto_spec_u16_to_from_le_bytes();
    let bytes = message_id_input(c, senders1, receivers1);
    lemma_communicator_id_bytes_len(senders1);
    lemma_communicator_id_bytes_len(senders2);
    lemma_communicator_id_bytes_len(receivers1);
    lemma_communicator_id_bytes_len(receivers2);
    lemma_parties_le_bytes_len(senders1);
    lemma_parties_le_bytes_len(senders2);
    lemma_parties_le_bytes_len(receivers1);
    lemma_parties_le_bytes_len(receivers2);
    assert(spec_u64_to_le_bytes(senders1.len() as u64) =~= bytes.subrange(0, 8));
    assert(spec_u64_to_le_bytes(senders2.len() as u64) =~= bytes.subrange(0, 8));
    assert(senders1.len() == senders2.len());
    let sl = senders1.len() as int;
    assert(parties_le_bytes(senders1) =~= bytes.subrange(8, 8 + 2 * sl));
    assert(parties_le_bytes(senders2) =~= bytes.subrange(8, 8 + 2 * sl));
    lemma_parties_le_bytes_injective(senders1, senders2);
    let meta = c.id_metadata_bytes();
    assert(bytes.len() == communicator_id_bytes(senders1).len() + meta.len()
        + communicator_id_bytes(receivers1).len());
    assert(bytes.len() == communicator_id_bytes(senders2).len() + meta.len()
        + communicator_id_bytes(receivers2).len());
    assert(receivers1.len() == receivers2.len());
    let rl = receivers1.len() as int;
    let roff = 8 + 2 * sl + meta.len() + 8;
    assert(parties_le_bytes(receivers1) =~= bytes.subrange(roff as int, roff as int + 2 * rl));
    assert(parties_le_bytes(receivers2) =~= bytes.subrange(roff as int, roff as int + 2 * rl));
    lemma_parties_le_bytes_injective(receivers1, receivers2);
}

} // verus!

//! Message kinds and their stable wire codes.

use vstd::prelude::*;

verus! {

/// What kind of message is carried by a frame.
///
/// Each kind has a stable numeric code on the wire (see [`MessageKind::code`]);
/// most kinds correspond to collective communication operations, and two carry
/// consistency checks for earlier collectives.
#[derive(PartialEq, Eq, Structural, Debug, Clone, Copy)]
pub enum MessageKind {
    /// One party sends one value to one party.
    Send,
    /// One party sends one value to every party of the communicator.
    Broadcast,
    /// One party sends a distinct value to every party of the communicator.
    Scatter,
    /// Every party of the communicator sends a distinct value to one party.
    Gather,
    /// Every party sends one value to every party of the communicator.
    AllGather,
    /// Every party sends a distinct value to every party of the communicator.
    AllToAll,
    /// Consistency check for an earlier `Broadcast`.
    ConsistencyCheckBroadcast,
    /// Consistency check for an earlier `AllGather`.
    ConsistencyCheckAllGather,
}

impl MessageKind {
    /// The stable wire code of this kind.
    pub open spec fn spec_code(self) -> u8 {
        match self {
            MessageKind::Send => 1,
            MessageKind::Broadcast => 2,
            MessageKind::Scatter => 3,
            MessageKind::Gather => 4,
            MessageKind::AllGather => 5,
            MessageKind::AllToAll => 6,
            MessageKind::ConsistencyCheckBroadcast => 18,
            MessageKind::ConsistencyCheckAllGather => 21,
        }
    }

    /// The kind encoded by a wire code, if any.
    pub open spec fn spec_from_code(value: u8) -> Option<MessageKind> {
        if value == 1 {
            Some(MessageKind::Send)
        } else if value == 2 {
            Some(MessageKind::Broadcast)
        } else if value == 3 {
            Some(MessageKind::Scatter)
        } else if value == 4 {
            Some(MessageKind::Gather)
        } else if value == 5 {
            Some(MessageKind::AllGather)
        } else if value == 6 {
            Some(MessageKind::AllToAll)
        } else if value == 18 {
            Some(MessageKind::ConsistencyCheckBroadcast)
        } else if value == 21 {
            Some(MessageKind::ConsistencyCheckAllGather)
        } else {
            None
        }
    }

    /// The stable wire code of this kind.
    #[verifier::when_used_as_spec(spec_code)]
    pub fn code(self) -> (r: u8)
        ensures
            r == self.spec_code(),
    {
        match self {
            MessageKind::Send => 1,
            MessageKind::Broadcast => 2,
            MessageKind::Scatter => 3,
            MessageKind::Gather => 4,
            MessageKind::AllGather => 5,
            MessageKind::AllToAll => 6,
            MessageKind::ConsistencyCheckBroadcast => 18,
            MessageKind::ConsistencyCheckAllGather => 21,
        }
    }

    /// Convert to the single little-endian byte sent over the network.
    pub fn to_le_bytes(self) -> (r: [u8; 1])
        ensures
            r@ == seq![self.spec_code()],
    {
        [self.code()]
    }

    /// Convert from the wire byte. Fails if the value encodes no kind.
    pub fn try_from_le_bytes(bytes: [u8; 1]) -> (r: Result<MessageKind, u8>)
        ensures
            match r {
                Ok(k) => Self::spec_from_code(bytes[0]) == Some(k),
                Err(v) => v == bytes[0] && Self::spec_from_code(bytes[0]) is None,
            },
    {
        let value = bytes[0];
        Self::try_from_code(value)
    }

    /// Convert from the wire code. Fails if the value encodes no kind.
    pub fn try_from_code(value: u8) -> (r: Result<MessageKind, u8>)
        ensures
            match r {
                Ok(k) => Self::spec_from_code(value) == Some(k),
                Err(v) => v == value && Self::spec_from_code(value) is None,
            },
    {
        if value == 1 {
            Ok(MessageKind::Send)
        } else if value == 2 {
            Ok(MessageKind::Broadcast)
        } else if value == 3 {
            Ok(MessageKind::Scatter)
        } else if value == 4 {
            Ok(MessageKind::Gather)
        } else if value == 5 {
            Ok(MessageKind::AllGather)
        } else if value == 6 {
            Ok(MessageKind::AllToAll)
        } else if value == 18 {
            Ok(MessageKind::ConsistencyCheckBroadcast)
        } else if value == 21 {
            Ok(MessageKind::ConsistencyCheckAllGather)
        } else {
            Err(value)
        }
    }

    /// Whether this kind of message has a corresponding consistency check.
    pub open spec fn spec_needs_check(self) -> bool {
        self == MessageKind::Broadcast || self == MessageKind::AllGather
    }

    /// Whether this kind of message has a corresponding consistency check.
    #[verifier::when_used_as_spec(spec_needs_check)]
    pub fn needs_check(self) -> (r: bool)
        ensures
            r == self.spec_needs_check(),
    {
        match self {
            MessageKind::Broadcast | MessageKind::AllGather => true,
            _ => false,
        }
    }

    /// Whether this kind of message carries a consistency check.
    pub open spec fn spec_is_consistency_check(self) -> bool {
        self == MessageKind::ConsistencyCheckBroadcast
            || self == MessageKind::ConsistencyCheckAllGather
    }

    /// Whether this kind of message carries a consistency check.
    #[verifier::when_used_as_spec(spec_is_consistency_check)]
    pub fn is_consistency_check(self) -> (r: bool)
        ensures
            r == self.spec_is_consistency_check(),
    {
        match self {
            MessageKind::ConsistencyCheckBroadcast | MessageKind::ConsistencyCheckAllGather => true,
            _ => false,
        }
    }

    /// The consistency-check kind that checks this kind, if any.
    pub fn try_to_check(self) -> (r: Result<MessageKind, ()>)
        ensures
            self == MessageKind::Broadcast ==> r == Ok::<MessageKind, ()>(
                MessageKind::ConsistencyCheckBroadcast,
            ),
            self == MessageKind::AllGather ==> r == Ok::<MessageKind, ()>(
                MessageKind::ConsistencyCheckAllGather,
            ),
            !self.needs_check() ==> r is Err,
    {
        match self {
            MessageKind::Broadcast => Ok(MessageKind::ConsistencyCheckBroadcast),
            MessageKind::AllGather => Ok(MessageKind::ConsistencyCheckAllGather),
            _ => Err(()),
        }
    }

    /// The kind checked by this consistency-check kind, if any.
    pub fn try_from_check(self) -> (r: Result<MessageKind, ()>)
        ensures
            self == MessageKind::ConsistencyCheckBroadcast ==> r == Ok::<MessageKind, ()>(
                MessageKind::Broadcast,
            ),
            self == MessageKind::ConsistencyCheckAllGather ==> r == Ok::<MessageKind, ()>(
                MessageKind::AllGather,
            ),
            !self.is_consistency_check() ==> r is Err,
    {
        match self {
            MessageKind::ConsistencyCheckBroadcast => Ok(MessageKind::Broadcast),
            MessageKind::ConsistencyCheckAllGather => Ok(MessageKind::AllGather),
            _ => Err(()),
        }
    }
}

} // verus!

//! Integer error codes reported at the foreign boundary, and the verified
//! flattening of the internal error taxonomy onto them.

use vstd::prelude::*;

use crate::errors::{
    ClientError, ConnectFault, ConnectionFault, ConsistencyCheckError, JoinFault, ReadExactFault,
    ReadFault, ReadToEndFault, ReceiveError, SendError, SendReceiveError, ServerError,
    SignatureError, WriteFault,
};

verus! {

/// Result code of a send operation at the foreign boundary.
#[derive(PartialEq, Eq, Structural, Debug, Clone, Copy)]
pub enum SendErrc {
    Success,
    InvalidHandle,
    InvalidPointer,
    InvalidSize,
    ChannelCouldNotReceive,
    ChannelCouldNotSend,
    ConnectionVersionMismatch,
    ConnectionTransportError,
    ConnectionClosed,
    ConnectionReset,
    ConnectionTimedOut,
    ConnectionLocallyClosed,
    ConnectionsExhausted,
    ApplicationClosed,
    StreamStopped,
    StreamClosed,
    StreamRejected,
}

/// Result code of a receive operation at the foreign boundary.
#[derive(PartialEq, Eq, Structural, Debug, Clone, Copy)]
pub enum ReceiveErrc {
    Success,
    InvalidHandle,
    InvalidPointer,
    VersionMismatch,
    FeatureMismatch,
    ChannelCouldNotReceive,
    ChannelCouldNotSend,
    ConnectionVersionMismatch,
    ConnectionTransportError,
    ConnectionClosed,
    ConnectionReset,
    ConnectionTimedOut,
    ConnectionLocallyClosed,
    ConnectionsExhausted,
    ApplicationClosed,
    StreamFinishedEarly,
    StreamReset,
    StreamClosed,
    StreamIllegalOrderedRead,
    StreamRejected,
    StreamTooLong,
    InvalidEnumValue,
    SizeMismatch,
    SessionMismatch,
    SignatureVerification,
    UnknownSender,
}

/// Result code of a collective operation at the foreign boundary.
#[derive(PartialEq, Eq, Structural, Debug, Clone, Copy)]
pub enum SendReceiveErrc {
    Success,
    InvalidHandle,
    InvalidPointer,
    InvalidSize,
    InvalidCommunicator,
    InvalidMetadata,
    VersionMismatch,
    FeatureMismatch,
    ChannelCouldNotReceive,
    ChannelCouldNotSend,
    ConnectionVersionMismatch,
    ConnectionTransportError,
    ConnectionClosed,
    ConnectionReset,
    ConnectionTimedOut,
    ConnectionLocallyClosed,
    ConnectionsExhausted,
    ApplicationClosed,
    StreamFinishedEarly,
    StreamReset,
    StreamStopped,
    StreamClosed,
    StreamIllegalOrderedRead,
    StreamRejected,
    StreamTooLong,
    InvalidEnumValue,
    SizeMismatch,
    TaskCancelled,
    TaskPanicked,
    MultipleErrors,
    SessionMismatch,
    SignatureVerification,
    UnknownSender,
}

/// How a connection fault flattens to a send code.
pub open spec fn spec_send_errc_of_connection(value: ConnectionFault) -> SendErrc {
    match value {
        ConnectionFault::VersionMismatch => SendErrc::ConnectionVersionMismatch,
        ConnectionFault::TransportError => SendErrc::ConnectionTransportError,
        ConnectionFault::ConnectionClosed => SendErrc::ConnectionClosed,
        ConnectionFault::ApplicationClosed => SendErrc::ApplicationClosed,
        ConnectionFault::Reset => SendErrc::ConnectionReset,
        ConnectionFault::TimedOut => SendErrc::ConnectionTimedOut,
        ConnectionFault::LocallyClosed => SendErrc::ConnectionLocallyClosed,
        ConnectionFault::CidsExhausted => SendErrc::ConnectionsExhausted,
    }
}

/// How a fault while opening a connection flattens to a send code.
pub open spec fn spec_send_errc_of_connect(value: ConnectFault) -> SendErrc {
    match value {
        ConnectFault::CidsExhausted => SendErrc::ConnectionsExhausted,
        _ => SendErrc::ConnectionTransportError,
    }
}

/// How a send error flattens to a send code.
pub open spec fn spec_send_errc(value: SendError) -> SendErrc {
    match value {
        SendError::Send => SendErrc::ChannelCouldNotSend,
        SendError::Receive => SendErrc::ChannelCouldNotReceive,
        SendError::Client(ClientError::Connect(connect)) => spec_send_errc_of_connect(connect),
        SendError::Client(ClientError::Connection(connection)) => spec_send_errc_of_connection(
            connection,
        ),
        SendError::Client(ClientError::Write(write)) => match write {
            WriteFault::Stopped => SendErrc::StreamStopped,
            WriteFault::ConnectionLost(connection) => spec_send_errc_of_connection(connection),
            WriteFault::ClosedStream => SendErrc::StreamClosed,
            WriteFault::ZeroRttRejected => SendErrc::StreamRejected,
        },
    }
}

impl SendErrc {
    /// Flatten a connection fault.
    pub fn from_connection(value: ConnectionFault) -> (r: SendErrc)
        ensures
            r == spec_send_errc_of_connection(value),
    {
        match value {
            ConnectionFault::VersionMismatch => SendErrc::ConnectionVersionMismatch,
            ConnectionFault::TransportError => SendErrc::ConnectionTransportError,
            ConnectionFault::ConnectionClosed => SendErrc::ConnectionClosed,
            ConnectionFault::ApplicationClosed => SendErrc::ApplicationClosed,
            ConnectionFault::Reset => SendErrc::ConnectionReset,
            ConnectionFault::TimedOut => SendErrc::ConnectionTimedOut,
            ConnectionFault::LocallyClosed => SendErrc::ConnectionLocallyClosed,
            ConnectionFault::CidsExhausted => SendErrc::ConnectionsExhausted,
        }
    }

    /// Flatten a send error.
    pub fn from_send_error(value: SendError) -> (r: SendErrc)
        ensures
            r == spec_send_errc(value),
    {
        match value {
            SendError::Send => SendErrc::ChannelCouldNotSend,
            SendError::Receive => SendErrc::ChannelCouldNotReceive,
            SendError::Client(ClientError::Connect(connect)) => match connect {
                ConnectFault::CidsExhausted => SendErrc::ConnectionsExhausted,
                _ => SendErrc::ConnectionTransportError,
            },
            SendError::Client(ClientError::Connection(connection)) => Self::from_connection(
                connection,
            ),
            SendError::Client(ClientError::Write(write)) => match write {
                WriteFault::Stopped => SendErrc::StreamStopped,
                WriteFault::ConnectionLost(connection) => Self::from_connection(connection),
                WriteFault::ClosedStream => SendErrc::StreamClosed,
                WriteFault::ZeroRttRejected => SendErrc::StreamRejected,
            },
        }
    }
}

/// How a connection fault flattens to a receive code.
pub open spec fn spec_receive_errc_of_connection(value: ConnectionFault) -> ReceiveErrc {
    match value {
        ConnectionFault::VersionMismatch => ReceiveErrc::ConnectionVersionMismatch,
        ConnectionFault::TransportError => ReceiveErrc::ConnectionTransportError,
        ConnectionFault::ConnectionClosed => ReceiveErrc::ConnectionClosed,
        ConnectionFault::ApplicationClosed => ReceiveErrc::ApplicationClosed,
        ConnectionFault::Reset => ReceiveErrc::ConnectionReset,
        ConnectionFault::TimedOut => ReceiveErrc::ConnectionTimedOut,
        ConnectionFault::LocallyClosed => ReceiveErrc::ConnectionLocallyClosed,
        ConnectionFault::CidsExhausted => ReceiveErrc::ConnectionsExhausted,
    }
}

/// How a stream-read fault flattens to a receive code.
pub open spec fn spec_receive_errc_of_read(value: ReadFault) -> ReceiveErrc {
    match value {
        ReadFault::Reset => ReceiveErrc::StreamReset,
        ReadFault::ConnectionLost(connection) => spec_receive_errc_of_connection(connection),
        ReadFault::ClosedStream => ReceiveErrc::StreamClosed,
        ReadFault::IllegalOrderedRead => ReceiveErrc::StreamIllegalOrderedRead,
        ReadFault::ZeroRttRejected => ReceiveErrc::StreamRejected,
    }
}

/// How a receive error flattens to a receive code.
pub open spec fn spec_receive_errc(value: ReceiveError) -> ReceiveErrc {
    match value {
        ReceiveError::Send => ReceiveErrc::ChannelCouldNotSend,
        ReceiveError::Receive => ReceiveErrc::ChannelCouldNotReceive,
        ReceiveError::Server(ServerError::VersionMismatch) => ReceiveErrc::VersionMismatch,
        ReceiveError::Server(ServerError::FeatureMismatch) => ReceiveErrc::FeatureMismatch,
        ReceiveError::Server(ServerError::ReadExact(read)) => match read {
            ReadExactFault::FinishedEarly(_) => ReceiveErrc::StreamFinishedEarly,
            ReadExactFault::ReadError(read) => spec_receive_errc_of_read(read),
        },
        ReceiveError::Server(ServerError::ReadToEnd(read)) => match read {
            ReadToEndFault::Read(read) => spec_receive_errc_of_read(read),
            ReadToEndFault::TooLong => ReceiveErrc::StreamTooLong,
        },
        ReceiveError::Server(ServerError::FromPrimitive(_)) => ReceiveErrc::InvalidEnumValue,
        ReceiveError::Server(ServerError::SizeMismatch(_)) => ReceiveErrc::SizeMismatch,
        ReceiveError::Server(ServerError::SessionMismatch) => ReceiveErrc::SessionMismatch,
        ReceiveError::Server(ServerError::Signature(SignatureError::SignatureVerification)) =>
            ReceiveErrc::SignatureVerification,
        ReceiveError::Server(ServerError::Signature(SignatureError::UnknownSender)) =>
            ReceiveErrc::UnknownSender,
        ReceiveError::ConsistencyCheck(ConsistencyCheckError::UnknownSender) =>
            ReceiveErrc::UnknownSender,
        ReceiveError::ConsistencyCheck(_) => ReceiveErrc::SignatureVerification,
    }
}

impl ReceiveErrc {
    /// Flatten a connection fault.
    pub fn from_connection(value: ConnectionFault) -> (r: ReceiveErrc)
        ensures
            r == spec_receive_errc_of_connection(value),
    {
        match value {
            ConnectionFault::VersionMismatch => ReceiveErrc::ConnectionVersionMismatch,
            ConnectionFault::TransportError => ReceiveErrc::ConnectionTransportError,
            ConnectionFault::ConnectionClosed => ReceiveErrc::ConnectionClosed,
            ConnectionFault::ApplicationClosed => ReceiveErrc::ApplicationClosed,
            ConnectionFault::Reset => ReceiveErrc::ConnectionReset,
            ConnectionFault::TimedOut => ReceiveErrc::ConnectionTimedOut,
            ConnectionFault::LocallyClosed => ReceiveErrc::ConnectionLocallyClosed,
            ConnectionFault::CidsExhausted => ReceiveErrc::ConnectionsExhausted,
        }
    }

    /// Flatten a stream-read fault.
    pub fn from_read(value: ReadFault) -> (r: ReceiveErrc)
        ensures
            r == spec_receive_errc_of_read(value),
    {
        match value {
            ReadFault::Reset => ReceiveErrc::StreamReset,
            ReadFault::ConnectionLost(connection) => Self::from_connection(connection),
            ReadFault::ClosedStream => ReceiveErrc::StreamClosed,
            ReadFault::IllegalOrderedRead => ReceiveErrc::StreamIllegalOrderedRead,
            ReadFault::ZeroRttRejected => ReceiveErrc::StreamRejected,
        }
    }

    /// Flatten a receive error.
    pub fn from_receive_error(value: ReceiveError) -> (r: ReceiveErrc)
        ensures
            r == spec_receive_errc(value),
    {
        match value {
            ReceiveError::Send => ReceiveErrc::ChannelCouldNotSend,
            ReceiveError::Receive => ReceiveErrc::ChannelCouldNotReceive,
            ReceiveError::Server(ServerError::VersionMismatch) => ReceiveErrc::VersionMismatch,
            ReceiveError::Server(ServerError::FeatureMismatch) => ReceiveErrc::FeatureMismatch,
            ReceiveError::Server(ServerError::ReadExact(read)) => match read {
                ReadExactFault::FinishedEarly(_) => ReceiveErrc::StreamFinishedEarly,
                ReadExactFault::ReadError(read) => Self::from_read(read),
            },
            ReceiveError::Server(ServerError::ReadToEnd(read)) => match read {
                ReadToEndFault::Read(read) => Self::from_read(read),
                ReadToEndFault::TooLong => ReceiveErrc::StreamTooLong,
            },
            ReceiveError::Server(ServerError::FromPrimitive(_)) => ReceiveErrc::InvalidEnumValue,
            ReceiveError::Server(ServerError::SizeMismatch(_)) => ReceiveErrc::SizeMismatch,
            ReceiveError::Server(ServerError::SessionMismatch) => ReceiveErrc::SessionMismatch,
            ReceiveError::Server(ServerError::Signature(SignatureError::SignatureVerification)) =>
                ReceiveErrc::SignatureVerification,
            ReceiveError::Server(ServerError::Signature(SignatureError::UnknownSender)) =>
                ReceiveErrc::UnknownSender,
            ReceiveError::ConsistencyCheck(ConsistencyCheckError::UnknownSender) =>
                ReceiveErrc::UnknownSender,
            ReceiveError::ConsistencyCheck(_) => ReceiveErrc::SignatureVerification,
        }
    }
}

/// How a send code widens to a collective code.
pub open spec fn spec_send_receive_errc_of_send(value: SendErrc) -> SendReceiveErrc {
    match value {
        SendErrc::Success => SendReceiveErrc::Success,
        SendErrc::InvalidHandle => SendReceiveErrc::InvalidHandle,
        SendErrc::InvalidPointer => SendReceiveErrc::InvalidPointer,
        SendErrc::InvalidSize => SendReceiveErrc::InvalidSize,
        SendErrc::ChannelCouldNotReceive => SendReceiveErrc::ChannelCouldNotReceive,
        SendErrc::ChannelCouldNotSend => SendReceiveErrc::ChannelCouldNotSend,
        SendErrc::ConnectionVersionMismatch => SendReceiveErrc::ConnectionVersionMismatch,
        SendErrc::ConnectionTransportError => SendReceiveErrc::ConnectionTransportError,
        SendErrc::ConnectionClosed => SendReceiveErrc::ConnectionClosed,
        SendErrc::ConnectionReset => SendReceiveErrc::ConnectionReset,
        SendErrc::ConnectionTimedOut => SendReceiveErrc::ConnectionTimedOut,
        SendErrc::ConnectionLocallyClosed => SendReceiveErrc::ConnectionLocallyClosed,
        SendErrc::ConnectionsExhausted => SendReceiveErrc::ConnectionsExhausted,
        SendErrc::ApplicationClosed => SendReceiveErrc::ApplicationClosed,
        SendErrc::StreamStopped => SendReceiveErrc::StreamStopped,
        SendErrc::StreamClosed => SendReceiveErrc::StreamClosed,
        SendErrc::StreamRejected => SendReceiveErrc::StreamRejected,
    }
}

/// How a receive code widens to a collective code.
pub open spec fn spec_send_receive_errc_of_receive(value: ReceiveErrc) -> SendReceiveErrc {
    match value {
        ReceiveErrc::Success => SendReceiveErrc::Success,
        ReceiveErrc::InvalidHandle => SendReceiveErrc::InvalidHandle,
        ReceiveErrc::InvalidPointer => SendReceiveErrc::InvalidPointer,
        ReceiveErrc::VersionMismatch => SendReceiveErrc::VersionMismatch,
        ReceiveErrc::FeatureMismatch => SendReceiveErrc::FeatureMismatch,
        ReceiveErrc::ChannelCouldNotReceive => SendReceiveErrc::ChannelCouldNotReceive,
        ReceiveErrc::ChannelCouldNotSend => SendReceiveErrc::ChannelCouldNotSend,
        ReceiveErrc::ConnectionVersionMismatch => SendReceiveErrc::ConnectionVersionMismatch,
        ReceiveErrc::ConnectionTransportError => SendReceiveErrc::ConnectionTransportError,
        ReceiveErrc::ConnectionClosed => SendReceiveErrc::ConnectionClosed,
        ReceiveErrc::ConnectionReset => SendReceiveErrc::ConnectionReset,
        ReceiveErrc::ConnectionTimedOut => SendReceiveErrc::ConnectionTimedOut,
        ReceiveErrc::ConnectionLocallyClosed => SendReceiveErrc::ConnectionLocallyClosed,
        ReceiveErrc::ConnectionsExhausted => SendReceiveErrc::ConnectionsExhausted,
        ReceiveErrc::ApplicationClosed => SendReceiveErrc::ApplicationClosed,
        ReceiveErrc::StreamFinishedEarly => SendReceiveErrc::StreamFinishedEarly,
        ReceiveErrc::StreamReset => SendReceiveErrc::StreamReset,
        ReceiveErrc::StreamClosed => SendReceiveErrc::StreamClosed,
        ReceiveErrc::StreamIllegalOrderedRead => SendReceiveErrc::StreamIllegalOrderedRead,
        ReceiveErrc::StreamRejected => SendReceiveErrc::StreamRejected,
        ReceiveErrc::StreamTooLong => SendReceiveErrc::StreamTooLong,
        ReceiveErrc::InvalidEnumValue => SendReceiveErrc::InvalidEnumValue,
        ReceiveErrc::SizeMismatch => SendReceiveErrc::SizeMismatch,
        ReceiveErrc::SessionMismatch => SendReceiveErrc::SessionMismatch,
        ReceiveErrc::SignatureVerification => SendReceiveErrc::SignatureVerification,
        ReceiveErrc::UnknownSender => SendReceiveErrc::UnknownSender,
    }
}

/// How a collective error flattens to a collective code.
pub open spec fn spec_send_receive_errc(value: SendReceiveError) -> SendReceiveErrc {
    match value {
        SendReceiveError::Send(send) => spec_send_receive_errc_of_send(spec_send_errc(send)),
        SendReceiveError::Receive(receive) => spec_send_receive_errc_of_receive(
            spec_receive_errc(receive),
        ),
        SendReceiveError::Join(JoinFault::Cancelled) => SendReceiveErrc::TaskCancelled,
        SendReceiveError::Join(JoinFault::Panicked) => SendReceiveErrc::TaskPanicked,
        SendReceiveError::Multiple => SendReceiveErrc::MultipleErrors,
    }
}

impl SendReceiveErrc {
    /// Widen a send code.
    pub fn from_send_errc(value: SendErrc) -> (r: SendReceiveErrc)
        ensures
            r == spec_send_receive_errc_of_send(value),
    {
        match value {
            SendErrc::Success => SendReceiveErrc::Success,
            SendErrc::InvalidHandle => SendReceiveErrc::InvalidHandle,
            SendErrc::InvalidPointer => SendReceiveErrc::InvalidPointer,
            SendErrc::InvalidSize => SendReceiveErrc::InvalidSize,
            SendErrc::ChannelCouldNotReceive => SendReceiveErrc::ChannelCouldNotReceive,
            SendErrc::ChannelCouldNotSend => SendReceiveErrc::ChannelCouldNotSend,
            SendErrc::ConnectionVersionMismatch => SendReceiveErrc::ConnectionVersionMismatch,
            SendErrc::ConnectionTransportError => SendReceiveErrc::ConnectionTransportError,
            SendErrc::ConnectionClosed => SendReceiveErrc::ConnectionClosed,
            SendErrc::ConnectionReset => SendReceiveErrc::ConnectionReset,
            SendErrc::ConnectionTimedOut => SendReceiveErrc::ConnectionTimedOut,
            SendErrc::ConnectionLocallyClosed => SendReceiveErrc::ConnectionLocallyClosed,
            SendErrc::ConnectionsExhausted => SendReceiveErrc::ConnectionsExhausted,
            SendErrc::ApplicationClosed => SendReceiveErrc::ApplicationClosed,
            SendErrc::StreamStopped => SendReceiveErrc::StreamStopped,
            SendErrc::StreamClosed => SendReceiveErrc::StreamClosed,
            SendErrc::StreamRejected => SendReceiveErrc::StreamRejected,
        }
    }

    /// Widen a receive code.
    pub fn from_receive_errc(value: ReceiveErrc) -> (r: SendReceiveErrc)
        ensures
            r == spec_send_receive_errc_of_receive(value),
    {
        match value {
            ReceiveErrc::Success => SendReceiveErrc::Success,
            ReceiveErrc::InvalidHandle => SendReceiveErrc::InvalidHandle,
            ReceiveErrc::InvalidPointer => SendReceiveErrc::InvalidPointer,
            ReceiveErrc::VersionMismatch => SendReceiveErrc::VersionMismatch,
            ReceiveErrc::FeatureMismatch => SendReceiveErrc::FeatureMismatch,
            ReceiveErrc::ChannelCouldNotReceive => SendReceiveErrc::ChannelCouldNotReceive,
            ReceiveErrc::ChannelCouldNotSend => SendReceiveErrc::ChannelCouldNotSend,
            ReceiveErrc::ConnectionVersionMismatch => SendReceiveErrc::ConnectionVersionMismatch,
            ReceiveErrc::ConnectionTransportError => SendReceiveErrc::ConnectionTransportError,
            ReceiveErrc::ConnectionClosed => SendReceiveErrc::ConnectionClosed,
            ReceiveErrc::ConnectionReset => SendReceiveErrc::ConnectionReset,
            ReceiveErrc::ConnectionTimedOut => SendReceiveErrc::ConnectionTimedOut,
            ReceiveErrc::ConnectionLocallyClosed => SendReceiveErrc::ConnectionLocallyClosed,
            ReceiveErrc::ConnectionsExhausted => SendReceiveErrc::ConnectionsExhausted,
            ReceiveErrc::ApplicationClosed => SendReceiveErrc::ApplicationClosed,
            ReceiveErrc::StreamFinishedEarly => SendReceiveErrc::StreamFinishedEarly,
            ReceiveErrc::StreamReset => SendReceiveErrc::StreamReset,
            ReceiveErrc::StreamClosed => SendReceiveErrc::StreamClosed,
            ReceiveErrc::StreamIllegalOrderedRead => SendReceiveErrc::StreamIllegalOrderedRead,
            ReceiveErrc::StreamRejected => SendReceiveErrc::StreamRejected,
            ReceiveErrc::StreamTooLong => SendReceiveErrc::StreamTooLong,
            ReceiveErrc::InvalidEnumValue => SendReceiveErrc::InvalidEnumValue,
            ReceiveErrc::SizeMismatch => SendReceiveErrc::SizeMismatch,
            ReceiveErrc::SessionMismatch => SendReceiveErrc::SessionMismatch,
            ReceiveErrc::SignatureVerification => SendReceiveErrc::SignatureVerification,
            ReceiveErrc::UnknownSender => SendReceiveErrc::UnknownSender,
        }
    }

    /// Flatten a send error.
    pub fn from_send_error(value: SendError) -> (r: SendReceiveErrc)
        ensures
            r == spec_send_receive_errc_of_send(spec_send_errc(value)),
    {
        Self::from_send_errc(SendErrc::from_send_error(value))
    }

    /// Flatten a receive error.
    pub fn from_receive_error(value: ReceiveError) -> (r: SendReceiveErrc)
        ensures
            r == spec_send_receive_errc_of_receive(spec_receive_errc(value)),
    {
        Self::from_receive_errc(ReceiveErrc::from_receive_error(value))
    }

    /// Flatten a collective error.
    pub fn from_send_receive_error(value: SendReceiveError) -> (r: SendReceiveErrc)
        ensures
            r == spec_send_receive_errc(value),
    {
        match value {
            SendReceiveError::Send(send) => Self::from_send_error(send),
            SendReceiveError::Receive(receive) => Self::from_receive_error(receive),
            SendReceiveError::Join(JoinFault::Cancelled) => SendReceiveErrc::TaskCancelled,
            SendReceiveError::Join(JoinFault::Panicked) => SendReceiveErrc::TaskPanicked,
            SendReceiveError::Multiple => SendReceiveErrc::MultipleErrors,
        }
    }
}


/// How a rejected collective call's plan error flattens to a collective code.
pub open spec fn spec_send_receive_errc_of_plan(value: crate::planner::PlanError) -> SendReceiveErrc {
    match value {
        crate::planner::PlanError::InvalidSize => SendReceiveErrc::InvalidSize,
        crate::planner::PlanError::InvalidCommunicator => SendReceiveErrc::InvalidCommunicator,
        crate::planner::PlanError::InvalidMetadata => SendReceiveErrc::InvalidMetadata,
    }
}

impl SendReceiveErrc {
    /// Flatten a plan error.
    pub fn from_plan_error(value: crate::planner::PlanError) -> (r: SendReceiveErrc)
        ensures
            r == spec_send_receive_errc_of_plan(value),
    {
        match value {
            crate::planner::PlanError::InvalidSize => SendReceiveErrc::InvalidSize,
            crate::planner::PlanError::InvalidCommunicator => SendReceiveErrc::InvalidCommunicator,
            crate::planner::PlanError::InvalidMetadata => SendReceiveErrc::InvalidMetadata,
        }
    }
}

} // verus!

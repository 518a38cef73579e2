//! Error taxonomy of the runtime, and its flattening to the integer error
//! codes reported at the foreign boundary.
//!
//! Connection- and stream-level faults are represented by enums of this
//! library so that the flattening rules are plain data transformations; the
//! transport layer translates its own error values into these.

use vstd::prelude::*;

use crate::MessageSize;

verus! {

/// A numeric value did not encode a valid enum value.
#[derive(PartialEq, Eq, Structural, Debug, Clone, Copy)]
pub enum FromPrimitiveError {
    FromU8(u8),
    FromU16(u16),
}

/// A payload's actual size differed from the declared size.
#[derive(PartialEq, Eq, Structural, Debug, Clone, Copy)]
pub struct SizeMismatchError(pub MessageSize, pub MessageSize);

/// A session id could not be determined.
#[derive(PartialEq, Eq, Structural, Debug, Clone, Copy)]
pub enum SessionError {
    /// No session id was given in the configuration or the environment.
    NotFound,
    /// The session string did not parse as a numeric session id.
    Parse,
}

/// Why constructing the runtime failed.
#[derive(PartialEq, Eq, Structural, Debug, Clone, Copy)]
pub enum QueueError {
    /// The configuration could not be read or parsed.
    Config,
    /// The session id could not be determined.
    Session(SessionError),
    /// The runtime's resources could not be set up.
    Io,
}

/// Connection-level fault of the transport.
#[derive(PartialEq, Eq, Structural, Debug, Clone, Copy)]
pub enum ConnectionFault {
    /// The peer implements no supported transport version.
    VersionMismatch,
    /// The peer violated the transport protocol.
    TransportError,
    /// The peer closed the connection.
    ConnectionClosed,
    /// The peer's application closed the connection.
    ApplicationClosed,
    /// The connection was reset.
    Reset,
    /// The connection timed out.
    TimedOut,
    /// The connection was closed locally.
    LocallyClosed,
    /// The space of connection ids was exhausted.
    CidsExhausted,
}

/// Fault while opening a connection.
#[derive(PartialEq, Eq, Structural, Debug, Clone, Copy)]
pub enum ConnectFault {
    /// The endpoint can no longer create new connections.
    EndpointStopping,
    /// The space of connection ids was exhausted.
    CidsExhausted,
    /// The server name was malformed.
    InvalidServerName,
    /// The remote address was malformed.
    InvalidRemoteAddress,
    /// No default client configuration was set up.
    NoDefaultClientConfig,
    /// The configured transport version is unsupported.
    UnsupportedVersion,
}

/// Fault while writing to a stream.
#[derive(PartialEq, Eq, Structural, Debug, Clone, Copy)]
pub enum WriteFault {
    /// The peer stopped the stream.
    Stopped,
    /// The connection carrying the stream was lost.
    ConnectionLost(ConnectionFault),
    /// The stream was already closed.
    ClosedStream,
    /// The early data carrying the write was rejected.
    ZeroRttRejected,
}

/// Fault while reading from a stream.
#[derive(PartialEq, Eq, Structural, Debug, Clone, Copy)]
pub enum ReadFault {
    /// The sender reset the stream.
    Reset,
    /// The connection carrying the stream was lost.
    ConnectionLost(ConnectionFault),
    /// The stream was already closed.
    ClosedStream,
    /// An ordered read followed an unordered read.
    IllegalOrderedRead,
    /// The early data carrying the read was rejected.
    ZeroRttRejected,
}

/// Fault while reading an exact number of bytes.
#[derive(PartialEq, Eq, Structural, Debug, Clone, Copy)]
pub enum ReadExactFault {
    /// The stream finished before enough bytes arrived; holds how many did.
    FinishedEarly(usize),
    /// The underlying read failed.
    ReadError(ReadFault),
}

/// Fault while reading a stream to its end.
#[derive(PartialEq, Eq, Structural, Debug, Clone, Copy)]
pub enum ReadToEndFault {
    /// The underlying read failed.
    Read(ReadFault),
    /// The stream exceeded the size limit.
    TooLong,
}

/// Why an outgoing message failed at the connection layer.
#[derive(PartialEq, Eq, Structural, Debug, Clone, Copy)]
pub enum ClientError {
    /// Opening the connection failed.
    Connect(ConnectFault),
    /// The established connection failed.
    Connection(ConnectionFault),
    /// Writing the frame failed.
    Write(WriteFault),
}

/// Why a frame's signature was not accepted.
#[derive(PartialEq, Eq, Structural, Debug, Clone, Copy)]
pub enum SignatureError {
    /// The signature did not verify under the signer's key.
    SignatureVerification,
    /// No verification key is known for the signer.
    UnknownSender,
}

/// Why a consistency check failed.
#[derive(PartialEq, Eq, Structural, Debug, Clone, Copy)]
pub enum ConsistencyCheckError {
    /// Two attestations arrived from one peer for the same message.
    MultipleChecks,
    /// The planner registered the same check twice.
    MultipleRequests,
    /// Two data frames arrived for one message id.
    MultipleMessages,
    /// No verification key is known for the sender.
    UnknownSender,
    /// A peer attested to a message that was never expected of it.
    UnknownCheck,
    /// An attestation's signature did not verify.
    InconsistentSignatureVerification,
    /// A peer observed a different payload: equivocation was detected.
    InconsistentCollectiveCommunication,
}

/// Why an incoming frame was rejected.
#[derive(PartialEq, Eq, Structural, Debug, Clone, Copy)]
pub enum ServerError {
    /// The frame's format version byte differs from this revision.
    VersionMismatch,
    /// The frame's feature flags differ from this peer's.
    FeatureMismatch,
    /// The frame ended before a field was complete.
    ReadExact(ReadExactFault),
    /// The stream could not be read to its end.
    ReadToEnd(ReadToEndFault),
    /// A field held a value that encodes nothing.
    FromPrimitive(FromPrimitiveError),
    /// The payload size differs from the declared size.
    SizeMismatch(SizeMismatchError),
    /// The frame carries another session id.
    SessionMismatch,
    /// The frame's signature was not accepted.
    Signature(SignatureError),
}

/// Why a send failed.
#[derive(PartialEq, Eq, Structural, Debug, Clone, Copy)]
pub enum SendError {
    /// The command channel to the outbound multiplexer was closed.
    Send,
    /// The reply channel was closed before an answer arrived.
    Receive,
    /// The transport failed.
    Client(ClientError),
}

/// Why a receive failed.
#[derive(PartialEq, Eq, Structural, Debug, Clone, Copy)]
pub enum ReceiveError {
    /// The command channel to the message buffer was closed.
    Send,
    /// The reply channel was closed before an answer arrived.
    Receive,
    /// The incoming frame was rejected.
    Server(ServerError),
    /// A consistency check failed.
    ConsistencyCheck(ConsistencyCheckError),
}

/// Why a collective call failed.
#[derive(PartialEq, Eq, Structural, Debug, Clone, Copy)]
pub enum SendReceiveError {
    /// A send task failed.
    Send(SendError),
    /// A receive task failed.
    Receive(ReceiveError),
    /// A task was cancelled or panicked; holds whether it was cancelled.
    Join(JoinFault),
    /// More than one task failed.
    Multiple,
}

/// How a spawned task ended abnormally.
#[derive(PartialEq, Eq, Structural, Debug, Clone, Copy)]
pub enum JoinFault {
    /// The task was cancelled.
    Cancelled,
    /// The task panicked.
    Panicked,
}

} // verus!

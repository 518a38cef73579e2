//! The signed wire format: encoding a frame to bytes, decoding bytes to a
//! frame, and the bytes covered by a frame's signature.
//!
//! A frame is, in order: format version, feature flags, kind, datatype,
//! sender, receiver, message id, session id, payload, signature. All integers
//! are little-endian. The signature covers the header with the payload
//! replaced by its SHA-256 digest.

use vstd::bytes::{
    spec_u128_to_le_bytes, spec_u16_to_le_bytes, spec_u64_to_le_bytes, u128_from_le_bytes,
    u128_to_le_bytes, u16_from_le_bytes, u16_to_le_bytes, u64_from_le_bytes, u64_to_le_bytes,
};
use vstd::prelude::*;
use vstd::slice::{slice_index_get, slice_subrange, slice_to_vec};

use crate::crypto::{
    ed25519_public_of, ed25519_signature_of, ed25519_verifies, hash, sha256_of, PrivateKey,
    VerificationKeys,
};
use crate::errors::{
    FromPrimitiveError, ReadExactFault, ServerError, SignatureError,
};
use crate::kind::MessageKind;
use crate::metadata::Message;
use crate::{MessageSize, PartyID, SessionID};

verus! {

/// Wire format version of this revision.
pub const MESSAGE_FORMAT_VERSION: u8 = 0;

/// Feature flags of this revision: bit 0 declares session ids, bit 1 declares
/// signing; both are carried by every frame.
pub const MESSAGE_FEATURE_FLAGS: u8 = 3;

/// Number of bytes of the session id.
pub const SESSION_ID_SIZE: usize = 16;

/// Number of bytes of a frame before the payload.
pub const HEADER_SIZE: usize = 32;

/// Maximum number of bytes of one frame read from a stream.
pub const MESSAGE_SIZE_LIMIT: u64 = 0x2_0000_0000;

/// A message received from the network: its metadata and its payload.
#[derive(Debug, Clone)]
pub struct ReceiveMessage {
    pub metadata: Message,
    pub data: Vec<u8>,
}

impl ReceiveMessage {
    pub fn new(
        kind: MessageKind,
        datatype: u8,
        sender: PartyID,
        receiver: PartyID,
        id: u64,
        data: Vec<u8>,
    ) -> (r: ReceiveMessage)
        ensures
            r.metadata == (Message {
                kind,
                datatype,
                sender,
                receiver,
                id,
                size: data@.len() as MessageSize,
            }),
            r.data == data,
    {
        let size = data.len() as MessageSize;
        ReceiveMessage { metadata: Message::new(kind, datatype, sender, receiver, id, size), data }
    }
}

/// A message to be sent out: its metadata and its payload.
#[derive(Debug, Clone)]
pub struct SendMessage {
    pub metadata: Message,
    pub data: Vec<u8>,
}

/// The header bytes of a frame: version, flags, kind, datatype, sender,
/// receiver, id, session.
pub open spec fn header_bytes(m: Message, session: SessionID) -> Seq<u8> {
    seq![
        MESSAGE_FORMAT_VERSION,
        MESSAGE_FEATURE_FLAGS,
        m.kind.spec_code(),
        m.datatype,
    ] + spec_u16_to_le_bytes(m.sender) + spec_u16_to_le_bytes(m.receiver) + spec_u64_to_le_bytes(
        m.id,
    ) + spec_u128_to_le_bytes(session)
}

/// The header is 32 bytes long.
pub proof fn lemma_header_bytes_len(m: Message, session: SessionID)
    ensures
        header_bytes(m, session).len() == HEADER_SIZE,
{
    vstd::bytes::lemma_auto_spec_u16_to_from_le_bytes();
    vstd::bytes::lemma_auto_spec_u64_to_from_le_bytes();
    vstd::bytes::lemma_auto_spec_u128_to_from_le_bytes();
}

/// The bytes covered by a frame's signature: the header, then the SHA-256
/// digest of the payload in place of the payload itself.
pub open spec fn signature_input(m: Message, session: SessionID, payload: Seq<u8>) -> Seq<u8> {
    header_bytes(m, session) + sha256_of(payload)
}

/// The bytes of a whole signed frame written by the signing key held in
/// `document`: header, payload, signature.
pub open spec fn signed_frame_bytes(
    m: Message,
    session: SessionID,
    payload: Seq<u8>,
    document: Seq<u8>,
) -> Seq<u8> {
    header_bytes(m, session) + payload + ed25519_signature_of(
        document,
        signature_input(m, session, payload),
    )
}

/// Build the header bytes of a frame.
pub fn build_header(m: &Message, session: SessionID) -> (r: Vec<u8>)
    ensures
        r@ == header_bytes(*m, session),
{
    let mut out: Vec<u8> = Vec::new();
    out.push(MESSAGE_FORMAT_VERSION);
    out.push(MESSAGE_FEATURE_FLAGS);
    out.push(m.kind.code());
    out.push(m.datatype);
    let mut sender = u16_to_le_bytes(m.sender);
    out.append(&mut sender);
    let mut receiver = u16_to_le_bytes(m.receiver);
    out.append(&mut receiver);
    let mut id = u64_to_le_bytes(m.id);
    out.append(&mut id);
    let mut session_bytes = u128_to_le_bytes(session);
    out.append(&mut session_bytes);
    assert(out@ == header_bytes(*m, session));
    out
}

/// Build the bytes covered by a frame's signature.
pub fn build_signature_input(m: &Message, session: SessionID, payload: &[u8]) -> (r: Vec<u8>)
    ensures
        r@ == signature_input(*m, session, payload@),
{
    let mut out = build_header(m, session);
    let mut digest = hash(payload);
    out.append(&mut digest);
    out
}

/// Encode one signed frame.
///
/// The returned bytes are the header, the payload, and an Ed25519 signature
/// over the header and the payload's digest; the stated `ed25519_verifies`
/// fact lets callers conclude that the receiving side accepts the signature
/// under the matching public key.
pub fn encode_signed_frame(
    m: &Message,
    session: SessionID,
    payload: &Vec<u8>,
    key: &PrivateKey,
) -> (r: Vec<u8>)
    requires
        m.size == payload@.len(),
    ensures
        r@ == signed_frame_bytes(*m, session, payload@, key.spec_document()),
        ed25519_verifies(
            crate::crypto::ed25519_public_of(key.spec_document()),
            signature_input(*m, session, payload@),
            ed25519_signature_of(key.spec_document(), signature_input(*m, session, payload@)),
        ),
{
    let input = build_signature_input(m, session, payload.as_slice());
    let mut signature = key.sign(input.as_slice());
    let mut out = build_header(m, session);
    let mut body: Vec<u8> = slice_to_vec(payload.as_slice());
    out.append(&mut body);
    out.append(&mut signature);
    assert(out@ == signed_frame_bytes(*m, session, payload@, key.spec_document()));
    out
}

/// What decoding an unsigned frame body (header and payload, no signature)
/// yields: the metadata and the payload, or the error the frame is rejected
/// with.
///
/// Each header field is taken in order; a frame that ends inside a field is
/// rejected with the number of bytes that were left.
pub open spec fn spec_decode_frame(bytes: Seq<u8>, session: SessionID) -> Result<
    (Message, Seq<u8>),
    ServerError,
> {
    if bytes.len() < 1 {
        Err(ServerError::ReadExact(ReadExactFault::FinishedEarly(bytes.len() as usize)))
    } else if bytes[0] != MESSAGE_FORMAT_VERSION {
        Err(ServerError::VersionMismatch)
    } else if bytes.len() < 2 {
        Err(ServerError::ReadExact(ReadExactFault::FinishedEarly((bytes.len() - 1) as usize)))
    } else if bytes[1] != MESSAGE_FEATURE_FLAGS {
        Err(ServerError::FeatureMismatch)
    } else if bytes.len() < 3 {
        Err(ServerError::ReadExact(ReadExactFault::FinishedEarly((bytes.len() - 2) as usize)))
    } else if MessageKind::spec_from_code(bytes[2]) is None {
        Err(ServerError::FromPrimitive(FromPrimitiveError::FromU8(bytes[2])))
    } else if bytes.len() < 4 {
        Err(ServerError::ReadExact(ReadExactFault::FinishedEarly((bytes.len() - 3) as usize)))
    } else if bytes.len() < 6 {
        Err(ServerError::ReadExact(ReadExactFault::FinishedEarly((bytes.len() - 4) as usize)))
    } else if bytes.len() < 8 {
        Err(ServerError::ReadExact(ReadExactFault::FinishedEarly((bytes.len() - 6) as usize)))
    } else if bytes.len() < 16 {
        Err(ServerError::ReadExact(ReadExactFault::FinishedEarly((bytes.len() - 8) as usize)))
    } else if bytes.len() < 32 {
        Err(ServerError::ReadExact(ReadExactFault::FinishedEarly((bytes.len() - 16) as usize)))
    } else if vstd::bytes::spec_u128_from_le_bytes(bytes.subrange(16, 32)) != session {
        Err(ServerError::SessionMismatch)
    } else {
        let kind = MessageKind::spec_from_code(bytes[2])->Some_0;
        let datatype = bytes[3];
        let sender = vstd::bytes::spec_u16_from_le_bytes(bytes.subrange(4, 6));
        let receiver = vstd::bytes::spec_u16_from_le_bytes(bytes.subrange(6, 8));
        let id = vstd::bytes::spec_u64_from_le_bytes(bytes.subrange(8, 16));
        let payload = bytes.subrange(32, bytes.len() as int);
        Ok(
            (
                Message {
                    kind,
                    datatype,
                    sender,
                    receiver,
                    id,
                    size: payload.len() as MessageSize,
                },
                payload,
            ),
        )
    }
}

/// Decode an unsigned frame body (header and payload, no signature).
pub fn decode_frame(bytes: &[u8], session: SessionID) -> (r: Result<ReceiveMessage, ServerError>)
    ensures
        match r {
            Ok(msg) => {
                &&& spec_decode_frame(bytes@, session) matches Ok((m, payload))
                &&& msg.metadata == m
                &&& msg.data@ == payload
            },
            Err(e) => spec_decode_frame(bytes@, session) == Err::<(Message, Seq<u8>), _>(e),
        },
{
    if bytes.len() < 1 {
        return Err(ServerError::ReadExact(ReadExactFault::FinishedEarly(bytes.len())));
    }
    let version = *slice_index_get(bytes, 0);
    if version != MESSAGE_FORMAT_VERSION {
        return Err(ServerError::VersionMismatch);
    }
    if bytes.len() < 2 {
        return Err(ServerError::ReadExact(ReadExactFault::FinishedEarly(bytes.len() - 1)));
    }
    let flags = *slice_index_get(bytes, 1);
    if flags != MESSAGE_FEATURE_FLAGS {
        return Err(ServerError::FeatureMismatch);
    }
    if bytes.len() < 3 {
        return Err(ServerError::ReadExact(ReadExactFault::FinishedEarly(bytes.len() - 2)));
    }
    let kind = match MessageKind::try_from_code(*slice_index_get(bytes, 2)) {
        Ok(kind) => kind,
        Err(value) => {
            return Err(ServerError::FromPrimitive(FromPrimitiveError::FromU8(value)));
        },
    };
    if bytes.len() < 4 {
        return Err(ServerError::ReadExact(ReadExactFault::FinishedEarly(bytes.len() - 3)));
    }
    let datatype = *slice_index_get(bytes, 3);
    if bytes.len() < 6 {
        return Err(ServerError::ReadExact(ReadExactFault::FinishedEarly(bytes.len() - 4)));
    }
    let sender = u16_from_le_bytes(slice_subrange(bytes, 4, 6));
    if bytes.len() < 8 {
        return Err(ServerError::ReadExact(ReadExactFault::FinishedEarly(bytes.len() - 6)));
    }
    let receiver = u16_from_le_bytes(slice_subrange(bytes, 6, 8));
    if bytes.len() < 16 {
        return Err(ServerError::ReadExact(ReadExactFault::FinishedEarly(bytes.len() - 8)));
    }
    let id = u64_from_le_bytes(slice_subrange(bytes, 8, 16));
    if bytes.len() < 32 {
        return Err(ServerError::ReadExact(ReadExactFault::FinishedEarly(bytes.len() - 16)));
    }
    let message_session = u128_from_le_bytes(slice_subrange(bytes, 16, 32));
    if message_session != session {
        return Err(ServerError::SessionMismatch);
    }
    let data: Vec<u8> = slice_to_vec(slice_subrange(bytes, 32, bytes.len()));
    Ok(ReceiveMessage::new(kind, datatype, sender, receiver, id, data))
}

/// The party whose key signs a frame: for a consistency-check frame the
/// receiver field carries the attesting party, else the sender signs.
pub open spec fn spec_signer(m: Message) -> PartyID {
    if m.kind.spec_is_consistency_check() {
        m.receiver
    } else {
        m.sender
    }
}

/// What parsing and verifying a whole signed frame yields, over a map from
/// party id to verification-key bytes.
pub open spec fn spec_parse_signed_frame(
    bytes: Seq<u8>,
    session: SessionID,
    keys: Map<PartyID, Seq<u8>>,
) -> Result<(Message, Seq<u8>, Seq<u8>), ServerError> {
    if bytes.len() < 64 {
        Err(ServerError::ReadExact(ReadExactFault::FinishedEarly(bytes.len() as usize)))
    } else {
        let body = bytes.subrange(0, bytes.len() - 64);
        let signature = bytes.subrange(bytes.len() - 64, bytes.len() as int);
        match spec_decode_frame(body, session) {
            Err(e) => Err(e),
            Ok((m, payload)) => {
                let signer = spec_signer(m);
                if !keys.contains_key(signer) {
                    Err(ServerError::Signature(SignatureError::UnknownSender))
                } else if !ed25519_verifies(
                    keys[signer],
                    signature_input(m, session, payload),
                    signature,
                ) {
                    Err(ServerError::Signature(SignatureError::SignatureVerification))
                } else {
                    Ok((m, payload, signature))
                }
            },
        }
    }
}

/// Parse and verify a whole signed frame.
///
/// The frame is decoded, the signer's verification key is looked up (the
/// sender's, or the receiver's for a consistency-check frame), and the
/// signature is verified over the header and the payload's digest. A frame
/// whose signer has no known key fails with `UnknownSender`; a signature the
/// key does not accept fails with `SignatureVerification`.
pub fn parse_signed_frame(
    bytes: &[u8],
    session: SessionID,
    keys: &VerificationKeys,
) -> (r: Result<(ReceiveMessage, Vec<u8>), ServerError>)
    ensures
        match r {
            Ok((msg, sig)) => {
                &&& spec_parse_signed_frame(bytes@, session, keys@) matches Ok((m, payload, s))
                &&& msg.metadata == m
                &&& msg.data@ == payload
                &&& sig@ == s
            },
            Err(e) => spec_parse_signed_frame(bytes@, session, keys@) == Err::<
                (Message, Seq<u8>, Seq<u8>),
                ServerError,
            >(e),
        },
{
    if bytes.len() < 64 {
        return Err(ServerError::ReadExact(ReadExactFault::FinishedEarly(bytes.len())));
    }
    let body = slice_subrange(bytes, 0, bytes.len() - 64);
    let signature = slice_subrange(bytes, bytes.len() - 64, bytes.len());
    let message = match decode_frame(body, session) {
        Ok(message) => message,
        Err(e) => {
            return Err(e);
        },
    };
    let input = build_signature_input(&message.metadata, session, message.data.as_slice());
    let signer = if message.metadata.kind.is_consistency_check() {
        message.metadata.receiver
    } else {
        message.metadata.sender
    };
    let key = match keys.get(signer) {
        Some(key) => key,
        None => {
            return Err(ServerError::Signature(SignatureError::UnknownSender));
        },
    };
    if !key.verify(input.as_slice(), signature) {
        return Err(ServerError::Signature(SignatureError::SignatureVerification));
    }
    Ok((message, slice_to_vec(signature)))
}

/// Decoding inverts encoding: a frame body built from metadata and payload
/// decodes to that metadata and payload.
pub proof fn lemma_decode_encode(m: Message, session: SessionID, payload: Seq<u8>)
    requires
        m.size == payload.len(),
    ensures
        spec_decode_frame(header_bytes(m, session) + payload, session) == Ok::<
            (Message, Seq<u8>),
            ServerError,
        >((m, payload)),
{
    vstd::bytes::lemma_auto_spec_u16_to_from_le_bytes();
    vstd::bytes::lemma_auto_spec_u64_to_from_le_bytes();
    vstd::bytes::lemma_auto_spec_u128_to_from_le_bytes();
    let bytes = header_bytes(m, session) + payload;
    lemma_header_bytes_len(m, session);
    assert(bytes.subrange(4, 6) =~= spec_u16_to_le_bytes(m.sender));
    assert(bytes.subrange(6, 8) =~= spec_u16_to_le_bytes(m.receiver));
    assert(bytes.subrange(8, 16) =~= spec_u64_to_le_bytes(m.id));
    assert(bytes.subrange(16, 32) =~= spec_u128_to_le_bytes(session));
    assert(bytes.subrange(32, bytes.len() as int) =~= payload);
    assert(MessageKind::spec_from_code(m.kind.spec_code()) == Some(m.kind));
}

/// A whole signed frame parses back to its metadata, payload and signature,
/// provided the signer's key in the store is the one matching the signing
/// key, and the signature the signing key produced verifies under it (which
/// [`encode_signed_frame`] ensures of every frame it builds).
pub proof fn lemma_signed_frame_parses(
    m: Message,
    session: SessionID,
    payload: Seq<u8>,
    document: Seq<u8>,
    keys: Map<PartyID, Seq<u8>>,
)
    requires
        m.size == payload.len(),
        keys.contains_key(spec_signer(m)),
        keys[spec_signer(m)] == ed25519_public_of(document),
        ed25519_signature_of(document, signature_input(m, session, payload)).len() == 64,
        ed25519_verifies(
            ed25519_public_of(document),
            signature_input(m, session, payload),
            ed25519_signature_of(document, signature_input(m, session, payload)),
        ),
    ensures
        spec_parse_signed_frame(signed_frame_bytes(m, session, payload, document), session, keys)
            == Ok::<(Message, Seq<u8>, Seq<u8>), ServerError>(
            (m, payload, ed25519_signature_of(document, signature_input(m, session, payload))),
        ),
{
    let signature = ed25519_signature_of(document, signature_input(m, session, payload));
    let bytes = signed_frame_bytes(m, session, payload, document);
    lemma_header_bytes_len(m, session);
    assert(bytes.subrange(0, bytes.len() - 64) =~= header_bytes(m, session) + payload);
    assert(bytes.subrange(bytes.len() - 64, bytes.len() as int) =~= signature);
    lemma_decode_encode(m, session, payload);
}

/// The bytes covered by a signature determine the frame's metadata, the
/// session, and the payload's digest: no two frames differing in any header
/// field or in the payload's digest share them.
pub proof fn lemma_signature_input_injective(
    m1: Message,
    s1: SessionID,
    p1: Seq<u8>,
    m2: Message,
    s2: SessionID,
    p2: Seq<u8>,
)
    requires
        signature_input(m1, s1, p1) == signature_input(m2, s2, p2),
    ensures
        m1.kind == m2.kind,
        m1.datatype == m2.datatype,
        m1.sender == m2.sender,
        m1.receiver == m2.receiver,
        m1.id == m2.id,
        s1 == s2,
        sha256_of(p1) == sha256_of(p2),
{
    vstd::bytes::lemma_auto_spec_u16_to_from_le_bytes();
    vstd::bytes::lemma_auto_spec_u64_to_from_le_bytes();
    vstd::bytes::lemma_auto_spec_u128_to_from_le_bytes();
    lemma_header_bytes_len(m1, s1);
    lemma_header_bytes_len(m2, s2);
    let b1 = signature_input(m1, s1, p1);
    let b2 = signature_input(m2, s2, p2);
    assert(header_bytes(m1, s1) =~= b1.subrange(0, 32));
    assert(header_bytes(m2, s2) =~= b2.subrange(0, 32));
    assert(header_bytes(m1, s1) == header_bytes(m2, s2));
    let h1 = header_bytes(m1, s1);
    let h2 = header_bytes(m2, s2);
    assert(m1.kind.spec_code() == h1[2] && m2.kind.spec_code() == h2[2]);
    assert(MessageKind::spec_from_code(m1.kind.spec_code()) == Some(m1.kind));
    assert(MessageKind::spec_from_code(m2.kind.spec_code()) == Some(m2.kind));
    assert(m1.kind == m2.kind);
    assert(m1.datatype == h1[3] && m2.datatype == h2[3]);
    assert(spec_u16_to_le_bytes(m1.sender) =~= h1.subrange(4, 6));
    assert(spec_u16_to_le_bytes(m2.sender) =~= h2.subrange(4, 6));
    assert(spec_u16_to_le_bytes(m1.receiver) =~= h1.subrange(6, 8));
    assert(spec_u16_to_le_bytes(m2.receiver) =~= h2.subrange(6, 8));
    assert(spec_u64_to_le_bytes(m1.id) =~= h1.subrange(8, 16));
    assert(spec_u64_to_le_bytes(m2.id) =~= h2.subrange(8, 16));
    assert(spec_u128_to_le_bytes(s1) =~= h1.subrange(16, 32));
    assert(spec_u128_to_le_bytes(s2) =~= h2.subrange(16, 32));
    assert(sha256_of(p1) =~= b1.subrange(32, b1.len() as int));
    assert(sha256_of(p2) =~= b2.subrange(32, b2.len() as int));
}

/// A payload reaches a caller only from a frame whose signer has a known
/// verification key and whose signature that key accepts: a peer with no key
/// in the store can never cause a delivery, its frames fail with
/// `UnknownSender`.
pub proof fn lemma_delivery_needs_known_signer(
    bytes: Seq<u8>,
    session: SessionID,
    keys: Map<PartyID, Seq<u8>>,
    m: Message,
    payload: Seq<u8>,
    signature: Seq<u8>,
)
    requires
        spec_parse_signed_frame(bytes, session, keys) == Ok::<
            (Message, Seq<u8>, Seq<u8>),
            ServerError,
        >((m, payload, signature)),
    ensures
        keys.contains_key(spec_signer(m)),
        ed25519_verifies(keys[spec_signer(m)], signature_input(m, session, payload), signature),
{
}


/// Compare two byte vectors.
pub(crate) fn bytes_eq(a: &Vec<u8>, b: &Vec<u8>) -> (r: bool)
    ensures
        r == (a@ == b@),
{
    if a.len() != b.len() {
        assert(a@ != b@);
        return false;
    }
    let mut i: usize = 0;
    while i < a.len()
        invariant
            i <= a@.len(),
            a@.len() == b@.len(),
            forall|k: int| 0 <= k < i ==> a@[k] == b@[k],
        decreases a@.len() - i,
    {
        if a[i] != b[i] {
            return false;
        }
        i = i + 1;
    }
    assert(a@ =~= b@);
    true
}

} // verus!

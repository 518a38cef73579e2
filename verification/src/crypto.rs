//! Hashing and signing, as a trusted boundary to the `ring` crate.
//!
//! The digests and signatures themselves are named, not restated: `sha256_of`,
//! `ed25519_signature_of`, `ed25519_public_of` and `ed25519_verifies` stand
//! for what the primitives compute, and every contract of this library speaks
//! of those names.

use vstd::prelude::*;

use crate::PartyID;

verus! {

/// Number of bytes of a SHA-256 digest.
pub const HASH_SIZE: usize = 32;

/// Number of bytes of an Ed25519 signature.
pub const SIGNATURE_SIZE: usize = 64;

/// The SHA-256 digest of a byte sequence.
pub uninterp spec fn sha256_of(data: Seq<u8>) -> Seq<u8>;

/// The Ed25519 signature over a message by the signing key held in a PKCS#8
/// v2 document. Ed25519 signing is deterministic (RFC 8032), so the signature
/// is a function of the document and the message alone.
pub uninterp spec fn ed25519_signature_of(document: Seq<u8>, message: Seq<u8>) -> Seq<u8>;

/// The public key carried by an Ed25519 PKCS#8 v2 document.
pub uninterp spec fn ed25519_public_of(document: Seq<u8>) -> Seq<u8>;

/// Whether an Ed25519 public key accepts a signature over a message.
pub uninterp spec fn ed25519_verifies(
    public_key: Seq<u8>,
    message: Seq<u8>,
    signature: Seq<u8>,
) -> bool;

/// Hash a sequence of bytes.
///
/// Relies on `ring::digest::digest` with SHA-256: the digest is a function of
/// the input bytes alone and is `SHA256_OUTPUT_LEN` (32) bytes long.
#[verifier::external_body]
pub fn hash(data: &[u8]) -> (r: Vec<u8>)
    ensures
        r@ == sha256_of(data@),
        r@.len() == 32,
{
    ring::digest::digest(&ring::digest::SHA256, data).as_ref().to_vec()
}

/// A signing key was rejected when parsing its document.
#[derive(PartialEq, Eq, Structural, Debug, Clone, Copy)]
pub struct KeyRejected;

#[verifier::external_type_specification]
#[verifier::external_body]
pub struct ExEd25519KeyPair(ring::signature::Ed25519KeyPair);

/// A private Ed25519 signing key, together with the document it was parsed
/// from, which identifies the key in contracts.
pub struct PrivateKey {
    key: ring::signature::Ed25519KeyPair,
    document: Vec<u8>,
}

impl PrivateKey {
    /// The PKCS#8 v2 document this key was parsed from.
    pub closed spec fn spec_document(&self) -> Seq<u8> {
        self.document@
    }

    /// Parse a signing key from an unencrypted PKCS#8 v2 document.
    ///
    /// Relies on `ring::signature::Ed25519KeyPair::from_pkcs8`: whether the
    /// document parses, and the key it yields, depend on the bytes alone.
    #[verifier::external_body]
    pub fn new(bytes: &[u8]) -> (r: Result<PrivateKey, KeyRejected>)
        ensures
            r is Ok ==> r->Ok_0.spec_document() == bytes@,
    {
        match ring::signature::Ed25519KeyPair::from_pkcs8(bytes) {
            Ok(key) => Ok(PrivateKey { key, document: bytes.to_vec() }),
            Err(_) => Err(KeyRejected),
        }
    }

    /// Sign a sequence of bytes.
    ///
    /// Relies on `ring::signature::Ed25519KeyPair::sign`: Ed25519 signing is
    /// deterministic (RFC 8032), the signature is 64 bytes long, and a
    /// signature so produced verifies under the key pair's public key.
    #[verifier::external_body]
    pub fn sign(&self, message: &[u8]) -> (r: Vec<u8>)
        ensures
            r@ == ed25519_signature_of(self.spec_document(), message@),
            r@.len() == 64,
            ed25519_verifies(ed25519_public_of(self.spec_document()), message@, r@),
    {
        self.key.sign(message).as_ref().to_vec()
    }

    /// The bytes of the key pair's public key.
    ///
    /// Relies on `ring::signature::KeyPair::public_key`: the public key is a
    /// function of the parsed document, and for Ed25519 it is 32 bytes long.
    #[verifier::external_body]
    fn public_key(&self) -> (r: Vec<u8>)
        ensures
            r@ == ed25519_public_of(self.spec_document()),
            r@.len() == 32,
    {
        ring::signature::KeyPair::public_key(&self.key).as_ref().to_vec()
    }

    /// The verification key matching this signing key.
    pub fn verification_key(&self) -> (r: PublicKey)
        ensures
            r@ == ed25519_public_of(self.spec_document()),
    {
        PublicKey::new(self.public_key())
    }
}

/// A public Ed25519 signature-verification key.
#[derive(Debug, Clone)]
pub struct PublicKey {
    bytes: Vec<u8>,
}

impl View for PublicKey {
    type V = Seq<u8>;

    closed spec fn view(&self) -> Seq<u8> {
        self.bytes@
    }
}

impl PublicKey {
    /// Wrap the raw bytes of a public key.
    pub fn new(bytes: Vec<u8>) -> (r: PublicKey)
        ensures
            r@ == bytes@,
    {
        PublicKey { bytes }
    }

    /// Verify a signature over a message.
    ///
    /// Relies on `ring::signature::UnparsedPublicKey::verify` with the
    /// Ed25519 algorithm (`UnparsedPublicKey::new` only pairs the bytes with
    /// the algorithm): whether verification succeeds depends on the key, the
    /// message and the signature alone.
    #[verifier::external_body]
    pub fn verify(&self, message: &[u8], signature: &[u8]) -> (r: bool)
        ensures
            r == ed25519_verifies(self@, message@, signature@),
    {
        ring::signature::UnparsedPublicKey::new(&ring::signature::ED25519, &self.bytes)
            .verify(message, signature)
            .is_ok()
    }
}

/// The map built from a list of keyed entries, where a later entry for the
/// same party replaces an earlier one.
pub open spec fn entries_map(entries: Seq<(PartyID, PublicKey)>) -> Map<PartyID, Seq<u8>>
    decreases entries.len(),
{
    if entries.len() == 0 {
        Map::<PartyID, Seq<u8>>::empty()
    } else {
        entries_map(entries.drop_last()).insert(entries.last().0, entries.last().1@)
    }
}

/// The verification keys of a roster: a map from party id to the bytes of the
/// party's public key.
#[derive(Debug, Clone)]
pub struct VerificationKeys {
    entries: Vec<(PartyID, PublicKey)>,
}

impl View for VerificationKeys {
    type V = Map<PartyID, Seq<u8>>;

    closed spec fn view(&self) -> Map<PartyID, Seq<u8>> {
        entries_map(self.entries@)
    }
}

proof fn lemma_entries_map_last_match(entries: Seq<(PartyID, PublicKey)>, id: PartyID, j: int)
    requires
        0 <= j < entries.len(),
        entries[j].0 == id,
        forall|k: int| j < k < entries.len() ==> (#[trigger] entries[k]).0 != id,
    ensures
        entries_map(entries).contains_key(id),
        entries_map(entries)[id] == entries[j].1@,
    decreases entries.len(),
{
    if j + 1 < entries.len() {
        assert(entries.drop_last()[j] == entries[j]);
        lemma_entries_map_last_match(entries.drop_last(), id, j);
    }
}

proof fn lemma_entries_map_no_match(entries: Seq<(PartyID, PublicKey)>, id: PartyID)
    requires
        forall|k: int| 0 <= k < entries.len() ==> (#[trigger] entries[k]).0 != id,
    ensures
        !entries_map(entries).contains_key(id),
    decreases entries.len(),
{
    if entries.len() > 0 {
        lemma_entries_map_no_match(entries.drop_last(), id);
    }
}

impl VerificationKeys {
    /// An empty key store.
    pub fn new() -> (r: VerificationKeys)
        ensures
            r@ == Map::<PartyID, Seq<u8>>::empty(),
    {
        VerificationKeys { entries: Vec::new() }
    }

    /// Add or replace the key of one party.
    pub fn insert(&mut self, id: PartyID, key: PublicKey)
        ensures
            final(self)@ == old(self)@.insert(id, key@),
    {
        let ghost pre = self.entries@;
        self.entries.push((id, key));
        assert(self.entries@.drop_last() == pre);
    }

    /// Look up the key of one party.
    pub fn get(&self, id: PartyID) -> (r: Option<&PublicKey>)
        ensures
            match r {
                Some(key) => self@.contains_key(id) && key@ == self@[id],
                None => !self@.contains_key(id),
            },
    {
        let mut i: usize = self.entries.len();
        while i > 0
            invariant
                i <= self.entries@.len(),
                forall|k: int| i <= k < self.entries@.len() ==> (#[trigger] self.entries@[k]).0
                    != id,
            decreases i,
    {
            i = i - 1;
            if self.entries[i].0 == id {
                proof {
                    lemma_entries_map_last_match(self.entries@, id, i as int);
                }
                return Some(&self.entries[i].1);
            }
        }
        proof {
            lemma_entries_map_no_match(self.entries@, id);
        }
        None
    }
}

} // verus!

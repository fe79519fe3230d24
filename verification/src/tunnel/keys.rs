//! `WireGuard` key material for the egress tunnel.
//!
//! A session has two keypairs, one for the host and one for the guest. The guest
//! is given its own private key and the host's public key. Keys are ephemeral and
//! discarded at session teardown.
use vstd::prelude::*;

verus! {

/// The X25519 public key of a 32-byte private key: what the crates
/// `boringtun` and `x25519-dalek` derive from it.
pub uninterp spec fn x25519_public(secret: Seq<u8>) -> Seq<u8>;

/// The padded base64 text of some bytes, in the standard alphabet: what
/// `base64::engine::general_purpose::STANDARD` encodes them to.
pub uninterp spec fn base64_text(bytes: Seq<u8>) -> Seq<char>;

/// Calls `boringtun::x25519::PublicKey::from` on the static secret of these
/// bytes. The public key depends on the secret's bytes alone, and has 32 bytes
/// by its type.
#[verifier::external_body]
fn derive_public(secret: &[u8; 32]) -> (r: [u8; 32])
    ensures
        r@ == x25519_public(secret@),
{
    let secret = boringtun::x25519::StaticSecret::from(*secret);
    boringtun::x25519::PublicKey::from(&secret).to_bytes()
}

/// Calls `base64::Engine::encode` of the `STANDARD` engine. The text depends on
/// the bytes alone; every three bytes, or what is left of them at the end, take
/// four characters; and no two byte strings have the same text.
#[verifier::external_body]
fn encode_base64(bytes: &[u8]) -> (r: String)
    requires
        bytes@.len() < 0x1000_0000,
    ensures
        r@ == base64_text(bytes@),
        r@.len() == (bytes@.len() + 2) / 3 * 4,
        forall|other: Seq<u8>| #[trigger] base64_text(other) == r@ ==> other == bytes@,
{
    base64::Engine::encode(&base64::engine::general_purpose::STANDARD, bytes)
}

/// Calls `getrandom::fill` on 32 bytes: random bytes of the operating system, or
/// nothing where it has no random source. Nothing is known of the bytes.
#[verifier::external_body]
fn random_bytes() -> (r: Option<[u8; 32]>) {
    let mut bytes = [0u8; 32];
    getrandom::fill(&mut bytes).ok().map(|_filled| bytes)
}

/// A `WireGuard` `Curve25519` keypair. The public key is always the one of the
/// secret.
pub struct WgKeypair {
    secret: [u8; 32],
    public: [u8; 32],
}

impl WgKeypair {
    /// The bytes of the private key.
    pub closed spec fn secret_key(self) -> Seq<u8> {
        self.secret@
    }

    /// The bytes of the public key.
    pub open spec fn public_key(self) -> Seq<u8> {
        x25519_public(self.secret_key())
    }

    #[verifier::type_invariant]
    spec fn keys_match(self) -> bool {
        self.public@ == x25519_public(self.secret@)
    }

    /// Generates a fresh random keypair from the operating system's random
    /// source; there is none where that source fails.
    #[must_use]
    pub fn generate() -> (r: Option<WgKeypair>)
        ensures
            r matches Some(pair) ==> pair.secret_key().len() == 32,
    {
        match random_bytes() {
            Some(bytes) => Some(WgKeypair::from_secret_bytes(bytes)),
            None => None,
        }
    }

    /// Constructs a keypair from raw 32-byte private-key material, deriving the
    /// public key.
    #[must_use]
    pub fn from_secret_bytes(bytes: [u8; 32]) -> (r: WgKeypair)
        ensures
            r.secret_key() == bytes@,
    {
        let public = derive_public(&bytes);
        WgKeypair { secret: bytes, public }
    }

    /// The private key (for the local side of a tunnel).
    #[must_use]
    pub fn secret(&self) -> (r: &[u8; 32])
        ensures
            r@ == self.secret_key(),
    {
        &self.secret
    }

    /// The public key (for the peer side of a tunnel).
    #[must_use]
    pub fn public(&self) -> (r: &[u8; 32])
        ensures
            r@ == self.public_key(),
    {
        proof {
            use_type_invariant(&*self);
        }
        &self.public
    }

    /// The private key in base64, as `WireGuard` configuration writes it.
    #[must_use]
    pub fn private_base64(&self) -> (r: String)
        ensures
            r@ == base64_text(self.secret_key()),
            r@.len() == 44,
            forall|other: Seq<u8>| #[trigger]
                base64_text(other) == r@ ==> other == self.secret_key(),
    {
        encode_base64(self.secret.as_slice())
    }

    /// The public key in base64, as `WireGuard` configuration writes it.
    #[must_use]
    pub fn public_base64(&self) -> (r: String)
        ensures
            r@ == base64_text(self.public_key()),
            r@.len() == 44,
            forall|other: Seq<u8>| #[trigger]
                base64_text(other) == r@ ==> other == self.public_key(),
    {
        proof {
            use_type_invariant(&*self);
        }
        encode_base64(self.public.as_slice())
    }
}

} // verus!

//! Trusted boundary to the cryptographic primitives the module consumes:
//! SHA-256 hashing, Schnorr public-key parsing, and the federation's
//! threshold-encryption scheme.
//!
//! Every key, share and ciphertext crosses this boundary as a plain byte
//! string — its bincode serialization — so that all logic above it works
//! on values Verus can reason about; each wrapper deserializes its
//! arguments before making the one call it stands for.

use vstd::prelude::*;

verus! {

/// The SHA-256 digest of a byte string.
pub uninterp spec fn sha256_of(data: Seq<u8>) -> Seq<u8>;

/// Whether a byte string is the serialization of a valid Schnorr
/// (x-only) public key.
pub uninterp spec fn schnorr_key_valid(data: Seq<u8>) -> bool;

/// Whether a byte string deserializes to a well-formed threshold
/// ciphertext under the federation's scheme.
pub uninterp spec fn ciphertext_valid(ct: Seq<u8>) -> bool;

/// The decryption share a secret-key share yields for a ciphertext, or
/// `None` when the key bytes or the ciphertext are malformed.
pub uninterp spec fn decryption_share_of(sk: Seq<u8>, ct: Seq<u8>) -> Option<Seq<u8>>;

/// Whether a decryption share is valid for the given peer's public-key
/// share (drawn from the serialized public-key set) and ciphertext.
pub uninterp spec fn share_valid(pks: Seq<u8>, peer: u64, share: Seq<u8>, ct: Seq<u8>) -> bool;

/// The plaintext obtained by combining the given `(peer, share)` pairs
/// against a ciphertext, or `None` when combining fails.
pub uninterp spec fn combine_of(pks: Seq<u8>, shares: Seq<(u64, Seq<u8>)>, ct: Seq<u8>) -> Option<
    Seq<u8>,
>;

/// Relies on `bitcoin_hashes::sha256::Hash::hash`: the digest is a pure
/// function of the input bytes and is always 32 bytes long.
#[verifier::external_body]
pub fn sha256(data: &Vec<u8>) -> (r: Vec<u8>)
    ensures
        r@ == sha256_of(data@),
        r@.len() == 32,
{
    bitcoin_hashes::sha256::Hash::hash(&data[..]).to_byte_array().to_vec()
}

/// Relies on `secp256k1::XOnlyPublicKey::from_slice`: parsing succeeds
/// exactly when the bytes are a valid 32-byte x-only public key.
#[verifier::external_body]
pub fn parse_schnorr_key(data: &Vec<u8>) -> (r: bool)
    ensures
        r == schnorr_key_valid(data@),
{
    #[allow(deprecated)]
    secp256k1::XOnlyPublicKey::from_slice(&data[..]).is_ok()
}

/// Relies on `threshold_crypto::Ciphertext::verify`: well-formedness is a
/// pure function of the ciphertext bytes.
#[verifier::external_body]
pub fn verify_ciphertext(ct: &Vec<u8>) -> (r: bool)
    ensures
        r == ciphertext_valid(ct@),
{
    match bincode::deserialize::<threshold_crypto::Ciphertext>(&ct[..]) {
        Ok(c) => c.verify(),
        Err(_) => false,
    }
}

/// Relies on `threshold_crypto::SecretKeyShare::decrypt_share`: the share
/// is a pure function of the secret-key-share bytes and the ciphertext
/// bytes, and exists only when the ciphertext verifies.
#[verifier::external_body]
pub fn decrypt_share(sk: &Vec<u8>, ct: &Vec<u8>) -> (r: Option<Vec<u8>>)
    ensures
        r.deep_view() == decryption_share_of(sk@, ct@),
{
    let key: threshold_crypto::SecretKeyShare =
        match bincode::deserialize::<
            threshold_crypto::serde_impl::SerdeSecret<threshold_crypto::SecretKeyShare>,
        >(&sk[..]) {
            Ok(k) => k.into_inner(),
            Err(_) => return None,
        };
    let ciphertext: threshold_crypto::Ciphertext = bincode::deserialize(&ct[..]).ok()?;
    let share = key.decrypt_share(&ciphertext)?;
    bincode::serialize(&share).ok()
}

/// Relies on `threshold_crypto::PublicKeyShare::verify_decryption_share`:
/// validity is a pure function of the public-key-set bytes, the peer
/// index, the share bytes and the ciphertext bytes.
#[verifier::external_body]
pub fn verify_decryption_share(pks: &Vec<u8>, peer: u64, share: &Vec<u8>, ct: &Vec<u8>) -> (r:
    bool)
    ensures
        r == share_valid(pks@, peer, share@, ct@),
{
    let key_set: threshold_crypto::PublicKeySet = match bincode::deserialize(&pks[..]) {
        Ok(k) => k,
        Err(_) => return false,
    };
    let parsed_share: threshold_crypto::DecryptionShare = match bincode::deserialize(&share[..]) {
        Ok(s) => s,
        Err(_) => return false,
    };
    let ciphertext: threshold_crypto::Ciphertext = match bincode::deserialize(&ct[..]) {
        Ok(c) => c,
        Err(_) => return false,
    };
    key_set.public_key_share(peer as usize).verify_decryption_share(&parsed_share, &ciphertext)
}

/// The view of a list of `(peer, share)` pairs as a mathematical sequence.
pub open spec fn shares_view(shares: Seq<(u64, Vec<u8>)>) -> Seq<(u64, Seq<u8>)> {
    shares.map_values(|p: (u64, Vec<u8>)| (p.0, p.1@))
}

/// Relies on `threshold_crypto::PublicKeySet::decrypt`: the combined
/// plaintext is a pure function of the public-key-set bytes, the ordered
/// `(peer, share)` pairs and the ciphertext bytes. Key-set bytes that
/// decode to a commitment with no coefficients are treated as a failed
/// combine: `decrypt` has no degree to interpolate at and would not
/// return for them.
#[verifier::external_body]
pub fn combine_shares(pks: &Vec<u8>, shares: &Vec<(u64, Vec<u8>)>, ct: &Vec<u8>) -> (r: Option<
    Vec<u8>,
>)
    ensures
        r.deep_view() == combine_of(pks@, shares_view(shares@), ct@),
{
    let key_set: threshold_crypto::PublicKeySet = bincode::deserialize(&pks[..]).ok()?;
    let no_keys = threshold_crypto::PublicKeySet::from(
        threshold_crypto::poly::Poly::zero().commitment(),
    );
    if key_set == no_keys {
        return None;
    }
    let ciphertext: threshold_crypto::Ciphertext = bincode::deserialize(&ct[..]).ok()?;
    let mut parsed: Vec<(usize, threshold_crypto::DecryptionShare)> = Vec::new();
    for (peer, share) in shares.iter() {
        parsed.push((*peer as usize, bincode::deserialize(&share[..]).ok()?));
    }
    key_set.decrypt(parsed.iter().map(|(peer, share)| (*peer, share)), &ciphertext).ok()
}

} // verus!

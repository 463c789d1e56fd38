//! Ed25519 key pairs: generation, recovery from a secret key, and the
//! hex form used by keystores.

use crate::crypto::hash::sha256_of;
use crate::crypto::signatures::{ed25519_derive_public_key, ed25519_pubkey_of};
use crate::types::{Address, ConsensusError, PrivateKey, PublicKey};
use vstd::prelude::*;

verus! {

/// The hex digits, lowest value first.
pub open spec fn spec_hex_chars() -> Seq<char> {
    seq!['0', '1', '2', '3', '4', '5', '6', '7', '8', '9', 'a', 'b', 'c', 'd', 'e', 'f']
}

/// The lowercase hex encoding of a byte sequence, high nibble first.
pub open spec fn spec_hex_encode(data: Seq<u8>) -> Seq<char>
    decreases data.len(),
{
    if data.len() == 0 {
        Seq::empty()
    } else {
        seq![
            spec_hex_chars()[(data.first() / 16) as int],
            spec_hex_chars()[(data.first() % 16) as int],
        ] + spec_hex_encode(data.drop_first())
    }
}

/// The value of one hex digit, in either case; None for any other character.
pub open spec fn spec_hex_val(c: char) -> Option<u8> {
    let v = c as u32;
    if 48 <= v <= 57 {
        Some((v - 48) as u8)
    } else if 97 <= v <= 102 {
        Some((v - 87) as u8)
    } else if 65 <= v <= 70 {
        Some((v - 55) as u8)
    } else {
        None
    }
}

/// Whether a string is a well-formed hex encoding: even length, digits only.
pub open spec fn spec_is_hex(s: Seq<char>) -> bool {
    s.len() % 2 == 0 && forall|i: int| 0 <= i < s.len() ==> #[trigger] spec_hex_val(s[i]) is Some
}

/// The bytes encoded by a well-formed hex string, high nibble first.
pub open spec fn spec_hex_decode(s: Seq<char>) -> Seq<u8>
    decreases s.len(),
{
    if s.len() < 2 {
        Seq::empty()
    } else {
        seq![(spec_hex_val(s[0])->0 * 16 + spec_hex_val(s[1])->0) as u8] + spec_hex_decode(
            s.skip(2),
        )
    }
}

/// Every hex digit decodes to its own value.
proof fn lemma_hex_digit_value(n: u8)
    requires
        n < 16,
    ensures
        spec_hex_val(spec_hex_chars()[n as int]) == Some(n),
{
    if n < 10 {
        assert(spec_hex_chars()[n as int] as u32 == 48 + n);
    } else {
        assert(spec_hex_chars()[n as int] as u32 == 87 + n);
    }
}

/// The keystore round trip: encoding bytes as hex gives a well-formed hex
/// string, and decoding it gives the bytes back.
pub proof fn lemma_hex_roundtrip(data: Seq<u8>)
    ensures
        spec_is_hex(spec_hex_encode(data)),
        spec_hex_decode(spec_hex_encode(data)) == data,
    decreases data.len(),
{
    let s = spec_hex_encode(data);
    if data.len() == 0 {
        assert(spec_hex_decode(s) =~= data);
    } else {
        lemma_hex_roundtrip(data.drop_first());
        let rest = spec_hex_encode(data.drop_first());
        let hi = (data.first() / 16) as u8;
        let lo = (data.first() % 16) as u8;
        lemma_hex_digit_value(hi);
        lemma_hex_digit_value(lo);
        assert(s.len() == 2 + rest.len());
        assert(s[0] == spec_hex_chars()[hi as int]);
        assert(s[1] == spec_hex_chars()[lo as int]);
        assert(s.skip(2) =~= rest);
        // well-formed: the leading digits are digits, the rest by induction
        assert forall|i: int| 0 <= i < s.len() implies #[trigger] spec_hex_val(s[i]) is Some by {
            if i >= 2 {
                assert(s[i] == rest[i - 2]);
                assert(spec_hex_val(rest[i - 2]) is Some);
            }
        }
        // the decoded head is the first byte, the tail by induction
        assert(hi * 16 + lo == data.first());
        assert(spec_hex_decode(s) =~= data);
    }
}

/// Relies on hex::encode: two lowercase digits per byte, high nibble first.
#[verifier::external_body]
pub(crate) fn hex_encode_bytes(data: &[u8]) -> (r: String)
    ensures
        r@ == spec_hex_encode(data@),
{
    hex::encode(data)
}

/// Relies on hex::decode: it accepts exactly the even-length strings of hex
/// digits in either case, and returns their bytes, high nibble first.
#[verifier::external_body]
pub(crate) fn hex_decode_str(s: &str) -> (r: Result<Vec<u8>, ConsensusError>)
    ensures
        r is Ok <==> spec_is_hex(s@),
        r is Ok ==> r->Ok_0@ == spec_hex_decode(s@),
        r is Err ==> r->Err_0 == ConsensusError::StructuralInvalid,
{
    match hex::decode(s) {
        Ok(v) => Ok(v),
        Err(_) => Err(ConsensusError::StructuralInvalid),
    }
}

/// Relies on rand::rngs::OsRng (RngCore::fill_bytes): 32 bytes from the
/// operating system's randomness; any value may come back.
#[verifier::external_body]
pub(crate) fn random_bytes_32() -> (r: [u8; 32]) {
    let mut bytes = [0u8; 32];
    rand::RngCore::fill_bytes(&mut rand::rngs::OsRng, &mut bytes);
    bytes
}

/// An Ed25519 key pair with the address derived from its public key.
#[derive(Debug, Clone)]
pub struct KeyPair {
    pub private_key: PrivateKey,
    pub public_key: PublicKey,
    pub address: Address,
}

impl KeyPair {
    /// The public key belongs to the secret key, and the address is the
    /// SHA-256 of the public key.
    pub open spec fn wf(&self) -> bool {
        self.public_key@ == ed25519_pubkey_of(self.private_key@) && self.address.0@ == sha256_of(
            self.public_key@,
        )
    }

    /// A key pair over a fresh random secret key.
    pub fn generate() -> (r: Self)
        ensures
            r.wf(),
    {
        let private_key = random_bytes_32();
        Self::of_private_key(private_key)
    }

    /// The key pair of a secret key.
    fn of_private_key(private_key: PrivateKey) -> (r: Self)
        ensures
            r.wf(),
            r.private_key == private_key,
    {
        let public_key = ed25519_derive_public_key(&private_key);
        let address = Address::from_public_key(&public_key);
        KeyPair { private_key, public_key, address }
    }

    /// The key pair of a secret key; every 32-byte value is one.
    pub fn from_private_key(private_key: PrivateKey) -> (r: Result<Self, ConsensusError>)
        ensures
            r is Ok,
            r->Ok_0.wf(),
            r->Ok_0.private_key == private_key,
    {
        Ok(Self::of_private_key(private_key))
    }

    /// The key pair of a hex-encoded secret key; fails exactly when the
    /// string is not well-formed hex for 32 bytes.
    pub fn from_hex(hex_private_key: &str) -> (r: Result<Self, ConsensusError>)
        ensures
            r is Ok <==> spec_is_hex(hex_private_key@) && spec_hex_decode(hex_private_key@).len()
                == 32,
            r is Ok ==> r->Ok_0.wf() && r->Ok_0.private_key@ == spec_hex_decode(hex_private_key@),
            r is Err ==> r->Err_0 == ConsensusError::StructuralInvalid,
    {
        let bytes = match hex_decode_str(hex_private_key) {
            Ok(v) => v,
            Err(e) => {
                return Err(e);
            },
        };
        if bytes.len() != 32 {
            return Err(ConsensusError::StructuralInvalid);
        }
        let mut private_key = [0u8; 32];
        let mut i: usize = 0;
        while i < 32
            invariant
                i <= 32,
                bytes@.len() == 32,
                private_key@.len() == 32,
                forall|j: int| 0 <= j < i ==> private_key@[j] == bytes@[j],
            decreases 32 - i,
        {
            private_key[i] = bytes[i];
            i += 1;
        }
        proof {
            assert(private_key@ =~= bytes@);
        }
        Ok(Self::of_private_key(private_key))
    }

    /// The hex form of the secret key.
    pub fn to_hex(&self) -> (r: String)
        ensures
            r@ == spec_hex_encode(self.private_key@),
    {
        hex_encode_bytes(self.private_key.as_slice())
    }
}

/// The public face of a key pair: its address and public key.
#[derive(Debug, Clone)]
pub struct WalletInfo {
    pub address: Address,
    pub public_key: PublicKey,
}

impl<'a> From<&'a KeyPair> for WalletInfo {
    fn from(keypair: &'a KeyPair) -> (r: Self) {
        WalletInfo { address: keypair.address, public_key: keypair.public_key }
    }
}

impl<'a> vstd::std_specs::convert::FromSpecImpl<&'a KeyPair> for WalletInfo {
    open spec fn obeys_from_spec() -> bool {
        true
    }

    open spec fn from_spec(keypair: &'a KeyPair) -> Self {
        WalletInfo { address: keypair.address, public_key: keypair.public_key }
    }
}

} // verus!

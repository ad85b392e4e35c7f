//! Key pairs in the form in which they are stored.

use crate::error::StoreError;
use crate::text::{append_decimal, decimal};
use vstd::prelude::*;

verus! {

broadcast use {vstd::string::group_string_axioms, vstd::seq::group_seq_axioms};

/// A key pair: the private scalar and the public key.
#[derive(Clone, Copy, Debug)]
pub struct KeyPair {
    pub private_key: [u8; 32],
    pub public_key: [u8; 32],
}

impl View for KeyPair {
    type V = Seq<u8>;

    /// The stored form: the private scalar, then the public key.
    open spec fn view(&self) -> Seq<u8> {
        self.private_key@ + self.public_key@
    }
}

/// The stored form of a key pair, sixty-four bytes.
pub fn serialize_keypair(pair: &KeyPair) -> (bytes: Vec<u8>)
    ensures
        bytes@ == pair@,
        bytes@.len() == 64,
{
    let mut bytes: Vec<u8> = Vec::new();
    append_array(&mut bytes, &pair.private_key);
    append_array(&mut bytes, &pair.public_key);
    bytes
}

/// Appends the bytes of an array.
fn append_array(out: &mut Vec<u8>, part: &[u8; 32])
    ensures
        final(out)@ == old(out)@ + part@,
{
    let mut i: usize = 0;
    assert(part@.take(0) =~= seq![]);
    assert(old(out)@ + part@.take(0) =~= old(out)@);
    while i < 32
        invariant
            i <= 32,
            out@ == old(out)@ + part@.take(i as int),
        decreases 32 - i,
    {
        out.push(part[i]);
        assert(part@.take(i + 1) =~= part@.take(i as int).push(part@[i as int]));
        assert(out@ =~= old(out)@ + part@.take(i + 1));
        i = i + 1;
    }
    assert(part@.take(32) =~= part@);
}

/// Thirty-two bytes from a place on.
fn array_at(bytes: &[u8], from: usize) -> (part: [u8; 32])
    requires
        from + 32 <= bytes@.len(),
    ensures
        part@ == bytes@.subrange(from as int, from + 32),
{
    let mut part: [u8; 32] = [0; 32];
    let mut i: usize = 0;
    while i < 32
        invariant
            i <= 32,
            from + 32 <= bytes.len(),
            forall|k: int| 0 <= k < i ==> part@[k] == bytes@[from + k],
        decreases 32 - i,
    {
        part[i] = bytes[from + i];
        i = i + 1;
    }
    assert(part@ =~= bytes@.subrange(from as int, from + 32));
    part
}

/// The message about a stored key pair of the wrong length.
pub open spec fn length_message(n: nat) -> Seq<char> {
    "Invalid KeyPair length: "@ + decimal(n)
}

/// The two halves of a stored key pair. Whether they are keys is for the cipher to say.
pub fn deserialize_keypair(bytes: &[u8]) -> (pair: Result<KeyPair, StoreError>)
    ensures
        bytes@.len() == 64 ==> (pair matches Ok(p) && p@ == bytes@ && p.private_key@
            == bytes@.take(32) && p.public_key@ == bytes@.skip(32)),
        bytes@.len() != 64 ==> (pair matches Err(StoreError::Validation(m)) && m@
            == length_message(bytes@.len())),
{
    if bytes.len() != 64 {
        let mut message: String = "Invalid KeyPair length: ".to_owned();
        append_decimal(&mut message, bytes.len() as u64);
        return Err(StoreError::Validation(message));
    }
    let pair = KeyPair { private_key: array_at(bytes, 0), public_key: array_at(bytes, 32) };
    assert(bytes@.subrange(0, 32) =~= bytes@.take(32));
    assert(bytes@.subrange(32, 64) =~= bytes@.skip(32));
    assert(pair@ =~= bytes@);
    Ok(pair)
}

/// The bytes of a slice as an array of thirty-two, where there are so many.
pub fn array32(bytes: &[u8]) -> (part: Option<[u8; 32]>)
    ensures
        match part {
            Some(a) => a@ == bytes@,
            None => bytes@.len() != 32,
        },
        bytes@.len() == 32 ==> part is Some,
{
    if bytes.len() == 32 {
        assert(bytes@.subrange(0, 32) =~= bytes@);
        Some(array_at(bytes, 0))
    } else {
        None
    }
}

/// The bytes of a slice as an array of sixty-four, where there are so many.
pub fn array64(bytes: &[u8]) -> (part: Option<[u8; 64]>)
    ensures
        match part {
            Some(a) => a@ == bytes@,
            None => bytes@.len() != 64,
        },
        bytes@.len() == 64 ==> part is Some,
{
    if bytes.len() != 64 {
        return None;
    }
    let mut part: [u8; 64] = [0; 64];
    let mut i: usize = 0;
    while i < 64
        invariant
            i <= 64,
            bytes@.len() == 64,
            forall|k: int| 0 <= k < i ==> part@[k] == bytes@[k],
        decreases 64 - i,
    {
        part[i] = bytes[i];
        i = i + 1;
    }
    assert(part@ =~= bytes@);
    Some(part)
}

/// A key pair comes back from its stored form as it went in.
pub proof fn law_keypair_round_trip(pair: KeyPair)
    ensures
        pair@.len() == 64,
        pair@.take(32) == pair.private_key@,
        pair@.skip(32) == pair.public_key@,
{
    assert(pair@.take(32) =~= pair.private_key@);
    assert(pair@.skip(32) =~= pair.public_key@);
}

} // verus!

//! Authentication: the DES challenge and response of VNC authentication,
//! and the key exchange of Apple Remote Desktop.

use vstd::prelude::*;

pub mod apple;
pub mod des;
pub mod tables;

pub use apple::{
    aes128_block, aes128_ecb, apple_answer, apple_auth, be_value, credential_field, credentials,
    generator_bytes, left_padded, md5_digest, mod_pow_bytes, shortest_bytes,
};
pub use des::{bit_of, byte_of, des, des_block, des_ecb};

use des::to_byte;

verus! {

/// The byte with the same bits in the opposite order.
pub open spec fn mirrored(byte: u8) -> u8 {
    byte_of(Seq::new(8, |j: int| bit_of(byte, 7 - j)), 0)
}

/// The key that VNC authentication makes of a password: every byte mirrored.
pub open spec fn mirrored_key(password: Seq<u8>) -> Seq<u8> {
    Seq::new(password.len(), |i: int| mirrored(password[i]))
}

/// The byte with the same bits in the opposite order.
pub fn reverse_bits(byte: u8) -> (r: u8)
    ensures
        r == mirrored(byte),
{
    let mut bits: Vec<bool> = Vec::new();
    let mut j: usize = 0;
    while j < 8
        invariant
            j <= 8,
            bits@.len() == j,
            forall|k: int| 0 <= k < j ==> bits@[k] == bit_of(byte, 7 - k),
        decreases 8 - j,
    {
        bits.push((byte >> (j as u8)) & 1 == 1);
        j = j + 1;
    }
    assert(bits@ =~= Seq::new(8, |j: int| bit_of(byte, 7 - j)));
    to_byte(&bits, 0)
}

/// The answer to the server's challenge in VNC authentication: the challenge
/// encrypted with DES under the password of which every byte is mirrored.
pub fn challenge_response(challenge: &[u8; 16], password: &[u8; 8]) -> (response: [u8; 16])
    ensures
        response@ == des_ecb(challenge@, mirrored_key(password@)),
{
    let mut key: [u8; 8] = [0u8; 8];
    let mut i: usize = 0;
    while i < 8
        invariant
            i <= 8,
            forall|k: int| 0 <= k < i ==> key@[k] == mirrored(password@[k]),
        decreases 8 - i,
    {
        key[i] = reverse_bits(password[i]);
        i = i + 1;
    }
    assert(key@ =~= mirrored_key(password@));
    des(challenge, &key)
}

/// The eight bytes that stand for a password: its first eight bytes, or all
/// of them and zeros.
pub open spec fn padded_password(password: Seq<u8>) -> Seq<u8> {
    Seq::new(
        8,
        |i: int|
            if i < password.len() {
                password[i]
            } else {
                0u8
            },
    )
}

/// The eight bytes that stand for a password.
pub fn password_key(password: &[u8]) -> (key: [u8; 8])
    ensures
        key@ == padded_password(password@),
{
    let mut key: [u8; 8] = [0u8; 8];
    let mut i: usize = 0;
    while i < 8 && i < password.len()
        invariant
            i <= 8,
            i <= password@.len(),
            forall|k: int| 0 <= k < i ==> key@[k] == password@[k],
            forall|k: int| i <= k < 8 ==> key@[k] == 0,
        decreases 8 - i,
    {
        key[i] = password[i];
        i = i + 1;
    }
    assert(key@ =~= padded_password(password@));
    key
}

} // verus!

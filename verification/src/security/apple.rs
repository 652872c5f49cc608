//! The key exchange of Apple Remote Desktop: a Diffie-Hellman exchange, and
//! the credentials encrypted under the digest of the shared secret.

use crate::error::Error;
use crate::protocol::{
    latin1_bytes, text_to_latin1, AppleAuthHandshake, AppleAuthHandshakeView, AppleAuthResponse,
};
use crypto::aessafe::AesSafe128Encryptor;
use crypto::symmetriccipher::BlockEncryptor;
use num_bigint::BigUint;
use octavo::digest::md5::Md5;
use octavo::digest::Digest;
use vstd::arithmetic::power::pow;
use vstd::prelude::*;

verus! {

/// The number that some bytes stand for, the first byte being the highest.
pub open spec fn be_value(bytes: Seq<u8>) -> nat
    decreases bytes.len(),
{
    if bytes.len() == 0 {
        0
    } else {
        256 * be_value(bytes.drop_last()) + bytes.last() as nat
    }
}

/// The shortest bytes that stand for a number, the highest byte first; zero
/// is one zero byte.
pub open spec fn shortest_bytes(n: nat) -> Seq<u8>
    decreases n,
{
    if n < 256 {
        seq![n as u8]
    } else {
        shortest_bytes(n / 256).push((n % 256) as u8)
    }
}

/// The power of a number modulo another, all three as big-endian bytes.
pub open spec fn mod_pow_bytes(base: Seq<u8>, exponent: Seq<u8>, modulus: Seq<u8>) -> Seq<u8> {
    shortest_bytes(
        (pow(be_value(base) as int, be_value(exponent)) % (be_value(modulus) as int)) as nat,
    )
}

/// The MD5 digest of a message: sixteen bytes.
pub uninterp spec fn md5_digest(message: Seq<u8>) -> Seq<u8>;

/// One block of sixteen bytes, encrypted with AES under a key of sixteen bytes.
pub uninterp spec fn aes128_block(key: Seq<u8>, block: Seq<u8>) -> Seq<u8>;

/// `num_bigint::BigUint::modpow` on numbers given and returned as
/// big-endian bytes (`from_bytes_be`, `to_bytes_be`): the power of the base
/// modulo the modulus, in the shortest bytes that stand for it. It panics on
/// a modulus of zero.
#[verifier::external_body]
fn mod_pow(base: &[u8], exponent: &[u8], modulus: &[u8]) -> (power: Vec<u8>)
    requires
        be_value(modulus@) != 0,
    ensures
        power@ == mod_pow_bytes(base@, exponent@, modulus@),
{
    let base = BigUint::from_bytes_be(base);
    let exponent = BigUint::from_bytes_be(exponent);
    let modulus = BigUint::from_bytes_be(modulus);
    base.modpow(&exponent, &modulus).to_bytes_be()
}

/// `octavo::digest::md5::Md5`, fed with the whole message at once: its digest.
#[verifier::external_body]
fn md5(message: &[u8]) -> (digest: [u8; 16])
    ensures
        digest@ == md5_digest(message@),
{
    let mut digest: [u8; 16] = [0u8; 16];
    let mut hasher = Md5::default();
    hasher.update(message);
    hasher.result(&mut digest[..]);
    digest
}

/// `crypto::aessafe::AesSafe128Encryptor`: one block encrypted under the key.
#[verifier::external_body]
fn aes128_encrypt_block(key: &[u8; 16], block: &[u8; 16]) -> (out: [u8; 16])
    ensures
        out@ == aes128_block(key@, block@),
{
    let mut out: [u8; 16] = [0u8; 16];
    AesSafe128Encryptor::new(&key[..]).encrypt_block(&block[..], &mut out[..]);
    out
}

/// Whether the bytes stand for zero.
fn is_zero(bytes: &[u8]) -> (zero: bool)
    ensures
        zero == (be_value(bytes@) == 0),
{
    let mut i: usize = 0;
    assert(bytes@.subrange(0, 0) =~= Seq::<u8>::empty());
    while i < bytes.len()
        invariant
            i <= bytes.len(),
            be_value(bytes@.subrange(0, i as int)) == 0,
        decreases bytes.len() - i,
    {
        assert(bytes@.subrange(0, i + 1).drop_last() =~= bytes@.subrange(0, i as int));
        if bytes[i] != 0 {
            proof {
                lemma_be_value_grows(bytes@, (i + 1) as nat);
            }
            return false;
        }
        i = i + 1;
    }
    assert(bytes@.subrange(0, i as int) =~= bytes@);
    true
}

/// A number is at least the number that its first bytes stand for.
pub proof fn lemma_be_value_grows(bytes: Seq<u8>, n: nat)
    requires
        n <= bytes.len(),
    ensures
        be_value(bytes) >= be_value(bytes.subrange(0, n as int)),
    decreases bytes.len(),
{
    if n == bytes.len() {
        assert(bytes.subrange(0, n as int) =~= bytes);
    } else {
        lemma_be_value_grows(bytes.drop_last(), n);
        assert(bytes.drop_last().subrange(0, n as int) =~= bytes.subrange(0, n as int));
    }
}

/// The bytes brought to the length `n` by zeros in front of them.
pub open spec fn left_padded(bytes: Seq<u8>, n: nat) -> Seq<u8>
    recommends
        bytes.len() <= n,
{
    Seq::new((n - bytes.len()) as nat, |i: int| 0u8) + bytes
}

/// The shortest bytes of a number are no more than the bytes of a number
/// that is no smaller.
pub proof fn lemma_shortest_fits(n: nat, bytes: Seq<u8>)
    requires
        bytes.len() >= 1,
        n <= be_value(bytes),
    ensures
        shortest_bytes(n).len() <= bytes.len(),
    decreases bytes.len(),
{
    if n >= 256 {
        let front = bytes.drop_last();
        assert(be_value(bytes) == 256 * be_value(front) + bytes.last());
        if front.len() == 0 {
            assert(be_value(front) == 0);
        } else {
            lemma_shortest_fits(n / 256, front);
        }
    }
}

/// The power of a number modulo another takes no more bytes than the modulus.
pub proof fn lemma_mod_pow_fits(base: Seq<u8>, exponent: Seq<u8>, modulus: Seq<u8>)
    requires
        be_value(modulus) != 0,
    ensures
        mod_pow_bytes(base, exponent, modulus).len() <= modulus.len(),
{
    let m = be_value(modulus) as int;
    let power = pow(be_value(base) as int, be_value(exponent));
    vstd::arithmetic::div_mod::lemma_mod_bound(power, m);
    if modulus.len() == 0 {
        assert(be_value(modulus) == 0);
    }
    lemma_shortest_fits((power % m) as nat, modulus);
}

/// The bytes brought to the length `n`.
fn pad_left(bytes: &Vec<u8>, n: usize) -> (padded: Vec<u8>)
    requires
        bytes@.len() <= n,
    ensures
        padded@ == left_padded(bytes@, n as nat),
{
    let mut padded: Vec<u8> = Vec::new();
    let zeros = n - bytes.len();
    let mut i: usize = 0;
    while i < zeros
        invariant
            i <= zeros,
            padded@ == Seq::new(i as nat, |k: int| 0u8),
        decreases zeros - i,
    {
        padded.push(0u8);
        i = i + 1;
        assert(padded@ =~= Seq::new(i as nat, |k: int| 0u8));
    }
    crate::wire::put_bytes(&mut padded, bytes.as_slice());
    padded
}

/// The 64 bytes in which a name or a password travels: its bytes, cut off
/// after 64 or filled up with zeros.
pub open spec fn credential_field(bytes: Seq<u8>) -> Seq<u8> {
    Seq::new(
        64,
        |i: int|
            if i < bytes.len() {
                bytes[i]
            } else {
                0u8
            },
    )
}

/// The 128 bytes of the credentials: the field of the name, then that of the password.
pub open spec fn credentials(username: Seq<u8>, password: Seq<u8>) -> Seq<u8> {
    credential_field(username) + credential_field(password)
}

/// The blocks of 16 bytes of `plain`, each encrypted by itself.
pub open spec fn aes128_ecb(key: Seq<u8>, plain: Seq<u8>) -> Seq<u8> {
    Seq::new(
        plain.len(),
        |i: int| aes128_block(key, plain.subrange(16 * (i / 16), 16 * (i / 16) + 16))[i % 16],
    )
}

/// The two bytes of the generator, the high byte first.
pub open spec fn generator_bytes(generator: u16) -> Seq<u8> {
    seq![(generator / 256) as u8, (generator % 256) as u8]
}

/// What the client answers to the server's part of the key exchange: the
/// credentials, encrypted under the digest of the shared secret, and the
/// client's public key. Both numbers are brought to the length of the prime.
pub open spec fn apple_answer(
    username: Seq<u8>,
    password: Seq<u8>,
    keys: AppleAuthHandshakeView,
    private_key: Seq<u8>,
) -> (Seq<u8>, Seq<u8>) {
    (
        aes128_ecb(
            md5_digest(
                left_padded(mod_pow_bytes(keys.peer_key, private_key, keys.prime), keys.prime.len()),
            ),
            credentials(username, password),
        ),
        left_padded(
            mod_pow_bytes(generator_bytes(keys.generator), private_key, keys.prime),
            keys.prime.len(),
        ),
    )
}

/// Fills `out` from `at` on with the field of a name or a password.
fn put_credential(out: &mut [u8; 128], at: usize, bytes: &[u8])
    requires
        at == 0 || at == 64,
    ensures
        forall|i: int| 0 <= i < 64 ==> final(out)@[at + i] == credential_field(bytes@)[i],
        forall|i: int| 0 <= i < 128 && !(at <= i < at + 64) ==> final(out)@[i] == old(out)@[i],
{
    let mut i: usize = 0;
    while i < 64
        invariant
            i <= 64,
            at == 0 || at == 64,
            forall|k: int| 0 <= k < i ==> out@[at + k] == credential_field(bytes@)[k],
            forall|k: int| 0 <= k < 128 && !(at <= k < at + 64) ==> out@[k] == old(out)@[k],
        decreases 64 - i,
    {
        let byte = if i < bytes.len() {
            bytes[i]
        } else {
            0u8
        };
        out[at + i] = byte;
        i = i + 1;
    }
}

/// The client's part of the Apple Remote Desktop key exchange.
///
/// `private_key` is the client's secret exponent; the caller draws it at
/// random. The name and the password travel as Latin-1, as all text of the
/// protocol does. A prime of zero is refused with `Unexpected("apple auth prime")`.
pub fn apple_auth(username: &str, password: &str, handshake: &AppleAuthHandshake, private_key: &[u8]) -> (r:
    Result<AppleAuthResponse, Error>)
    ensures
        be_value(handshake.prime@) == 0 ==> r matches Err(Error::Unexpected("apple auth prime")),
        be_value(handshake.prime@) != 0 ==> (r matches Ok(response) && (
            response.ciphertext@,
            response.pub_key@,
        ) == apple_answer(
            latin1_bytes(username@),
            latin1_bytes(password@),
            handshake@,
            private_key@,
        )),
{
    if is_zero(handshake.prime.as_slice()) {
        return Err(Error::Unexpected("apple auth prime"));
    }
    let key_length = handshake.prime.len();
    let generator: [u8; 2] = [
        (handshake.generator / 256) as u8,
        (handshake.generator % 256) as u8,
    ];
    assert(generator@ =~= generator_bytes(handshake.generator));
    let public_key = mod_pow(generator.as_slice(), private_key, handshake.prime.as_slice());
    let secret = mod_pow(handshake.peer_key.as_slice(), private_key, handshake.prime.as_slice());
    proof {
        lemma_mod_pow_fits(generator@, private_key@, handshake.prime@);
        lemma_mod_pow_fits(handshake.peer_key@, private_key@, handshake.prime@);
    }
    let aes_key = md5(pad_left(&secret, key_length).as_slice());
    let mut plain: [u8; 128] = [0u8; 128];
    put_credential(&mut plain, 0, text_to_latin1(username).as_slice());
    put_credential(&mut plain, 64, text_to_latin1(password).as_slice());
    assert(plain@ =~= credentials(latin1_bytes(username@), latin1_bytes(password@)));
    let mut ciphertext: [u8; 128] = [0u8; 128];
    let mut block: usize = 0;
    while block < 8
        invariant
            block <= 8,
            forall|i: int|
                0 <= i < 16 * block ==> ciphertext@[i] == aes128_ecb(aes_key@, plain@)[i],
        decreases 8 - block,
    {
        let mut input: [u8; 16] = [0u8; 16];
        let mut j: usize = 0;
        while j < 16
            invariant
                j <= 16,
                block < 8,
                forall|k: int| 0 <= k < j ==> input@[k] == plain@[16 * block + k],
            decreases 16 - j,
        {
            input[j] = plain[16 * block + j];
            j = j + 1;
        }
        assert(input@ =~= plain@.subrange(16 * block, 16 * block + 16));
        let output = aes128_encrypt_block(&aes_key, &input);
        let mut j: usize = 0;
        while j < 16
            invariant
                j <= 16,
                block < 8,
                output@ == aes128_block(aes_key@, plain@.subrange(16 * block, 16 * block + 16)),
                forall|i: int|
                    0 <= i < 16 * block + j ==> ciphertext@[i] == aes128_ecb(aes_key@, plain@)[i],
            decreases 16 - j,
        {
            ciphertext[16 * block + j] = output[j];
            j = j + 1;
        }
        block = block + 1;
    }
    assert(ciphertext@ =~= aes128_ecb(aes_key@, plain@));
    let pub_key = pad_left(&public_key, key_length);
    let response = AppleAuthResponse { ciphertext, pub_key };
    Ok(response)
}

} // verus!

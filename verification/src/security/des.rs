//! The Data Encryption Standard, written out bit by bit as the standard
//! describes it: the specification and the code walk the same tables.

use crate::security::tables::{
    expansion, expansion_table, final_permutation, final_permutation_table, initial_permutation,
    initial_permutation_table, key_choice, key_choice_table, lemma_table_lengths,
    lemma_tables_name_bits, round_key_choice, round_key_choice_table, round_permutation,
    round_permutation_table, sbox, sbox_entry, shift, shift_of,
};
use vstd::prelude::*;

verus! {


/// The bit `j` of a byte, the highest bit being bit 0.
pub open spec fn bit_of(byte: u8, j: int) -> bool {
    (byte >> ((7 - j) as u8)) & 1 == 1
}

/// The bits of some bytes, the highest bit of each byte first.
pub open spec fn bits_of(bytes: Seq<u8>) -> Seq<bool> {
    Seq::new(8 * bytes.len(), |i: int| bit_of(bytes[i / 8], i % 8))
}

/// `w` where the bit is set.
pub open spec fn weight(bit: bool, w: int) -> int {
    if bit {
        w
    } else {
        0
    }
}

/// The byte whose eight bits stand at `at` in `bits`, the highest first.
pub open spec fn byte_of(bits: Seq<bool>, at: int) -> u8 {
    (weight(bits[at], 128) + weight(bits[at + 1], 64) + weight(bits[at + 2], 32) + weight(
        bits[at + 3],
        16,
    ) + weight(bits[at + 4], 8) + weight(bits[at + 5], 4) + weight(bits[at + 6], 2) + weight(
        bits[at + 7],
        1,
    )) as u8
}

/// The bytes of some bits, eight to the byte.
pub open spec fn bytes_of(bits: Seq<bool>) -> Seq<u8> {
    Seq::new(bits.len() / 8, |k: int| byte_of(bits, 8 * k))
}

/// The bits chosen by a table: entry `i` of the table names, counting from
/// one, the bit that comes to stand at `i`.
pub open spec fn permute(bits: Seq<bool>, table: Seq<u8>) -> Seq<bool> {
    Seq::new(table.len(), |i: int| bits[table[i] - 1])
}

/// The bits that differ.
pub open spec fn xor(a: Seq<bool>, b: Seq<bool>) -> Seq<bool> {
    Seq::new(a.len(), |i: int| a[i] != b[i])
}

/// The bits turned to the left by `n` places.
pub open spec fn rotate(bits: Seq<bool>, n: nat) -> Seq<bool> {
    Seq::new(bits.len(), |i: int| bits[(i + n) % (bits.len() as int)])
}

/// The two halves of the key, one after the other, after `round` rounds of turning.
pub open spec fn key_halves(key_bits: Seq<bool>, round: nat) -> Seq<bool>
    decreases round,
{
    if round == 0 {
        permute(key_bits, key_choice())
    } else {
        let before = key_halves(key_bits, (round - 1) as nat);
        rotate(before.subrange(0, 28), shift(round - 1)) + rotate(
            before.subrange(28, 56),
            shift(round - 1),
        )
    }
}

/// The key of the round `round`, the first round being round 1.
pub open spec fn round_key(key_bits: Seq<bool>, round: nat) -> Seq<bool> {
    permute(key_halves(key_bits, round), round_key_choice())
}

/// The value that the substitution box `b` gives for its six bits of `x`:
/// the outer two choose the row, the inner four the column.
pub open spec fn sbox_value(x: Seq<bool>, b: int) -> u8 {
    sbox_entry(
        64 * b + 16 * (weight(x[6 * b], 2) + weight(x[6 * b + 5], 1)) + weight(x[6 * b + 1], 8)
            + weight(x[6 * b + 2], 4) + weight(x[6 * b + 3], 2) + weight(x[6 * b + 4], 1),
    )
}

/// The bit `j` of a value of four bits, the highest being bit 0.
pub open spec fn nibble_bit(value: u8, j: int) -> bool {
    if j == 0 {
        (value / 8) % 2 == 1
    } else if j == 1 {
        (value / 4) % 2 == 1
    } else if j == 2 {
        (value / 2) % 2 == 1
    } else {
        value % 2 == 1
    }
}

/// The 32 bits that the eight boxes give for 48.
pub open spec fn substitute(x: Seq<bool>) -> Seq<bool> {
    Seq::new(32, |i: int| nibble_bit(sbox_value(x, i / 4), i % 4))
}

/// The round function: expand, mix with the key, substitute, permute.
pub open spec fn feistel(right: Seq<bool>, key: Seq<bool>) -> Seq<bool> {
    permute(substitute(xor(permute(right, expansion()), key)), round_permutation())
}

/// The block, left half then right half, after `round` rounds.
pub open spec fn block_state(block_bits: Seq<bool>, key_bits: Seq<bool>, round: nat) -> Seq<bool>
    decreases round,
{
    if round == 0 {
        permute(block_bits, initial_permutation())
    } else {
        let before = block_state(block_bits, key_bits, (round - 1) as nat);
        before.subrange(32, 64) + xor(
            before.subrange(0, 32),
            feistel(before.subrange(32, 64), round_key(key_bits, round)),
        )
    }
}

/// The bits of the encrypted block.
pub open spec fn encrypted_bits(block_bits: Seq<bool>, key_bits: Seq<bool>) -> Seq<bool> {
    permute(
        block_state(block_bits, key_bits, 16).subrange(32, 64) + block_state(
            block_bits,
            key_bits,
            16,
        ).subrange(0, 32),
        final_permutation(),
    )
}

/// One block of eight bytes, encrypted with DES under a key of eight bytes.
pub open spec fn des_block(block: Seq<u8>, key: Seq<u8>) -> Seq<u8> {
    bytes_of(encrypted_bits(bits_of(block), bits_of(key)))
}

/// Two blocks, each encrypted by itself (the electronic codebook mode).
pub open spec fn des_ecb(input: Seq<u8>, key: Seq<u8>) -> Seq<u8> {
    des_block(input.subrange(0, 8), key) + des_block(input.subrange(8, 16), key)
}

/// The bits of `bytes`.
fn to_bits(bytes: &[u8]) -> (bits: Vec<bool>)
    requires
        bytes@.len() <= 16,
    ensures
        bits@ == bits_of(bytes@),
{
    let mut bits: Vec<bool> = Vec::new();
    let mut i: usize = 0;
    while i < bytes.len()
        invariant
            i <= bytes.len() <= 16,
            bits@.len() == 8 * i,
            forall|k: int| 0 <= k < 8 * i ==> bits@[k] == bit_of(bytes@[k / 8], k % 8),
        decreases bytes.len() - i,
    {
        let byte = bytes[i];
        let mut j: usize = 0;
        while j < 8
            invariant
                j <= 8,
                i < bytes.len() <= 16,
                byte == bytes@[i as int],
                bits@.len() == 8 * i + j,
                forall|k: int| 0 <= k < 8 * i + j ==> bits@[k] == bit_of(bytes@[k / 8], k % 8),
            decreases 8 - j,
        {
            bits.push((byte >> ((7 - j) as u8)) & 1 == 1);
            j = j + 1;
        }
        i = i + 1;
    }
    assert(bits@ =~= bits_of(bytes@));
    bits
}

/// The byte whose bits stand at `at`.
pub(crate) fn to_byte(bits: &Vec<bool>, at: usize) -> (byte: u8)
    requires
        at + 8 <= bits@.len(),
    ensures
        byte == byte_of(bits@, at as int),
{
    assert(at + 8 <= bits.len());
    let mut byte: u8 = 0;
    if bits[at] {
        byte = byte + 128;
    }
    if bits[at + 1] {
        byte = byte + 64;
    }
    if bits[at + 2] {
        byte = byte + 32;
    }
    if bits[at + 3] {
        byte = byte + 16;
    }
    if bits[at + 4] {
        byte = byte + 8;
    }
    if bits[at + 5] {
        byte = byte + 4;
    }
    if bits[at + 6] {
        byte = byte + 2;
    }
    if bits[at + 7] {
        byte = byte + 1;
    }
    byte
}

/// The bits chosen by a table.
fn permuted(bits: &Vec<bool>, table: &[u8]) -> (chosen: Vec<bool>)
    requires
        forall|i: int| 0 <= i < table@.len() ==> 1 <= #[trigger] table@[i] <= bits@.len(),
    ensures
        chosen@ == permute(bits@, table@),
{
    let mut chosen: Vec<bool> = Vec::new();
    let mut i: usize = 0;
    while i < table.len()
        invariant
            i <= table.len(),
            forall|i: int| 0 <= i < table@.len() ==> 1 <= #[trigger] table@[i] <= bits@.len(),
            chosen@ == permute(bits@, table@.subrange(0, i as int)),
        decreases table.len() - i,
    {
        chosen.push(bits[table[i] as usize - 1]);
        i = i + 1;
        assert(chosen@ =~= permute(bits@, table@.subrange(0, i as int)));
    }
    assert(table@.subrange(0, i as int) =~= table@);
    chosen
}

/// The bits that differ.
fn xored(a: &Vec<bool>, b: &Vec<bool>) -> (c: Vec<bool>)
    requires
        a@.len() == b@.len(),
    ensures
        c@ == xor(a@, b@),
{
    let mut c: Vec<bool> = Vec::new();
    let mut i: usize = 0;
    while i < a.len()
        invariant
            i <= a.len(),
            a@.len() == b@.len(),
            c@.len() == i,
            forall|k: int| 0 <= k < i ==> c@[k] == (a@[k] != b@[k]),
        decreases a.len() - i,
    {
        c.push(a[i] != b[i]);
        i = i + 1;
    }
    assert(c@ =~= xor(a@, b@));
    c
}

/// Appends to `out` the bits `from..to` of `bits`, turned to the left by `n` places.
fn push_rotated(out: &mut Vec<bool>, bits: &Vec<bool>, from: usize, to: usize, n: usize)
    requires
        from < to <= bits@.len(),
        n <= 255,
        bits@.len() <= 64,
    ensures
        final(out)@ == old(out)@ + rotate(bits@.subrange(from as int, to as int), n as nat),
{
    let len = to - from;
    let mut i: usize = 0;
    let ghost part = bits@.subrange(from as int, to as int);
    assert(out@ =~= old(out)@ + rotate(part, n as nat).subrange(0, 0));
    while i < len
        invariant
            i <= len,
            len == to - from,
            from < to <= bits@.len() <= 64,
            n <= 255,
            part == bits@.subrange(from as int, to as int),
            out@ == old(out)@ + rotate(part, n as nat).subrange(0, i as int),
        decreases len - i,
    {
        out.push(bits[from + (i + n) % len]);
        i = i + 1;
        assert(out@ =~= old(out)@ + rotate(part, n as nat).subrange(0, i as int));
    }
    assert(rotate(part, n as nat).subrange(0, len as int) =~= rotate(part, n as nat));
}

/// The value that the substitution box `b` gives for its six bits of `x`.
fn sbox_lookup(x: &Vec<bool>, b: usize) -> (value: u8)
    requires
        x@.len() == 48,
        b < 8,
    ensures
        value == sbox_value(x@, b as int),
{
    let mut index: usize = 64 * b;
    if x[6 * b] {
        index = index + 32;
    }
    if x[6 * b + 5] {
        index = index + 16;
    }
    if x[6 * b + 1] {
        index = index + 8;
    }
    if x[6 * b + 2] {
        index = index + 4;
    }
    if x[6 * b + 3] {
        index = index + 2;
    }
    if x[6 * b + 4] {
        index = index + 1;
    }
    sbox(index)
}

/// The 32 bits that the eight boxes give for 48.
fn substituted(x: &Vec<bool>) -> (y: Vec<bool>)
    requires
        x@.len() == 48,
    ensures
        y@ == substitute(x@),
{
    let mut y: Vec<bool> = Vec::new();
    let mut b: usize = 0;
    assert(y@ =~= substitute(x@).subrange(0, 0));
    while b < 8
        invariant
            b <= 8,
            x@.len() == 48,
            y@ == substitute(x@).subrange(0, 4 * b),
        decreases 8 - b,
    {
        let value = sbox_lookup(x, b);
        y.push((value / 8) % 2 == 1);
        y.push((value / 4) % 2 == 1);
        y.push((value / 2) % 2 == 1);
        y.push(value % 2 == 1);
        proof {
            let all = substitute(x@);
            assert(all[4 * b] == nibble_bit(value, 0));
            assert(all[4 * b + 1] == nibble_bit(value, 1));
            assert(all[4 * b + 2] == nibble_bit(value, 2));
            assert(all[4 * b + 3] == nibble_bit(value, 3));
            assert(y@ =~= all.subrange(0, 4 * b + 4));
        }
        b = b + 1;
    }
    assert(substitute(x@).subrange(0, 32) =~= substitute(x@));
    y
}

/// The bits `from..to` of `bits`.
fn part_of(bits: &Vec<bool>, from: usize, to: usize) -> (part: Vec<bool>)
    requires
        from < to <= bits@.len() <= 64,
    ensures
        part@ == bits@.subrange(from as int, to as int),
{
    let mut part: Vec<bool> = Vec::new();
    let mut i: usize = from;
    while i < to
        invariant
            from <= i <= to <= bits@.len(),
            part@ == bits@.subrange(from as int, i as int),
        decreases to - i,
    {
        part.push(bits[i]);
        i = i + 1;
        assert(part@ =~= bits@.subrange(from as int, i as int));
    }
    part
}

/// The halves of the key after one more round of turning.
fn turn_halves(halves: &Vec<bool>, Ghost(key): Ghost<Seq<bool>>, round: usize) -> (turned: Vec<bool>)
    requires
        round < 16,
        halves@ == key_halves(key, round as nat),
        halves@.len() == 56,
    ensures
        turned@ == key_halves(key, (round + 1) as nat),
        turned@.len() == 56,
{
    let n = shift_of(round) as usize;
    let mut turned: Vec<bool> = Vec::new();
    push_rotated(&mut turned, halves, 0, 28, n);
    push_rotated(&mut turned, halves, 28, 56, n);
    assert(turned@ =~= key_halves(key, (round + 1) as nat));
    turned
}

/// The round function.
fn round_function(right: &Vec<bool>, round_key: &Vec<bool>) -> (f: Vec<bool>)
    requires
        right@.len() == 32,
        round_key@.len() == 48,
    ensures
        f@ == feistel(right@, round_key@),
        f@.len() == 32,
{
    proof {
        lemma_table_lengths();
        lemma_tables_name_bits();
    }
    let mixed = xored(&permuted(right, expansion_table().as_slice()), round_key);
    permuted(&substituted(&mixed), round_permutation_table().as_slice())
}

/// The block after one more round.
fn next_state(state: &Vec<bool>, round_key: &Vec<bool>) -> (next: Vec<bool>)
    requires
        state@.len() == 64,
        round_key@.len() == 48,
    ensures
        next@ == state@.subrange(32, 64) + xor(
            state@.subrange(0, 32),
            feistel(state@.subrange(32, 64), round_key@),
        ),
        next@.len() == 64,
{
    let left = part_of(state, 0, 32);
    let right = part_of(state, 32, 64);
    let f = round_function(&right, round_key);
    let new_right = xored(&left, &f);
    let mut next = right;
    let mut i: usize = 0;
    while i < 32
        invariant
            i <= 32,
            new_right@.len() == 32,
            next@ == state@.subrange(32, 64) + new_right@.subrange(0, i as int),
        decreases 32 - i,
    {
        next.push(new_right[i]);
        i = i + 1;
        assert(next@ =~= state@.subrange(32, 64) + new_right@.subrange(0, i as int));
    }
    assert(new_right@.subrange(0, 32) =~= new_right@);
    next
}

/// Encrypts one block of 64 bits under a key of 64 bits.
fn encrypt_bits(block: &Vec<bool>, key: &Vec<bool>) -> (out: Vec<bool>)
    requires
        block@.len() == 64,
        key@.len() == 64,
    ensures
        out@ == encrypted_bits(block@, key@),
        out@.len() == 64,
{
    proof {
        lemma_table_lengths();
        lemma_tables_name_bits();
    }
    let mut halves = permuted(key, key_choice_table().as_slice());
    let mut state = permuted(block, initial_permutation_table().as_slice());
    let mut round: usize = 0;
    while round < 16
        invariant
            round <= 16,
            halves@ == key_halves(key@, round as nat),
            state@ == block_state(block@, key@, round as nat),
            halves@.len() == 56,
            state@.len() == 64,
        decreases 16 - round,
    {
        proof {
            lemma_table_lengths();
            lemma_tables_name_bits();
        }
        let turned = turn_halves(&halves, Ghost(key@), round);
        let subkey = permuted(&turned, round_key_choice_table().as_slice());
        assert(subkey@ == round_key(key@, (round + 1) as nat));
        let next = next_state(&state, &subkey);
        assert(next@ == block_state(block@, key@, (round + 1) as nat));
        halves = turned;
        state = next;
        round = round + 1;
    }
    let mut swapped = part_of(&state, 32, 64);
    let mut i: usize = 0;
    while i < 32
        invariant
            i <= 32,
            state@.len() == 64,
            swapped@ == state@.subrange(32, 64) + state@.subrange(0, i as int),
        decreases 32 - i,
    {
        swapped.push(state[i]);
        i = i + 1;
        assert(swapped@ =~= state@.subrange(32, 64) + state@.subrange(0, i as int));
    }
    permuted(&swapped, final_permutation_table().as_slice())
}

/// Encrypts one block of eight bytes.
fn encrypt_block(block: &[u8], key_bits: &Vec<bool>, Ghost(key): Ghost<Seq<u8>>) -> (out: Vec<u8>)
    requires
        block@.len() == 8,
        key_bits@ == bits_of(key),
        key.len() == 8,
    ensures
        out@ == des_block(block@, key),
        out@.len() == 8,
{
    let bits = encrypt_bits(&to_bits(block), key_bits);
    let mut out: Vec<u8> = Vec::new();
    let mut j: usize = 0;
    while j < 8
        invariant
            j <= 8,
            bits@.len() == 64,
            out@.len() == j,
            forall|k: int| 0 <= k < j ==> out@[k] == byte_of(bits@, 8 * k),
        decreases 8 - j,
    {
        out.push(to_byte(&bits, 8 * j));
        j = j + 1;
    }
    assert(out@ =~= bytes_of(bits@));
    out
}

/// Encrypts the two blocks of `input` with DES under `key`, each block by itself.
pub fn des(input: &[u8; 16], key: &[u8; 8]) -> (output: [u8; 16])
    ensures
        output@ == des_ecb(input@, key@),
{
    let key_bits = to_bits(key.as_slice());
    let first = encrypt_block(
        vstd::slice::slice_subrange(input.as_slice(), 0, 8),
        &key_bits,
        Ghost(key@),
    );
    let second = encrypt_block(
        vstd::slice::slice_subrange(input.as_slice(), 8, 16),
        &key_bits,
        Ghost(key@),
    );
    let mut output: [u8; 16] = [0u8; 16];
    let mut j: usize = 0;
    while j < 8
        invariant
            j <= 8,
            first@.len() == 8,
            second@.len() == 8,
            forall|k: int| 0 <= k < j ==> output@[k] == first@[k],
            forall|k: int| 0 <= k < j ==> output@[8 + k] == second@[k],
        decreases 8 - j,
    {
        output[j] = first[j];
        output[8 + j] = second[j];
        j = j + 1;
    }
    assert(output@ =~= first@ + second@);
    output
}

} // verus!

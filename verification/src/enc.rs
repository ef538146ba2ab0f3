//! The rounds of the cipher and the encryption of one block or of many.

use vstd::prelude::*;
use crate::block::{block_bytes, cell, xor_bytes, Block};
use crate::gf::{g_mul, gf_mul};
use crate::key_expansion::{key_schedule, round_key, s_box, sbox, KeyExpander};

verus! {

/// Every byte of the state sent through the substitution box.
pub open spec fn sub_bytes_spec(s: Seq<u8>) -> Seq<u8> {
    Seq::new(16, |i: int| sbox(s[i]))
}

/// Row `r` of the state rotated left by `r` columns: the byte at column
/// `c`, row `r` comes from column `(c + r) % 4` of the same row.
pub open spec fn shift_rows_spec(s: Seq<u8>) -> Seq<u8> {
    Seq::new(16, |i: int| cell(s, (i / 4 + i % 4) % 4, i % 4))
}

/// Byte `r` of the column `(a0, a1, a2, a3)` after mixing: the rows of the
/// circulant matrix with first row 2, 3, 1, 1 applied to the column.
pub open spec fn mix_column_byte(a0: u8, a1: u8, a2: u8, a3: u8, r: int) -> u8 {
    if r == 0 {
        gf_mul(0x02, a0) ^ gf_mul(0x03, a1) ^ a2 ^ a3
    } else if r == 1 {
        a0 ^ gf_mul(0x02, a1) ^ gf_mul(0x03, a2) ^ a3
    } else if r == 2 {
        a0 ^ a1 ^ gf_mul(0x02, a2) ^ gf_mul(0x03, a3)
    } else {
        gf_mul(0x03, a0) ^ a1 ^ a2 ^ gf_mul(0x02, a3)
    }
}

/// Every column of the state mixed.
pub open spec fn mix_columns_spec(s: Seq<u8>) -> Seq<u8> {
    Seq::new(
        16,
        |i: int|
            mix_column_byte(
                cell(s, i / 4, 0),
                cell(s, i / 4, 1),
                cell(s, i / 4, 2),
                cell(s, i / 4, 3),
                i % 4,
            ),
    )
}

/// One full round: substitution, row rotation, column mixing, round key.
pub open spec fn full_round_spec(s: Seq<u8>, round_key: Seq<u8>) -> Seq<u8> {
    xor_bytes(mix_columns_spec(shift_rows_spec(sub_bytes_spec(s))), round_key)
}

/// The last round: substitution, row rotation, round key.
pub open spec fn final_round_spec(s: Seq<u8>, round_key: Seq<u8>) -> Seq<u8> {
    xor_bytes(shift_rows_spec(sub_bytes_spec(s)), round_key)
}

/// The state after the whitening with the cipher key and the first `n` full
/// rounds, each with the round key of its number.
pub open spec fn rounds(plaintext: Seq<u8>, key: Seq<u8>, n: nat) -> Seq<u8>
    decreases n,
{
    if n == 0 {
        xor_bytes(plaintext, key)
    } else {
        full_round_spec(rounds(plaintext, key, (n - 1) as nat), round_key(key, n))
    }
}

/// The encryption of `plaintext` under `key`: whitening with the cipher
/// key, nine full rounds with round keys 1 to 9, and the last round with
/// round key 10.
pub open spec fn cipher(plaintext: Seq<u8>, key: Seq<u8>) -> Seq<u8> {
    final_round_spec(rounds(plaintext, key, 9), round_key(key, 10))
}

/// The state `state` after `n` full rounds that take their round keys from
/// the front of `keys`.
pub open spec fn rounds_with(state: Seq<u8>, keys: Seq<Seq<u8>>, n: nat) -> Seq<u8>
    decreases n,
{
    if n == 0 {
        state
    } else {
        full_round_spec(rounds_with(state, keys, (n - 1) as nat), keys[n - 1])
    }
}

/// The encryption of `plaintext` with the whitening value `key` and the ten
/// round keys `keys`, whatever they are.
pub open spec fn cipher_with(plaintext: Seq<u8>, key: Seq<u8>, keys: Seq<Seq<u8>>) -> Seq<u8> {
    final_round_spec(rounds_with(xor_bytes(plaintext, key), keys, 9), keys[9])
}

/// The encryption of every block of `blocks` under `key`, each by itself
/// and all with the one key schedule of `key`.
pub open spec fn bulk_cipher(blocks: Seq<Seq<u8>>, key: Seq<u8>) -> Seq<Seq<u8>> {
    Seq::new(blocks.len(), |i: int| cipher_with(blocks[i], key, key_schedule(key)))
}

/// The rounds driven by the key schedule of `key` reach the same state as
/// the rounds that derive each round key in turn.
pub proof fn lemma_rounds_with_schedule(plaintext: Seq<u8>, key: Seq<u8>, n: nat)
    requires
        n <= 10,
    ensures
        rounds_with(xor_bytes(plaintext, key), key_schedule(key), n) == rounds(plaintext, key, n),
    decreases n,
{
    if n > 0 {
        lemma_rounds_with_schedule(plaintext, key, (n - 1) as nat);
    }
}

/// Encrypting with the precomputed key schedule of `key` gives the same
/// block as encrypting with the round keys derived one after the other.
pub proof fn lemma_cipher_with_schedule(plaintext: Seq<u8>, key: Seq<u8>)
    ensures
        cipher_with(plaintext, key, key_schedule(key)) == cipher(plaintext, key),
{
    lemma_rounds_with_schedule(plaintext, key, 9);
}

/// Encrypting a sequence of blocks in bulk gives, place by place and in the
/// same order, what encrypting each block by itself gives.
pub proof fn lemma_bulk_is_blockwise(blocks: Seq<Seq<u8>>, key: Seq<u8>)
    ensures
        bulk_cipher(blocks, key).len() == blocks.len(),
        forall|i: int|
            0 <= i < blocks.len() ==> #[trigger] bulk_cipher(blocks, key)[i] == cipher(
                blocks[i],
                key,
            ),
{
    assert forall|i: int| 0 <= i < blocks.len() implies #[trigger] bulk_cipher(blocks, key)[i]
        == cipher(blocks[i], key) by {
        lemma_cipher_with_schedule(blocks[i], key);
    }
}

/// Mixes every column of the state.
pub fn mix_columns(block: &mut Block)
    ensures
        final(block)@ == mix_columns_spec(old(block)@),
{
    let a: [u8; 16] = block.to_bytes();
    let mut output: [u8; 16] = [0u8; 16];
    let mut c: usize = 0;
    while c < 4
        invariant
            c <= 4,
            a@ == old(block)@,
            forall|i: int| 0 <= i < 4 * c ==> output@[i] == mix_columns_spec(a@)[i],
        decreases 4 - c,
    {
        let a0: u8 = a[4 * c];
        let a1: u8 = a[4 * c + 1];
        let a2: u8 = a[4 * c + 2];
        let a3: u8 = a[4 * c + 3];
        output[4 * c] = g_mul(0x02, a0) ^ g_mul(0x03, a1) ^ a2 ^ a3;
        output[4 * c + 1] = a0 ^ g_mul(0x02, a1) ^ g_mul(0x03, a2) ^ a3;
        output[4 * c + 2] = a0 ^ a1 ^ g_mul(0x02, a2) ^ g_mul(0x03, a3);
        output[4 * c + 3] = g_mul(0x03, a0) ^ a1 ^ a2 ^ g_mul(0x02, a3);
        c += 1;
    }
    assert(output@ =~= mix_columns_spec(a@));
    *block = Block::new(output);
}

/// Rotates row `r` of the state left by `r` columns, for every row.
pub fn shift_rows(block: &mut Block)
    ensures
        final(block)@ == shift_rows_spec(old(block)@),
{
    let a: [u8; 16] = block.to_bytes();
    let mut output: [u8; 16] = a;
    let mut y: usize = 1;
    while y < 4
        invariant
            1 <= y <= 4,
            a@ == old(block)@,
            forall|i: int| 0 <= i < 16 && i % 4 < y ==> output@[i] == shift_rows_spec(a@)[i],
            forall|i: int| 0 <= i < 16 && i % 4 >= y ==> output@[i] == a@[i],
        decreases 4 - y,
    {
        let mut x: usize = 0;
        while x < 4
            invariant
                x <= 4,
                1 <= y < 4,
                forall|i: int|
                    0 <= i < 16 && (i % 4 < y || (i % 4 == y && i / 4 < x)) ==> output@[i]
                        == shift_rows_spec(a@)[i],
                forall|i: int|
                    0 <= i < 16 && (i % 4 > y || (i % 4 == y && i / 4 >= x)) ==> output@[i]
                        == a@[i],
            decreases 4 - x,
        {
            output[4 * x + y] = a[4 * ((x + y) % 4) + y];
            x += 1;
        }
        y += 1;
    }
    assert(output@ =~= shift_rows_spec(a@));
    *block = Block::new(output);
}

/// Sends every byte of the state through the substitution box.
pub fn sub_bytes(block: &mut Block)
    ensures
        final(block)@ == sub_bytes_spec(old(block)@),
{
    let mut bytes: [u8; 16] = block.to_bytes();
    let mut i: usize = 0;
    while i < 16
        invariant
            i <= 16,
            forall|k: int| 0 <= k < i ==> bytes@[k] == sbox(old(block)@[k]),
            forall|k: int| i <= k < 16 ==> bytes@[k] == old(block)@[k],
        decreases 16 - i,
    {
        bytes[i] = s_box(bytes[i]);
        i += 1;
    }
    assert(bytes@ =~= sub_bytes_spec(old(block)@));
    *block = Block::new(bytes);
}

/// One full round on the state, with the round key `round_key`.
pub fn full_round(block: &mut Block, round_key: Block)
    ensures
        final(block)@ == full_round_spec(old(block)@, round_key@),
{
    sub_bytes(block);
    shift_rows(block);
    mix_columns(block);
    *block = *block ^ round_key;
}

/// The last round on the state, with the round key `round_key`.
pub fn final_round(block: &mut Block, round_key: Block)
    ensures
        final(block)@ == final_round_spec(old(block)@, round_key@),
{
    sub_bytes(block);
    shift_rows(block);
    *block = *block ^ round_key;
}

/// Encrypts one block under `key`.
#[must_use]
pub fn encrypt_block(plaintext: Block, key: Block) -> (ciphertext: Block)
    ensures
        ciphertext@ == cipher(plaintext@, key@),
{
    let mut key_expander = KeyExpander::new(key);
    let mut state = plaintext ^ key;
    let mut n: usize = 0;
    while n < 9
        invariant
            n <= 9,
            key_expander.wf(),
            key_expander.key() == key@,
            key_expander.round() == n,
            state@ == rounds(plaintext@, key@, n as nat),
        decreases 9 - n,
    {
        let round_key = key_expander.next_key();
        full_round(&mut state, round_key);
        n += 1;
    }
    let round_key = key_expander.next_key();
    final_round(&mut state, round_key);
    state
}

/// Encrypts one block with the whitening value `key` and the ten round keys
/// `keys`.
#[must_use]
pub fn encrypt_with_round_keys(plaintext: Block, key: Block, keys: &[Block; 10]) -> (ciphertext:
    Block)
    ensures
        ciphertext@ == cipher_with(plaintext@, key@, block_bytes(keys@)),
{
    let mut state = plaintext ^ key;
    let mut i: usize = 0;
    while i < 9
        invariant
            i <= 9,
            state@ == rounds_with(xor_bytes(plaintext@, key@), block_bytes(keys@), i as nat),
        decreases 9 - i,
    {
        full_round(&mut state, keys[i]);
        i += 1;
    }
    final_round(&mut state, keys[9]);
    state
}

/// Encrypts every block of `plaintext` under `key`, each by itself and in
/// order, with one key schedule for all of them.
#[must_use]
pub fn encrypt_blocks_multiple(plaintext: Vec<Block>, key: Block) -> (ciphertext: Vec<Block>)
    ensures
        block_bytes(ciphertext@) == bulk_cipher(block_bytes(plaintext@), key@),
{
    let keys = KeyExpander::all_round_keys(key);
    assert(block_bytes(keys@) =~= key_schedule(key@));
    let mut ciphertext: Vec<Block> = Vec::with_capacity(plaintext.len());
    let mut i: usize = 0;
    while i < plaintext.len()
        invariant
            i <= plaintext.len(),
            ciphertext.len() == i,
            block_bytes(keys@) == key_schedule(key@),
            forall|j: int|
                0 <= j < i ==> (#[trigger] ciphertext@[j])@ == cipher_with(
                    plaintext@[j]@,
                    key@,
                    key_schedule(key@),
                ),
        decreases plaintext.len() - i,
    {
        let block = encrypt_with_round_keys(plaintext[i], key, &keys);
        ciphertext.push(block);
        i += 1;
    }
    assert(block_bytes(ciphertext@) =~= bulk_cipher(block_bytes(plaintext@), key@));
    ciphertext
}

} // verus!

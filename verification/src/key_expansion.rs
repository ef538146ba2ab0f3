//! The substitution box and the schedule of round keys.

use vstd::prelude::*;
use crate::block::Block;
use crate::gf::{double, g_inv, gf_inv, xtime};
use crate::gf_laws::{
    lemma_inv_is_pow_254, lemma_inverse_unique, lemma_mul_bits_zero, lemma_mul_commutes,
};

verus! {

/// The byte `b` with its bits rotated left by `k` places, for `k` from 1 to 7.
pub open spec fn rotl8(b: u8, k: u8) -> u8 {
    (b << k) | (b >> ((8 - k) as u8))
}

/// The affine map that follows the inversion in the substitution box.
pub open spec fn affine(b: u8) -> u8 {
    b ^ rotl8(b, 1) ^ rotl8(b, 2) ^ rotl8(b, 3) ^ rotl8(b, 4) ^ 0x63
}

/// The substitution box: inversion in the field, then the affine map.
pub open spec fn sbox(a: u8) -> u8 {
    affine(gf_inv(a))
}

/// The affine map sends different bytes to different bytes.
proof fn lemma_affine_injective(x: u8, y: u8)
    by (bit_vector)
    requires
        affine(x) == affine(y),
    ensures
        x == y,
{
}

/// The substitution box sends different bytes to different bytes, and so
/// is a bijection of the bytes.
pub proof fn lemma_sbox_injective(a: u8, b: u8)
    requires
        sbox(a) == sbox(b),
    ensures
        a == b,
{
    lemma_affine_injective(gf_inv(a), gf_inv(b));
    lemma_inv_is_pow_254(a);
    lemma_inv_is_pow_254(b);
    if a != 0 && b != 0 {
        lemma_mul_commutes(a, gf_inv(a));
        lemma_mul_commutes(b, gf_inv(a));
        lemma_inverse_unique(gf_inv(a), a, b);
    } else {
        lemma_mul_bits_zero(a, 8);
        lemma_mul_bits_zero(b, 8);
    }
}

/// The constant of round `i`, for `i` from 1: it starts at 1 and doubles in
/// the field with every round.
pub open spec fn round_constant(i: nat) -> u8
    decreases i,
{
    if i <= 1 {
        1
    } else {
        xtime(round_constant((i - 1) as nat))
    }
}

/// Byte `r` of the word that enters the first word of the next round key:
/// the last word of `prev` rotated left by one byte, substituted, and with
/// the round constant `rc` in its first byte.
pub open spec fn schedule_core(prev: Seq<u8>, rc: u8, r: int) -> u8 {
    if r == 0 {
        sbox(prev[13]) ^ rc
    } else if r == 3 {
        sbox(prev[12])
    } else {
        sbox(prev[13 + r])
    }
}

/// Byte `k` of the round key that follows `prev`. The first word is the
/// first word of `prev` combined with the schedule core; every later word is
/// the word before it combined with the word of `prev` in the same place.
pub open spec fn next_key_byte(prev: Seq<u8>, rc: u8, k: int) -> u8
    decreases k,
{
    if k < 4 {
        prev[k] ^ schedule_core(prev, rc, k)
    } else {
        next_key_byte(prev, rc, k - 4) ^ prev[k]
    }
}

/// The round key that follows `prev`, with round constant `rc`.
pub open spec fn next_round_key(prev: Seq<u8>, rc: u8) -> Seq<u8> {
    Seq::new(16, |k: int| next_key_byte(prev, rc, k))
}

/// Round key `i` of the cipher key `key`, for `i` from 1 to 10. The
/// recurrence starts from the cipher key, which stands at `i == 0` and is
/// not itself one of the round keys.
pub open spec fn round_key(key: Seq<u8>, i: nat) -> Seq<u8>
    decreases i,
{
    if i == 0 {
        key
    } else {
        next_round_key(round_key(key, (i - 1) as nat), round_constant(i))
    }
}

/// The ten round keys of `key`, in round order: entry `i` is round key
/// `i + 1`.
pub open spec fn key_schedule(key: Seq<u8>) -> Seq<Seq<u8>> {
    Seq::new(10, |i: int| round_key(key, (i + 1) as nat))
}

/// The substitution box applied to one byte.
pub fn s_box(a: u8) -> (s: u8)
    ensures
        s == sbox(a),
{
    let b: u8 = g_inv(a);
    b ^ ((b << 1) | (b >> 7)) ^ ((b << 2) | (b >> 6)) ^ ((b << 3) | (b >> 5)) ^ ((b << 4) | (b
        >> 4)) ^ 0x63
}

/// Computes the round key that follows `prev`, with round constant `rc`.
pub fn expand_round_key(prev: Block, rc: u8) -> (next: Block)
    ensures
        next@ == next_round_key(prev@, rc),
{
    let p: [u8; 16] = prev.to_bytes();
    let mut w: [u8; 16] = [0u8; 16];
    w[0] = p[0] ^ (s_box(p[13]) ^ rc);
    w[1] = p[1] ^ s_box(p[14]);
    w[2] = p[2] ^ s_box(p[15]);
    w[3] = p[3] ^ s_box(p[12]);
    let mut k: usize = 4;
    while k < 16
        invariant
            4 <= k <= 16,
            p@ == prev@,
            forall|j: int| 0 <= j < k ==> w@[j] == next_key_byte(p@, rc, j),
        decreases 16 - k,
    {
        w[k] = w[k - 4] ^ p[k];
        k += 1;
    }
    assert(w@ =~= next_round_key(prev@, rc));
    Block::new(w)
}

/// Hands out the round keys of one cipher key, one after the other.
pub struct KeyExpander {
    prev: Block,
    rcon: u8,
    round: u8,
    key: Ghost<Seq<u8>>,
}

impl KeyExpander {
    /// The cipher key that the round keys are derived from.
    pub closed spec fn key(&self) -> Seq<u8> {
        self.key@
    }

    /// How many round keys have been handed out.
    pub closed spec fn round(&self) -> nat {
        self.round as nat
    }

    /// The expander holds the round key it handed out last and the constant
    /// of the round that comes next, and has handed out at most ten keys.
    pub closed spec fn wf(&self) -> bool {
        &&& self.round <= 10
        &&& self.prev@ == round_key(self.key@, self.round as nat)
        &&& self.rcon == round_constant((self.round + 1) as nat)
    }

    /// An expander for `key` that has handed out no round key yet.
    pub fn new(key: Block) -> (expander: Self)
        ensures
            expander.wf(),
            expander.key() == key@,
            expander.round() == 0,
    {
        KeyExpander { prev: key, rcon: 1, round: 0, key: Ghost(key@) }
    }

    /// The number of round keys handed out so far.
    pub fn keys_taken(&self) -> (n: u8)
        requires
            self.wf(),
        ensures
            n == self.round(),
            n <= 10,
    {
        self.round
    }

    /// The next round key. It may be asked for ten times.
    pub fn next_key(&mut self) -> (round_key: Block)
        requires
            old(self).wf(),
            old(self).round() < 10,
        ensures
            final(self).wf(),
            final(self).key() == old(self).key(),
            final(self).round() == old(self).round() + 1,
            round_key@ == self::round_key(old(self).key(), old(self).round() + 1),
    {
        let next = expand_round_key(self.prev, self.rcon);
        self.prev = next;
        self.rcon = double(self.rcon);
        self.round = self.round + 1;
        next
    }

    /// All ten round keys of `key`, in round order.
    pub fn all_round_keys(key: Block) -> (keys: [Block; 10])
        ensures
            forall|i: int| 0 <= i < 10 ==> (#[trigger] keys@[i])@ == key_schedule(key@)[i],
    {
        let mut keys: [Block; 10] = [key; 10];
        let mut expander = KeyExpander::new(key);
        let mut i: usize = 0;
        while i < 10
            invariant
                i <= 10,
                expander.wf(),
                expander.key() == key@,
                expander.round() == i,
                forall|j: int| 0 <= j < i ==> (#[trigger] keys@[j])@ == key_schedule(key@)[j],
            decreases 10 - i,
        {
            keys[i] = expander.next_key();
            i += 1;
        }
        keys
    }
}

} // verus!

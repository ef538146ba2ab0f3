//! The sixteen-byte cipher state and its byte-wise exclusive-or.

use vstd::prelude::*;
use vstd::string::StringSliceAdditionalSpecFns;

verus! {

/// Sixteen bytes, read as a matrix of four columns by four rows.
///
/// Byte `k` of the flat order sits in column `k / 4`, row `k % 4`.
#[derive(Clone, Copy, Debug, PartialEq, Eq)]
pub struct Block(pub(crate) [u8; 16]);

impl View for Block {
    type V = Seq<u8>;

    /// The sixteen bytes in flat order.
    closed spec fn view(&self) -> Seq<u8> {
        self.0@
    }
}

/// The byte in column `col`, row `row` of the sixteen bytes `s` read as a
/// matrix: columns lie one after the other in the flat order.
pub open spec fn cell(s: Seq<u8>, col: int, row: int) -> u8 {
    s[4 * col + row]
}

/// The byte sequence `input` cut or zero-filled to exactly sixteen bytes.
pub open spec fn pad_to_block(input: Seq<u8>) -> Seq<u8> {
    Seq::new(
        16,
        |i: int|
            if i < input.len() {
                input[i]
            } else {
                0u8
            },
    )
}

/// The number of blocks that `len` bytes fill, the last one possibly in
/// part.
pub open spec fn block_count(len: nat) -> nat {
    ((len + 15) / 16) as nat
}

/// The byte sequence `input` cut into consecutive blocks of sixteen bytes,
/// in order; the last block is zero-filled where `input` ends early.
pub open spec fn chunk_blocks(input: Seq<u8>) -> Seq<Seq<u8>> {
    Seq::new(block_count(input.len()), |j: int| pad_to_block(input.skip(16 * j)))
}

/// The bytes of each block of `blocks`, in the same order.
pub open spec fn block_bytes(blocks: Seq<Block>) -> Seq<Seq<u8>> {
    Seq::new(blocks.len(), |i: int| blocks[i]@)
}

/// Byte-wise exclusive-or of two sequences, over the length of the first.
pub open spec fn xor_bytes(a: Seq<u8>, b: Seq<u8>) -> Seq<u8> {
    Seq::new(a.len(), |i: int| a[i] ^ b[i])
}

impl core::ops::BitXor for Block {
    type Output = Self;

    /// The byte-wise exclusive-or of the two blocks.
    fn bitxor(self, rhs: Self) -> (out: Self)
        ensures
            out == self.xor(rhs),
            out@ == xor_bytes(self@, rhs@),
    {
        let mut bytes: [u8; 16] = self.0;
        let mut i: usize = 0;
        while i < 16
            invariant
                i <= 16,
                forall|k: int| 0 <= k < i ==> bytes@[k] == self.0@[k] ^ rhs.0@[k],
                forall|k: int| i <= k < 16 ==> bytes@[k] == self.0@[k],
            decreases 16 - i,
        {
            bytes[i] = bytes[i] ^ rhs.0[i];
            i += 1;
        }
        let out = Block(bytes);
        proof {
            self.lemma_xor_bytes(rhs);
            assert(out@ =~= self.xor(rhs)@);
            out.lemma_same_bytes(self.xor(rhs));
        }
        out
    }
}

impl vstd::std_specs::ops::BitXorSpecImpl for Block {
    open spec fn obeys_bitxor_spec() -> bool {
        true
    }

    open spec fn bitxor_req(self, rhs: Self) -> bool {
        true
    }

    open spec fn bitxor_spec(self, rhs: Self) -> Self {
        self.xor(rhs)
    }
}

impl core::ops::BitXorAssign for Block {
    /// Replaces the block by its byte-wise exclusive-or with `rhs`.
    fn bitxor_assign(&mut self, rhs: Self)
        ensures
            *final(self) == old(self).xor(rhs),
            final(self)@ == xor_bytes(old(self)@, rhs@),
    {
        *self = *self ^ rhs;
    }
}

impl Block {
    /// The block whose bytes are the exclusive-or of the bytes of `self`
    /// and `rhs`, position by position.
    pub closed spec fn xor(self, rhs: Block) -> Block {
        Block(
            [
                self.0[0] ^ rhs.0[0],
                self.0[1] ^ rhs.0[1],
                self.0[2] ^ rhs.0[2],
                self.0[3] ^ rhs.0[3],
                self.0[4] ^ rhs.0[4],
                self.0[5] ^ rhs.0[5],
                self.0[6] ^ rhs.0[6],
                self.0[7] ^ rhs.0[7],
                self.0[8] ^ rhs.0[8],
                self.0[9] ^ rhs.0[9],
                self.0[10] ^ rhs.0[10],
                self.0[11] ^ rhs.0[11],
                self.0[12] ^ rhs.0[12],
                self.0[13] ^ rhs.0[13],
                self.0[14] ^ rhs.0[14],
                self.0[15] ^ rhs.0[15],
            ],
        )
    }

    /// The bytes of `self.xor(rhs)` are the exclusive-or of the bytes of the
    /// two blocks.
    pub broadcast proof fn lemma_xor_bytes(self, rhs: Block)
        ensures
            #[trigger] self.xor(rhs)@ == xor_bytes(self@, rhs@),
    {
        assert(self.xor(rhs)@ =~= xor_bytes(self@, rhs@));
    }

    /// A block always holds exactly sixteen bytes.
    pub broadcast proof fn lemma_len(self)
        ensures
            #[trigger] self@.len() == 16,
    {
    }

    /// Two blocks with the same bytes are the same block.
    pub proof fn lemma_same_bytes(self, other: Block)
        requires
            self@ == other@,
        ensures
            self == other,
    {
        assert(self.0@ =~= other.0@);
        assert(self.0 == other.0);
    }

    /// A block that holds `input` byte for byte.
    #[must_use]
    pub fn new(input: [u8; 16]) -> (block: Self)
        ensures
            block@ == input@,
    {
        Block(input)
    }

    /// The sixteen bytes in flat order.
    #[must_use]
    pub fn to_bytes(&self) -> (bytes: [u8; 16])
        ensures
            bytes@ == self@,
    {
        self.0
    }

    /// A block built from the first sixteen bytes of `input`; where `input`
    /// is shorter, the missing bytes are zero.
    #[must_use]
    pub fn from_slice_single(input: &[u8]) -> (block: Self)
        ensures
            block@ == pad_to_block(input@),
    {
        let mut bytes: [u8; 16] = [0u8; 16];
        let mut i: usize = 0;
        while i < 16 && i < input.len()
            invariant
                i <= 16,
                i <= input.len(),
                forall|k: int| 0 <= k < i ==> bytes@[k] == input@[k],
                forall|k: int| i <= k < 16 ==> bytes@[k] == 0u8,
            decreases 16 - i,
        {
            bytes[i] = input[i];
            i += 1;
        }
        assert(bytes@ =~= pad_to_block(input@));
        Block(bytes)
    }

    /// The blocks that `input` fills, in order: one for every sixteen bytes,
    /// and one more, zero-filled at its end, for what is left over.
    #[must_use]
    pub fn from_slice_multiple(input: &[u8]) -> (blocks: Vec<Block>)
        ensures
            block_bytes(blocks@) == chunk_blocks(input@),
    {
        let len: usize = input.len();
        let count: usize = if len % 16 == 0 {
            len / 16
        } else {
            len / 16 + 1
        };
        let mut blocks: Vec<Block> = Vec::with_capacity(count);
        let mut j: usize = 0;
        while j < count
            invariant
                j <= count,
                len == input@.len(),
                count == block_count(len as nat),
                blocks.len() == j,
                forall|k: int|
                    0 <= k < j ==> (#[trigger] blocks@[k])@ == pad_to_block(input@.skip(16 * k)),
            decreases count - j,
        {
            let start: usize = 16 * j;
            let chunk = vstd::slice::slice_subrange(input, start, len);
            assert(chunk@ =~= input@.skip(16 * j));
            blocks.push(Block::from_slice_single(chunk));
            j += 1;
        }
        assert(block_bytes(blocks@) =~= chunk_blocks(input@));
        blocks
    }

    /// A block built from the first sixteen bytes of the text `s`, as
    /// `from_slice_single` builds it from them.
    #[must_use]
    pub fn from_str_single(s: &str) -> (block: Self)
        ensures
            block@ == pad_to_block(s.spec_bytes()),
    {
        Self::from_slice_single(s.as_bytes())
    }

    /// The blocks that the bytes of the text `s` fill, as
    /// `from_slice_multiple` builds them.
    #[must_use]
    pub fn from_str_multiple(s: &str) -> (blocks: Vec<Block>)
        ensures
            block_bytes(blocks@) == chunk_blocks(s.spec_bytes()),
    {
        Self::from_slice_multiple(s.as_bytes())
    }

    /// Exclusive-or with the same block twice gives the first block back,
    /// and a block combined with itself is all zero.
    pub proof fn lemma_xor_involution(self, other: Block)
        ensures
            self.xor(other).xor(other) == self,
            self.xor(self)@ == Seq::new(16, |i: int| 0u8),
    {
        broadcast use Block::lemma_xor_bytes;
        broadcast use Block::lemma_len;

        assert forall|i: int| 0 <= i < 16 implies #[trigger] self.xor(other).xor(other)@[i]
            == self@[i] && self.xor(self)@[i] == 0u8 by {
            let x = self@[i];
            let y = other@[i];
            assert((x ^ y) ^ y == x && x ^ x == 0u8) by (bit_vector);
        }
        assert(self.xor(other).xor(other)@ =~= self@);
        assert(self.xor(self)@ =~= Seq::new(16, |i: int| 0u8));
        self.xor(other).xor(other).lemma_same_bytes(self);
    }
}

impl core::str::FromStr for Block {
    type Err = core::convert::Infallible;

    /// Never fails: the block is the one `from_str_single` builds.
    fn from_str(s: &str) -> (block: Result<Self, Self::Err>)
        ensures
            block is Ok,
            block->Ok_0@ == pad_to_block(s.spec_bytes()),
    {
        Ok(Self::from_str_single(s))
    }
}

} // verus!

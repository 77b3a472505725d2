//! The driver: holds the message, the running state and the number of blocks
//! already mixed in, and steps block by block until the terminal block.
use vstd::prelude::*;
use crate::bits::{word_from_be, word_to_be};
use crate::compress::{column_fold, compress, fold_row, transform, TRANSFORM_COUNT};
use crate::pad::{block_at, fill_block};
use vstd::slice::slice_to_vec;
use crate::{BLOCK_SIZE, HASH_SIZE};

verus! {

/// The state before any block is mixed in.
pub const INITIAL_STATE: [u8; HASH_SIZE] = [255, 100, 211, 37, 112, 167, 41, 37];

/// Number of blocks that a message of `len` bytes is cut into: blocks start
/// at every offset `0, 8, 16, ...` that does not pass the end of the message.
pub open spec fn block_count(len: nat) -> nat {
    len / 8 + 1
}

/// The blocks of `msg`, in order.
pub open spec fn padded_blocks(msg: Seq<u8>) -> Seq<Seq<u8>> {
    Seq::new(block_count(msg.len()), |i: int| block_at(msg, 8 * i))
}

/// `state` after mixing in each of `blocks` in turn.
pub open spec fn absorb(state: Seq<u8>, blocks: Seq<Seq<u8>>) -> Seq<u8>
    decreases blocks.len(),
{
    if blocks.len() == 0 {
        state
    } else {
        compress(absorb(state, blocks.drop_last()), blocks.last())
    }
}

/// The digest of `msg`.
pub open spec fn digest(msg: Seq<u8>) -> Seq<u8> {
    absorb(INITIAL_STATE@, padded_blocks(msg))
}

/// What a hasher holds, as mathematical values.
pub struct HashProgress {
    /// The message being hashed.
    pub data: Seq<u8>,
    /// The running state.
    pub state: Seq<u8>,
    /// The block built last.
    pub block: Seq<u8>,
    /// How many blocks have been mixed in.
    pub blocks: nat,
}

impl HashProgress {
    /// Offset of the next block into the message.
    pub open spec fn offset(self) -> nat {
        8 * self.blocks
    }

    /// Whether another block is still to be mixed in.
    pub open spec fn running(self) -> bool {
        self.offset() <= self.data.len()
    }

    /// The state equals the initial state with the first `blocks` blocks of
    /// the message mixed in, and no block past the terminal one was counted.
    pub open spec fn consistent(self) -> bool {
        &&& self.blocks <= block_count(self.data.len())
        &&& self.state == absorb(INITIAL_STATE@, padded_blocks(self.data).take(self.blocks as int))
    }
}

/// A hasher over one message.
pub struct EvanHash {
    state: [u8; HASH_SIZE],
    block: [u8; BLOCK_SIZE],
    blocks: usize,
    data: Vec<u8>,
}

impl View for EvanHash {
    type V = HashProgress;

    closed spec fn view(&self) -> HashProgress {
        HashProgress {
            data: self.data@,
            state: self.state@,
            block: self.block@,
            blocks: self.blocks as nat,
        }
    }
}

impl EvanHash {
    /// A hasher over a copy of `data`, at the initial state with no block mixed in.
    pub fn new(data: &[u8]) -> (h: Self)
        ensures
            h@.data == data@,
            h@.state == INITIAL_STATE@,
            h@.block == Seq::new(8, |k: int| 0u8),
            h@.blocks == 0,
            h@.consistent(),
    {
        let h = EvanHash {
            state: INITIAL_STATE,
            block: [0u8; BLOCK_SIZE],
            blocks: 0,
            data: slice_to_vec(data),
        };
        assert(h.block@ =~= Seq::new(8, |k: int| 0u8));
        assert(padded_blocks(data@).take(0) =~= Seq::<Seq<u8>>::empty());
        h
    }

    /// Whether another block is still to be mixed in.
    pub fn has_more(&self) -> (r: bool)
        ensures
            r == self@.running(),
    {
        proof {
            let n = self.data@.len();
            let b = self.blocks as int;
            assert((8 * b <= n) == (b <= n / 8)) by (nonlinear_arith);
        }
        self.blocks <= self.data.len() / BLOCK_SIZE
    }

    /// Mixes the current block into the state.
    pub fn process_block(&mut self)
        ensures
            final(self)@ == (HashProgress { state: compress(old(self)@.state, old(self)@.block), ..old(self)@ }),
    {
        let ghost s0 = self.state@;
        let word = word_from_be(&self.block);
        let mut rows: Vec<[u8; HASH_SIZE]> = Vec::new();
        rows.push(self.state);
        let mut i: usize = 0;
        while i < TRANSFORM_COUNT
            invariant
                i <= TRANSFORM_COUNT,
                rows@.len() == i + 1,
                forall|j: int| 0 <= j <= i ==> #[trigger] rows@[j]@ == fold_row(s0, word, j),
            decreases TRANSFORM_COUNT - i,
        {
            rows.push(word_to_be(transform(word, i)));
            i = i + 1;
        }
        let mut next: [u8; HASH_SIZE] = [0u8; HASH_SIZE];
        let mut p: usize = 0;
        while p < HASH_SIZE
            invariant
                p <= HASH_SIZE,
                rows@.len() == TRANSFORM_COUNT + 1,
                forall|j: int| 0 <= j <= TRANSFORM_COUNT ==> #[trigger] rows@[j]@ == fold_row(s0, word, j),
                forall|q: int| 0 <= q < p ==> next@[q] == !column_fold(s0, word, q, 14),
            decreases HASH_SIZE - p,
        {
            let mut acc: u8 = 0xff;
            let mut k: usize = 0;
            while k < rows.len()
                invariant
                    p < HASH_SIZE,
                    k <= rows@.len() == TRANSFORM_COUNT + 1,
                    forall|j: int| 0 <= j <= TRANSFORM_COUNT ==> #[trigger] rows@[j]@ == fold_row(s0, word, j),
                    acc == column_fold(s0, word, p as int, k as nat),
                decreases rows@.len() - k,
            {
                acc = acc ^ rows[k][p];
                k = k + 1;
            }
            next[p] = !acc;
            p = p + 1;
        }
        assert(next@ =~= compress(s0, self.block@));
        self.state = next;
    }

    /// Builds the next block from the message and mixes it into the state.
    pub fn update(&mut self)
        requires
            old(self)@.running(),
        ensures
            final(self)@.data == old(self)@.data,
            final(self)@.block == block_at(old(self)@.data, old(self)@.offset() as int),
            final(self)@.state == compress(old(self)@.state, final(self)@.block),
            final(self)@.blocks == old(self)@.blocks + 1,
            old(self)@.consistent() ==> final(self)@.consistent(),
    {
        proof {
            let all = padded_blocks(self@.data);
            let n = self.blocks as int;
            assert(n < block_count(self@.data.len())) by (nonlinear_arith)
                requires
                    8 * n <= self@.data.len(),
            ;
            assert(all.take(n + 1).drop_last() =~= all.take(n));
            assert(all.take(n + 1).last() == all[n]);
        }
        let len: usize = self.data.len();
        assert(self.blocks * BLOCK_SIZE <= len);
        let offset: usize = self.blocks * BLOCK_SIZE;
        self.block = fill_block(self.data.as_slice(), offset);
        self.process_block();
        self.blocks = self.blocks + 1;
    }

    /// The running state.
    pub fn state(&self) -> (r: [u8; HASH_SIZE])
        ensures
            r@ == self@.state,
    {
        self.state
    }

    /// The block built last.
    pub fn block(&self) -> (r: [u8; BLOCK_SIZE])
        ensures
            r@ == self@.block,
    {
        self.block
    }

    /// How many blocks have been mixed in; also the index of the next block.
    pub fn blocks_mixed(&self) -> (r: usize)
        ensures
            r == self@.blocks,
    {
        self.blocks
    }

    /// The running state, handed out as the digest. Once a consistent hasher
    /// has no block left to mix in, that is the digest of its message.
    pub fn finalize(self) -> (r: [u8; HASH_SIZE])
        ensures
            r@ == self@.state,
            self@.consistent() && !self@.running() ==> r@ == digest(self@.data),
    {
        proof {
            if self@.consistent() && !self@.running() {
                let all = padded_blocks(self@.data);
                let n = self.blocks as int;
                assert(n >= block_count(self@.data.len())) by (nonlinear_arith)
                    requires
                        8 * n > self@.data.len(),
                ;
                assert(all.take(n) =~= all);
            }
        }
        self.state
    }

    /// The digest of `data`.
    pub fn hash(data: &[u8]) -> (r: [u8; HASH_SIZE])
        ensures
            r@ == digest(data@),
    {
        let mut hasher = EvanHash::new(data);
        while hasher.has_more()
            invariant
                hasher@.data == data@,
                hasher@.consistent(),
            decreases block_count(data@.len()) - hasher@.blocks,
        {
            hasher.update();
        }
        hasher.finalize()
    }
}

/// Hashing is a function of the message alone: equal messages have equal
/// digests, whenever and wherever they are computed.
pub proof fn lemma_hash_deterministic(m1: Seq<u8>, m2: Seq<u8>)
    requires
        m1 == m2,
    ensures
        digest(m1) == digest(m2),
{
}

/// A message whose length is a multiple of the block size fills its first
/// `len / 8` blocks with its own bytes and is followed by one more block that
/// holds no message byte: the length marker at position 0 and zeros after
/// it. That extra block is the last one mixed into the digest.
pub proof fn lemma_exact_multiple_gets_marker_block(m: Seq<u8>)
    requires
        m.len() % 8 == 0,
    ensures
        padded_blocks(m).len() == m.len() / 8 + 1,
        forall|i: int|
            0 <= i < m.len() / 8 ==> #[trigger] padded_blocks(m)[i] == m.subrange(8 * i, 8 * i + 8),
        padded_blocks(m).last() == seq![(m.len() % 256) as u8, 0u8, 0u8, 0u8, 0u8, 0u8, 0u8, 0u8],
        digest(m) == compress(
            absorb(INITIAL_STATE@, padded_blocks(m).drop_last()),
            padded_blocks(m).last(),
        ),
{
    let n = m.len() as int;
    assert forall|i: int| 0 <= i < m.len() / 8 implies #[trigger] padded_blocks(m)[i] == m.subrange(
        8 * i,
        8 * i + 8,
    ) by {
        assert(8 * i + 8 <= n) by (nonlinear_arith)
            requires
                0 <= i < n / 8,
                n >= 0,
        ;
        assert(padded_blocks(m)[i] =~= m.subrange(8 * i, 8 * i + 8));
    }
    assert(8 * (n / 8) == n);
    assert(padded_blocks(m).last() =~= seq![(m.len() % 256) as u8, 0u8, 0u8, 0u8, 0u8, 0u8, 0u8, 0u8]);
}

/// The terminal block of a message of more than 255 bytes holds, just past
/// the message's last byte, only the length modulo 256.
pub proof fn lemma_marker_truncated(m: Seq<u8>)
    requires
        m.len() > 255,
    ensures
        padded_blocks(m).last()[(m.len() % 8) as int] == (m.len() % 256) as u8,
{
    let n = m.len() as int;
    assert(8 * (n / 8) + n % 8 == n);
}

/// Messages whose lengths differ by a multiple of 256 get the same length
/// marker, at the same position of their terminal blocks: the marker alone
/// cannot tell such lengths apart.
pub proof fn lemma_marker_repeats_every_256(m1: Seq<u8>, m2: Seq<u8>, k: nat)
    requires
        m2.len() == m1.len() + 256 * k,
    ensures
        m1.len() % 8 == m2.len() % 8,
        padded_blocks(m1).last()[(m1.len() % 8) as int] == padded_blocks(m2).last()[(m2.len() % 8) as int],
{
    let n1 = m1.len() as int;
    let n2 = m2.len() as int;
    assert(n1 % 8 == n2 % 8 && n1 % 256 == n2 % 256) by (nonlinear_arith)
        requires
            n2 == n1 + 256 * k,
            n1 >= 0,
    ;
    assert(8 * (n1 / 8) + n1 % 8 == n1);
    assert(8 * (n2 / 8) + n2 % 8 == n2);
}

} // verus!

//! Areion512-MD: a Merkle-Damgard hash function with a chain value of two
//! lanes, blocks of 32 bytes and a digest of 32 bytes, whose compression
//! function is the 512-bit permutation in Davies-Meyer mode.

use crate::block::{load, store_at, AesBlock};
use crate::padding::{
    block_views, blocks_of, lemma_bit_length_split, lemma_blocks_of_concat,
    lemma_strengthened_split, length_padded, length_padding, strengthened, tail_of,
};
use crate::permutation::{areion512_dm, davies_meyer_512};
use vstd::prelude::*;

verus! {

/// The initial chain value.
pub const IV: [[u8; 16]; 2] = [
    [0x6a, 0x09, 0xe6, 0x67, 0xbb, 0x67, 0xae, 0x85, 0x3c, 0x6e, 0xf3, 0x72, 0xa5, 0x4f, 0xf5, 0x3a],
    [0x51, 0x0e, 0x52, 0x7f, 0x9b, 0x05, 0x68, 0x8c, 0x1f, 0x83, 0xd9, 0xab, 0x5b, 0xe0, 0xcd, 0x19],
];

/// The chain value as bytes: two lanes.
pub type Chain = (Seq<u8>, Seq<u8>);

/// The chain value that every computation starts from.
pub open spec fn initial_chain() -> Chain {
    (IV[0]@, IV[1]@)
}

/// The chain value after one block of 32 bytes: the block's two lanes go in
/// front of the chain value's, and the four go through the compression
/// function.
pub open spec fn compress_block(h: Chain, block: Seq<u8>) -> Chain {
    davies_meyer_512(block.subrange(0, 16), block.subrange(16, 32), h.0, h.1)
}

/// The chain value after a sequence of blocks, taken in order.
pub open spec fn compress_blocks(h: Chain, blocks: Seq<Seq<u8>>) -> Chain
    decreases blocks.len(),
{
    if blocks.len() == 0 {
        h
    } else {
        compress_block(compress_blocks(h, blocks.drop_last()), blocks.last())
    }
}

/// The length in bits, modulo 2^64, of a message of `block_len` blocks and
/// `tail_len` more bytes.
pub open spec fn bit_length(block_len: u64, tail_len: nat) -> u64 {
    ((8 * (tail_len + 32 * block_len)) % 0x1_0000_0000_0000_0000) as u64
}

/// The digest that a chain value stands for: its two lanes, in order.
pub open spec fn output(h: Chain) -> Seq<u8> {
    h.0 + h.1
}

/// What a [`Core`] holds.
pub struct CoreView {
    /// The chain value.
    pub chain: Chain,
    /// The number of blocks taken in so far, modulo 2^64.
    pub block_len: u64,
}

impl CoreView {
    /// The state in which every computation starts.
    pub open spec fn initial() -> CoreView {
        CoreView { chain: initial_chain(), block_len: 0 }
    }

    /// The state after a reset: the initial one, whatever came before.
    pub open spec fn reset(self) -> CoreView {
        CoreView::initial()
    }

    /// The state after more blocks.
    pub open spec fn absorb(self, blocks: Seq<Seq<u8>>) -> CoreView {
        CoreView {
            chain: compress_blocks(self.chain, blocks),
            block_len: ((self.block_len + blocks.len()) % 0x1_0000_0000_0000_0000) as u64,
        }
    }

    /// The state after the message's last bytes, fewer than a block: they
    /// are padded with the marker byte, zeros and the message's length in
    /// bits as 8 bytes, and the one or two blocks that this gives are
    /// compressed.
    pub open spec fn finalize(self, tail: Seq<u8>) -> CoreView {
        let bits = bit_length(self.block_len, tail.len());
        CoreView {
            chain: compress_blocks(
                self.chain,
                blocks_of(length_padded(tail, bits as u128, 32, 8), 32),
            ),
            block_len: self.block_len,
        }
    }
}

/// The digest of a message: a fresh state takes in the message's full
/// blocks, is finalized with the rest, and gives its chain value.
pub open spec fn digest(data: Seq<u8>) -> Seq<u8> {
    output(CoreView::initial().absorb(blocks_of(data, 32)).finalize(tail_of(data, 32)).chain)
}

/// The chain value: two lanes.
#[derive(Clone, Copy, Debug)]
struct State(AesBlock, AesBlock);

impl View for State {
    type V = Chain;

    closed spec fn view(&self) -> Chain {
        (self.0@, self.1@)
    }
}

impl Default for State {
    fn default() -> (state: State)
        ensures
            state@ == initial_chain(),
    {
        State(load(&IV[0]), load(&IV[1]))
    }
}

impl State {
    /// Takes in one block, given as 32 bytes of `data` from `at` on.
    fn compress_at(&mut self, data: &[u8], at: usize)
        requires
            at + 32 <= data@.len(),
        ensures
            final(self)@ == compress_block(old(self)@, data@.subrange(at as int, at + 32)),
    {
        assert(data@.len() == data.len());
        let (m0, m1) = (load(&data[at..at + 16]), load(&data[at + 16..at + 32]));
        proof {
            let block = data@.subrange(at as int, at + 32);
            assert(m0@ =~= block.subrange(0, 16));
            assert(m1@ =~= block.subrange(16, 32));
        }
        let (h0, h1) = areion512_dm(m0, m1, self.0, self.1);
        *self = State(h0, h1);
    }

    /// Takes in blocks, in order.
    fn compress(&mut self, blocks: &[[u8; 32]])
        ensures
            final(self)@ == compress_blocks(old(self)@, block_views(blocks@)),
    {
        let ghost all = block_views(blocks@);
        let mut i: usize = 0;
        while i < blocks.len()
            invariant
                i <= blocks@.len(),
                all == block_views(blocks@),
                self@ == compress_blocks(old(self)@, all.take(i as int)),
            decreases blocks@.len() - i,
        {
            let block = &blocks[i];
            assert(block@.subrange(0, 32) =~= block@);
            self.compress_at(block, 0);
            i += 1;
            assert(all.take(i as int).drop_last() =~= all.take(i - 1));
        }
        assert(all.take(i as int) =~= all);
    }

    /// Takes in the full blocks at the front of `data`, in order.
    fn compress_bytes(&mut self, data: &[u8])
        ensures
            final(self)@ == compress_blocks(old(self)@, blocks_of(data@, 32)),
    {
        let ghost all = blocks_of(data@, 32);
        let n = data.len() / 32;
        let mut i: usize = 0;
        while i < n
            invariant
                i <= n,
                n == data@.len() / 32,
                data@.len() == data.len(),
                all == blocks_of(data@, 32),
                self@ == compress_blocks(old(self)@, all.take(i as int)),
            decreases n - i,
        {
            self.compress_at(data, 32 * i);
            i += 1;
            assert(all.take(i as int).drop_last() =~= all.take(i - 1));
        }
        assert(all.take(i as int) =~= all);
    }
}

/// The state of an Areion512-MD computation.
#[derive(Debug)]
pub struct Core {
    state: State,
    block_len: u64,
}

impl View for Core {
    type V = CoreView;

    closed spec fn view(&self) -> CoreView {
        CoreView { chain: self.state@, block_len: self.block_len }
    }
}

impl Clone for Core {
    fn clone(&self) -> (core: Core)
        ensures
            core@ == self@,
    {
        Core { state: self.state, block_len: self.block_len }
    }
}

impl Default for Core {
    fn default() -> (core: Core)
        ensures
            core@ == CoreView::initial(),
    {
        Core { state: State::default(), block_len: 0 }
    }
}

impl Core {
    /// The name of the algorithm.
    pub fn alg_name() -> (name: &'static str)
        ensures
            name@ == "Areion512-MD"@,
    {
        "Areion512-MD"
    }

    /// Takes in full blocks of the message, in order.
    pub fn update_blocks(&mut self, blocks: &[[u8; 32]])
        ensures
            final(self)@ == old(self)@.absorb(block_views(blocks@)),
    {
        self.block_len = self.block_len.wrapping_add(blocks.len() as u64);
        self.state.compress(blocks);
    }

    /// Takes in the last bytes of the message, fewer than a block, with
    /// their padding, and gives the digest.
    pub fn finalize_fixed_core(&mut self, buffer: &[u8]) -> (out: [u8; 32])
        requires
            buffer@.len() < 32,
        ensures
            final(self)@ == old(self)@.finalize(buffer@),
            out@ == output(final(self)@.chain),
    {
        let total: u128 = 8 * (buffer.len() as u128 + 32 * (self.block_len as u128));
        let bit_len: u64 = (total % 0x1_0000_0000_0000_0000) as u64;
        let padded = length_padding(buffer, bit_len as u128, 32, 8);
        self.state.compress_bytes(padded.as_slice());

        let mut out = [0u8; 32];
        store_at(&mut out, 0, self.state.0);
        store_at(&mut out, 16, self.state.1);
        proof {
            self.state.0.lemma_len();
            self.state.1.lemma_len();
            assert(out@ =~= output(self.state@));
        }
        out
    }

    /// Goes back to the state in which every computation starts.
    pub fn reset(&mut self)
        ensures
            final(self)@ == old(self)@.reset(),
    {
        *self = Core::default();
    }
}

/// The Areion512-MD digest of a message.
pub fn hash(data: &[u8]) -> (out: [u8; 32])
    ensures
        out@ == digest(data@),
{
    let mut core = Core::default();
    let n = data.len() / 32;
    core.state.compress_bytes(data);
    core.block_len = n as u64;
    assert(core@ == CoreView::initial().absorb(blocks_of(data@, 32)));
    core.finalize_fixed_core(&data[32 * n..data.len()])
}

/// Blocks may be taken in one after the other or all at once: the chain
/// value is the same.
pub proof fn lemma_compress_blocks_concat(h: Chain, first: Seq<Seq<u8>>, second: Seq<Seq<u8>>)
    ensures
        compress_blocks(h, first + second) == compress_blocks(compress_blocks(h, first), second),
    decreases second.len(),
{
    if second.len() == 0 {
        assert(first + second =~= first);
    } else {
        lemma_compress_blocks_concat(h, first, second.drop_last());
        assert((first + second).drop_last() =~= first + second.drop_last());
    }
}

/// A message may be fed to a core in any number of calls: what counts is
/// the sequence of its blocks.
pub proof fn lemma_absorb_concat(core: CoreView, first: Seq<Seq<u8>>, second: Seq<Seq<u8>>)
    ensures
        core.absorb(first).absorb(second) == core.absorb(first + second),
{
    lemma_compress_blocks_concat(core.chain, first, second);
}

/// A core that was used for something else and then reset gives the same
/// digest as a fresh one.
pub proof fn lemma_reset_digest(used: CoreView, data: Seq<u8>)
    ensures
        output(used.reset().absorb(blocks_of(data, 32)).finalize(tail_of(data, 32)).chain)
            == digest(data),
{
}

/// The length that goes into the padding of a message is the message's own,
/// in bits, whatever its division into blocks.
pub proof fn lemma_message_bit_length(data: Seq<u8>)
    ensures
        bit_length(
            CoreView::initial().absorb(blocks_of(data, 32)).block_len,
            tail_of(data, 32).len(),
        ) == (8 * data.len()) % 0x1_0000_0000_0000_0000,
{
    lemma_bit_length_split(data.len() as int, 32, 0x1_0000_0000_0000_0000);
}

/// The digest of a message is what the initial chain value becomes over the
/// blocks of the whole message with its strengthening: the message, the
/// byte `0x80`, zeros up to 8 bytes short of a block boundary, and the
/// message's length in bits in those 8 bytes.
pub proof fn lemma_digest_of_strengthened(data: Seq<u8>)
    ensures
        digest(data) == output(
            compress_blocks(
                initial_chain(),
                blocks_of(
                    strengthened(data, ((8 * data.len() as int) % 0x1_0000_0000_0000_0000) as u128, 32, 8),
                    32,
                ),
            ),
        ),
{
    let bits = ((8 * data.len() as int) % 0x1_0000_0000_0000_0000) as u128;
    let tail = tail_of(data, 32);
    let full = data.subrange(0, data.len() - tail.len());
    let padded = length_padded(tail, bits, 32, 8);
    lemma_message_bit_length(data);
    lemma_strengthened_split(data, bits, 32, 8);
    lemma_blocks_of_concat(full, padded, 32);
    lemma_compress_blocks_concat(initial_chain(), blocks_of(full, 32), blocks_of(padded, 32));
}

} // verus!

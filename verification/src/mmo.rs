//! Areion512-MMO: a wide-pipe hash function with a chain value of four
//! lanes, blocks of 64 bytes and a digest of 64 bytes, whose compression
//! function is one call of the 512-bit permutation in Matyas-Meyer-Oseas
//! mode.

use crate::aes::{lemma_xor_bytes_assoc_comm, xor_bytes};
use crate::block::{load, store_at, xor, xor3, AesBlock};
use crate::padding::{
    block_views, blocks_of, lemma_bit_length_split, lemma_blocks_of_concat,
    lemma_strengthened_split, length_padded, length_padding, strengthened, tail_of,
};
use crate::permutation::{areion512, even_mansour_512, permute_512};
use vstd::prelude::*;

verus! {

/// The initial chain value.
pub const IV: [[u8; 16]; 4] = [
    [0x08, 0xc9, 0xbc, 0xf3, 0x67, 0xe6, 0x09, 0x6a, 0x3b, 0xa7, 0xca, 0x84, 0x85, 0xae, 0x67, 0xbb],
    [0x2b, 0xf8, 0x94, 0xfe, 0x72, 0xf3, 0x6e, 0x3c, 0xf1, 0x36, 0x1d, 0x5f, 0x3a, 0xf5, 0x4f, 0xa5],
    [0xd1, 0x82, 0xe6, 0xad, 0x7f, 0x52, 0x0e, 0x51, 0x1f, 0x6c, 0x3e, 0x2b, 0x8c, 0x68, 0x05, 0x9b],
    [0x6b, 0xbd, 0x41, 0xfb, 0xab, 0xd9, 0x83, 0x1f, 0x79, 0x21, 0x7e, 0x13, 0x19, 0xcd, 0xe0, 0x5b],
];

/// The chain value as bytes: four lanes.
pub type Chain = (Seq<u8>, Seq<u8>, Seq<u8>, Seq<u8>);

/// The chain value that every computation starts from.
pub open spec fn initial_chain() -> Chain {
    (IV[0]@, IV[1]@, IV[2]@, IV[3]@)
}

/// The chain value after one block of 64 bytes: the block's four lanes are
/// added to the chain value's, the sum goes through the permutation, and
/// the sum is added to what comes out.
pub open spec fn compress_block(h: Chain, block: Seq<u8>) -> Chain {
    let (m0, m1) = (block.subrange(0, 16), block.subrange(16, 32));
    let (m2, m3) = (block.subrange(32, 48), block.subrange(48, 64));
    let (x0, x1, x2, x3) = permute_512(
        xor_bytes(h.0, m0),
        xor_bytes(h.1, m1),
        xor_bytes(h.2, m2),
        xor_bytes(h.3, m3),
    );
    (
        xor_bytes(x0, xor_bytes(h.0, m0)),
        xor_bytes(x1, xor_bytes(h.1, m1)),
        xor_bytes(x2, xor_bytes(h.2, m2)),
        xor_bytes(x3, xor_bytes(h.3, m3)),
    )
}

/// The chain value after a sequence of blocks, taken in order.
pub open spec fn compress_blocks(h: Chain, blocks: Seq<Seq<u8>>) -> Chain
    decreases blocks.len(),
{
    if blocks.len() == 0 {
        h
    } else {
        compress_block(compress_blocks(h, blocks.drop_last()), blocks.last())
    }
}

/// The length in bits, modulo 2^128, of a message of `block_len` blocks and
/// `tail_len` more bytes.
pub open spec fn bit_length(block_len: u128, tail_len: nat) -> u128 {
    ((8 * (tail_len + 64 * block_len)) % (u128::MAX + 1)) as u128
}

/// The digest that a chain value stands for: its four lanes, in order.
pub open spec fn output(h: Chain) -> Seq<u8> {
    h.0 + h.1 + h.2 + h.3
}

/// What a [`Core`] holds.
pub struct CoreView {
    /// The chain value.
    pub chain: Chain,
    /// The number of blocks taken in so far, modulo 2^128.
    pub block_len: u128,
}

impl CoreView {
    /// The state in which every computation starts.
    pub open spec fn initial() -> CoreView {
        CoreView { chain: initial_chain(), block_len: 0 }
    }

    /// The state after a reset: the initial one, whatever came before.
    pub open spec fn reset(self) -> CoreView {
        CoreView::initial()
    }

    /// The state after more blocks.
    pub open spec fn absorb(self, blocks: Seq<Seq<u8>>) -> CoreView {
        CoreView {
            chain: compress_blocks(self.chain, blocks),
            block_len: ((self.block_len + blocks.len()) % (u128::MAX + 1)) as u128,
        }
    }

    /// The state after the message's last bytes, fewer than a block: they
    /// are padded with the marker byte, zeros and the message's length in
    /// bits as 16 bytes, and the one or two blocks that this gives are
    /// compressed.
    pub open spec fn finalize(self, tail: Seq<u8>) -> CoreView {
        let bits = bit_length(self.block_len, tail.len());
        CoreView {
            chain: compress_blocks(self.chain, blocks_of(length_padded(tail, bits, 64, 16), 64)),
            block_len: self.block_len,
        }
    }
}

/// The digest of a message: a fresh state takes in the message's full
/// blocks, is finalized with the rest, and gives its chain value.
pub open spec fn digest(data: Seq<u8>) -> Seq<u8> {
    output(CoreView::initial().absorb(blocks_of(data, 64)).finalize(tail_of(data, 64)).chain)
}

/// The chain value: four lanes.
#[derive(Clone, Copy, Debug)]
struct State(AesBlock, AesBlock, AesBlock, AesBlock);

impl View for State {
    type V = Chain;

    closed spec fn view(&self) -> Chain {
        (self.0@, self.1@, self.2@, self.3@)
    }
}

impl Default for State {
    fn default() -> (state: State)
        ensures
            state@ == initial_chain(),
    {
        State(load(&IV[0]), load(&IV[1]), load(&IV[2]), load(&IV[3]))
    }
}

impl State {
    /// Takes in one block, given as 64 bytes of `data` from `at` on.
    fn compress_at(&mut self, data: &[u8], at: usize)
        requires
            at + 64 <= data@.len(),
        ensures
            final(self)@ == compress_block(old(self)@, data@.subrange(at as int, at + 64)),
    {
        assert(data@.len() == data.len());
        let (m0, m1, m2, m3) = (
            load(&data[at..at + 16]),
            load(&data[at + 16..at + 32]),
            load(&data[at + 32..at + 48]),
            load(&data[at + 48..at + 64]),
        );
        proof {
            let block = data@.subrange(at as int, at + 64);
            assert(m0@ =~= block.subrange(0, 16));
            assert(m1@ =~= block.subrange(16, 32));
            assert(m2@ =~= block.subrange(32, 48));
            assert(m3@ =~= block.subrange(48, 64));
        }
        let State(h0, h1, h2, h3) = *self;
        let (x0, x1, x2, x3) = areion512(xor(h0, m0), xor(h1, m1), xor(h2, m2), xor(h3, m3));
        *self = State(xor3(x0, h0, m0), xor3(x1, h1, m1), xor3(x2, h2, m2), xor3(x3, h3, m3));
    }

    /// Takes in blocks, in order.
    fn compress(&mut self, blocks: &[[u8; 64]])
        ensures
            final(self)@ == compress_blocks(old(self)@, block_views(blocks@)),
    {
        let ghost all = block_views(blocks@);
        let mut i: usize = 0;
        while i < blocks.len()
            invariant
                i <= blocks@.len(),
                all == block_views(blocks@),
                self@ == compress_blocks(old(self)@, all.take(i as int)),
            decreases blocks@.len() - i,
        {
            let block = &blocks[i];
            assert(block@.subrange(0, 64) =~= block@);
            self.compress_at(block, 0);
            i += 1;
            assert(all.take(i as int).drop_last() =~= all.take(i - 1));
        }
        assert(all.take(i as int) =~= all);
    }

    /// Takes in the full blocks at the front of `data`, in order.
    fn compress_bytes(&mut self, data: &[u8])
        ensures
            final(self)@ == compress_blocks(old(self)@, blocks_of(data@, 64)),
    {
        let ghost all = blocks_of(data@, 64);
        let n = data.len() / 64;
        let mut i: usize = 0;
        while i < n
            invariant
                i <= n,
                n == data@.len() / 64,
                data@.len() == data.len(),
                all == blocks_of(data@, 64),
                self@ == compress_blocks(old(self)@, all.take(i as int)),
            decreases n - i,
        {
            self.compress_at(data, 64 * i);
            i += 1;
            assert(all.take(i as int).drop_last() =~= all.take(i - 1));
        }
        assert(all.take(i as int) =~= all);
    }

    /// The four lanes as 64 bytes.
    fn to_bytes(&self) -> (out: [u8; 64])
        ensures
            out@ == output(self@),
    {
        let mut out = [0u8; 64];
        store_at(&mut out, 0, self.0);
        store_at(&mut out, 16, self.1);
        store_at(&mut out, 32, self.2);
        store_at(&mut out, 48, self.3);
        proof {
            self.0.lemma_len();
            self.1.lemma_len();
            self.2.lemma_len();
            self.3.lemma_len();
            assert(out@ =~= output(self@));
        }
        out
    }
}

/// The state of an Areion512-MMO computation.
#[derive(Debug)]
pub struct Core {
    state: State,
    block_len: u128,
}

impl View for Core {
    type V = CoreView;

    closed spec fn view(&self) -> CoreView {
        CoreView { chain: self.state@, block_len: self.block_len }
    }
}

impl Clone for Core {
    fn clone(&self) -> (core: Core)
        ensures
            core@ == self@,
    {
        Core { state: self.state, block_len: self.block_len }
    }
}

impl Default for Core {
    fn default() -> (core: Core)
        ensures
            core@ == CoreView::initial(),
    {
        Core { state: State::default(), block_len: 0 }
    }
}

impl Core {
    /// The name of the algorithm.
    pub fn alg_name() -> (name: &'static str)
        ensures
            name@ == "Areion512-MMO"@,
    {
        "Areion512-MMO"
    }

    /// Takes in full blocks of the message, in order.
    pub fn update_blocks(&mut self, blocks: &[[u8; 64]])
        ensures
            final(self)@ == old(self)@.absorb(block_views(blocks@)),
    {
        self.block_len = self.block_len.wrapping_add(blocks.len() as u128);
        self.state.compress(blocks);
    }

    /// Takes in the last bytes of the message, fewer than a block, with
    /// their padding, and gives the digest.
    pub fn finalize_fixed_core(&mut self, buffer: &[u8]) -> (out: [u8; 64])
        requires
            buffer@.len() < 64,
        ensures
            final(self)@ == old(self)@.finalize(buffer@),
            out@ == output(final(self)@.chain),
    {
        let bytes = (buffer.len() as u128).wrapping_add(self.block_len.wrapping_mul(64));
        let bit_len = bytes.wrapping_mul(8);
        assert(bit_len == bit_length(self.block_len, buffer@.len()));
        let padded = length_padding(buffer, bit_len, 64, 16);
        self.state.compress_bytes(padded.as_slice());
        self.state.to_bytes()
    }

    /// Goes back to the state in which every computation starts.
    pub fn reset(&mut self)
        ensures
            final(self)@ == old(self)@.reset(),
    {
        *self = Core::default();
    }
}

/// The Areion512-MMO digest of a message.
pub fn hash(data: &[u8]) -> (out: [u8; 64])
    ensures
        out@ == digest(data@),
{
    let mut core = Core::default();
    let n = data.len() / 64;
    core.state.compress_bytes(data);
    core.block_len = n as u128;
    assert(core@ == CoreView::initial().absorb(blocks_of(data@, 64)));
    core.finalize_fixed_core(&data[64 * n..data.len()])
}

/// The compression function is the Matyas-Meyer-Oseas mode of the single-key
/// Even-Mansour cipher: the block is enciphered under the chain value as
/// key, and added to the result.
pub proof fn lemma_compress_block_is_mmo(h: Chain, block: Seq<u8>)
    ensures
        ({
            let (m0, m1) = (block.subrange(0, 16), block.subrange(16, 32));
            let (m2, m3) = (block.subrange(32, 48), block.subrange(48, 64));
            let (c0, c1, c2, c3) = even_mansour_512(h, (m0, m1, m2, m3));
            compress_block(h, block) == (
                xor_bytes(c0, m0),
                xor_bytes(c1, m1),
                xor_bytes(c2, m2),
                xor_bytes(c3, m3),
            )
        }),
{
    let (m0, m1) = (block.subrange(0, 16), block.subrange(16, 32));
    let (m2, m3) = (block.subrange(32, 48), block.subrange(48, 64));
    let (k0, k1) = (xor_bytes(h.0, m0), xor_bytes(h.1, m1));
    let (k2, k3) = (xor_bytes(h.2, m2), xor_bytes(h.3, m3));
    let (x0, x1, x2, x3) = permute_512(k0, k1, k2, k3);
    lemma_xor_bytes_assoc_comm(h.0, m0, x0);
    lemma_xor_bytes_assoc_comm(h.1, m1, x1);
    lemma_xor_bytes_assoc_comm(h.2, m2, x2);
    lemma_xor_bytes_assoc_comm(h.3, m3, x3);
    lemma_xor_bytes_assoc_comm(x0, h.0, m0);
    lemma_xor_bytes_assoc_comm(x1, h.1, m1);
    lemma_xor_bytes_assoc_comm(x2, h.2, m2);
    lemma_xor_bytes_assoc_comm(x3, h.3, m3);
}

/// Blocks may be taken in one after the other or all at once: the chain
/// value is the same.
pub proof fn lemma_compress_blocks_concat(h: Chain, first: Seq<Seq<u8>>, second: Seq<Seq<u8>>)
    ensures
        compress_blocks(h, first + second) == compress_blocks(compress_blocks(h, first), second),
    decreases second.len(),
{
    if second.len() == 0 {
        assert(first + second =~= first);
    } else {
        lemma_compress_blocks_concat(h, first, second.drop_last());
        assert((first + second).drop_last() =~= first + second.drop_last());
    }
}

/// A message may be fed to a core in any number of calls: what counts is
/// the sequence of its blocks.
pub proof fn lemma_absorb_concat(core: CoreView, first: Seq<Seq<u8>>, second: Seq<Seq<u8>>)
    ensures
        core.absorb(first).absorb(second) == core.absorb(first + second),
{
    lemma_compress_blocks_concat(core.chain, first, second);
}

/// A core that was used for something else and then reset gives the same
/// digest as a fresh one.
pub proof fn lemma_reset_digest(used: CoreView, data: Seq<u8>)
    ensures
        output(used.reset().absorb(blocks_of(data, 64)).finalize(tail_of(data, 64)).chain)
            == digest(data),
{
}

/// The length that goes into the padding of a message is the message's own,
/// in bits, whatever its division into blocks.
pub proof fn lemma_message_bit_length(data: Seq<u8>)
    ensures
        bit_length(
            CoreView::initial().absorb(blocks_of(data, 64)).block_len,
            tail_of(data, 64).len(),
        ) == (8 * data.len() as int) % (u128::MAX + 1),
{
    lemma_bit_length_split(data.len() as int, 64, u128::MAX + 1);
}

/// The digest of a message is what the initial chain value becomes over the
/// blocks of the whole message with its strengthening: the message, the
/// byte `0x80`, zeros up to 16 bytes short of a block boundary, and the
/// message's length in bits in those 16 bytes.
pub proof fn lemma_digest_of_strengthened(data: Seq<u8>)
    ensures
        digest(data) == output(
            compress_blocks(
                initial_chain(),
                blocks_of(
                    strengthened(data, ((8 * data.len() as int) % (u128::MAX + 1)) as u128, 64, 16),
                    64,
                ),
            ),
        ),
{
    let bits = ((8 * data.len() as int) % (u128::MAX + 1)) as u128;
    let tail = tail_of(data, 64);
    let full = data.subrange(0, data.len() - tail.len());
    let padded = length_padded(tail, bits, 64, 16);
    lemma_message_bit_length(data);
    lemma_strengthened_split(data, bits, 64, 16);
    lemma_blocks_of_concat(full, padded, 64);
    lemma_compress_blocks_concat(initial_chain(), blocks_of(full, 64), blocks_of(padded, 64));
}

} // verus!

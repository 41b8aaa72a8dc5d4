//! Areion512-HAIFA: a hash function with a digest of 1 to 64 bytes, on a
//! hash value of four lanes and blocks of 64 bytes. Each compression takes
//! in, besides the block, a tweak that holds the digest's length and a
//! count of the message bits taken in so far, the block's own included.

use crate::aes::xor_bytes;
use crate::block::{load, store_at, xor, xor3, AesBlock};
use crate::encoding::{be_bytes, to_be_bytes};
use crate::padding::{
    block_views, blocks_of, marker_padded, marker_padding, tail_of, zeros,
};
use crate::permutation::{areion512, permute_512};
use vstd::arithmetic::div_mod::{lemma_fundamental_div_mod, lemma_mod_multiples_vanish};
use vstd::prelude::*;

verus! {

/// The initial hash value.
pub const IV: [[u8; 16]; 4] = [
    [0x08, 0xc9, 0xbc, 0xf3, 0x67, 0xe6, 0x09, 0x6a, 0x3b, 0xa7, 0xca, 0x84, 0x85, 0xae, 0x67, 0xbb],
    [0x2b, 0xf8, 0x94, 0xfe, 0x72, 0xf3, 0x6e, 0x3c, 0xf1, 0x36, 0x1d, 0x5f, 0x3a, 0xf5, 0x4f, 0xa5],
    [0xd1, 0x82, 0xe6, 0xad, 0x7f, 0x52, 0x0e, 0x51, 0x1f, 0x6c, 0x3e, 0x2b, 0x8c, 0x68, 0x05, 0x9b],
    [0x6b, 0xbd, 0x41, 0xfb, 0xab, 0xd9, 0x83, 0x1f, 0x79, 0x21, 0x7e, 0x13, 0x19, 0xcd, 0xe0, 0x5b],
];

/// The tweak, before the digest's length is added to its last lane.
pub const TWEAK: [[u8; 16]; 4] = [
    [0x2c, 0xf7, 0x2b, 0xfc, 0x94, 0x21, 0x31, 0x22, 0xc2, 0x64, 0x4c, 0xc8, 0xa3, 0x5f, 0x55, 0x9f],
    [0x51, 0xb1, 0x53, 0x6f, 0x6b, 0xb8, 0x93, 0x23, 0xbd, 0xea, 0x40, 0x59, 0x19, 0x77, 0x38, 0x96],
    [0xe3, 0xff, 0x8e, 0xa8, 0xe2, 0x3e, 0x28, 0x96, 0x92, 0x39, 0x86, 0x53, 0x25, 0x1e, 0x5e, 0xbe],
    [0xaa, 0xb8, 0x85, 0x2c, 0xfc, 0x99, 0x01, 0x2b, 0xa2, 0x2c, 0xc5, 0x81, 0xdc, 0x2d, 0xb7, 0x0e],
];

/// Four lanes as bytes.
pub type Lanes = (Seq<u8>, Seq<u8>, Seq<u8>, Seq<u8>);

/// The error of asking for a digest of no bytes, or of more than 64.
#[derive(Clone, Copy, Debug, PartialEq, Eq)]
pub struct InvalidOutputSize;

/// Whether a digest of `output_size` bytes can be had.
pub open spec fn valid_output_size(output_size: usize) -> bool {
    0 < output_size <= 64
}

/// The hash value, the tweak and the bit counter.
pub struct StateView {
    /// The hash value.
    pub h: Lanes,
    /// The tweak.
    pub t: Lanes,
    /// The number of message bits taken in so far, modulo 2^128.
    pub m_len: u128,
}

impl StateView {
    /// The state that a computation with the given digest length starts
    /// from: the length, as 16 bytes with the most significant first, is
    /// added to the tweak's last lane.
    pub open spec fn initial(output_size: usize) -> StateView {
        StateView {
            h: (IV[0]@, IV[1]@, IV[2]@, IV[3]@),
            t: (
                TWEAK[0]@,
                TWEAK[1]@,
                TWEAK[2]@,
                xor_bytes(TWEAK[3]@, be_bytes(output_size as u128, 16)),
            ),
            m_len: 0,
        }
    }

    /// The state after one block of 64 bytes, `bit_len` bits of which are
    /// message. First the counter goes up by `bit_len`. Then the hash value
    /// with the tweak added goes through the permutation, together with the
    /// block and, in the last lane, the new counter as 16 bytes with the
    /// most significant first; what comes out is added to the hash value
    /// with the tweak.
    pub open spec fn compress_block(self, block: Seq<u8>, bit_len: u64) -> StateView {
        let m_len = ((self.m_len + bit_len) % (u128::MAX + 1)) as u128;
        let (m0, m1) = (block.subrange(0, 16), block.subrange(16, 32));
        let (m2, m3) = (block.subrange(32, 48), block.subrange(48, 64));
        let (x0, x1) = (xor_bytes(self.h.0, self.t.0), xor_bytes(self.h.1, self.t.1));
        let (x2, x3) = (xor_bytes(self.h.2, self.t.2), xor_bytes(self.h.3, self.t.3));
        let (y0, y1, y2, y3) = permute_512(
            xor_bytes(x0, m0),
            xor_bytes(x1, m1),
            xor_bytes(x2, m2),
            xor_bytes(x3, xor_bytes(m3, be_bytes(m_len, 16))),
        );
        StateView {
            h: (xor_bytes(x0, y0), xor_bytes(x1, y1), xor_bytes(x2, y2), xor_bytes(x3, y3)),
            t: self.t,
            m_len,
        }
    }

    /// The state after a sequence of blocks, taken in order, each with
    /// `bit_len` bits of message.
    pub open spec fn compress_blocks(self, blocks: Seq<Seq<u8>>, bit_len: u64) -> StateView
        decreases blocks.len(),
    {
        if blocks.len() == 0 {
            self
        } else {
            self.compress_blocks(blocks.drop_last(), bit_len).compress_block(
                blocks.last(),
                bit_len,
            )
        }
    }
}

/// The 64 bytes of a hash value: its four lanes, in order.
pub open spec fn output(h: Lanes) -> Seq<u8> {
    h.0 + h.1 + h.2 + h.3
}

/// What a [`Core`] holds.
pub struct CoreView {
    /// The hash value, the tweak and the bit counter.
    pub state: StateView,
    /// The length of the digest, in bytes.
    pub output_size: usize,
}

impl CoreView {
    /// The state in which a computation with the given digest length
    /// starts.
    pub open spec fn initial(output_size: usize) -> CoreView {
        CoreView { state: StateView::initial(output_size), output_size }
    }

    /// Whether the digest length is one that a core can be made for.
    pub open spec fn wf(self) -> bool {
        valid_output_size(self.output_size)
    }

    /// The state after a reset: the initial one for the same digest length.
    pub open spec fn reset(self) -> CoreView {
        CoreView::initial(self.output_size)
    }

    /// The state after more full blocks.
    pub open spec fn absorb(self, blocks: Seq<Seq<u8>>) -> CoreView {
        CoreView { state: self.state.compress_blocks(blocks, 512), output_size: self.output_size }
    }

    /// The state after the message's last bytes, fewer than a block: they
    /// are padded with the marker byte and zeros to one block, which is
    /// compressed with the number of bits in those last bytes.
    pub open spec fn finalize(self, tail: Seq<u8>) -> CoreView {
        CoreView {
            state: self.state.compress_block(marker_padded(tail, 64), (8 * tail.len()) as u64),
            output_size: self.output_size,
        }
    }

    /// The digest that the state stands for: the leading bytes of the hash
    /// value.
    pub open spec fn digest(self) -> Seq<u8> {
        output(self.state.h).take(self.output_size as int)
    }
}

/// The digest of `output_size` bytes of a message: a fresh state for that
/// length takes in the message's full blocks, is finalized with the rest,
/// and gives the leading bytes of its hash value.
pub open spec fn digest(output_size: usize, data: Seq<u8>) -> Seq<u8> {
    CoreView::initial(output_size).absorb(blocks_of(data, 64)).finalize(tail_of(data, 64)).digest()
}

/// The hash value, the tweak and the bit counter.
#[derive(Clone, Copy, Debug)]
struct State {
    /// The 512-bit hash state.
    h: (AesBlock, AesBlock, AesBlock, AesBlock),
    /// The 512-bit tweak, dependent on the output length.
    t: (AesBlock, AesBlock, AesBlock, AesBlock),
    /// The message length counter, in bits.
    m_len: u128,
}

impl View for State {
    type V = StateView;

    closed spec fn view(&self) -> StateView {
        StateView {
            h: (self.h.0@, self.h.1@, self.h.2@, self.h.3@),
            t: (self.t.0@, self.t.1@, self.t.2@, self.t.3@),
            m_len: self.m_len,
        }
    }
}

impl State {
    /// The state that a computation with the given digest length starts
    /// from.
    fn new(output_size: usize) -> (state: State)
        ensures
            state@ == StateView::initial(output_size),
    {
        let output_size = load(&to_be_bytes(output_size as u128));
        State {
            h: (load(&IV[0]), load(&IV[1]), load(&IV[2]), load(&IV[3])),
            t: (
                load(&TWEAK[0]),
                load(&TWEAK[1]),
                load(&TWEAK[2]),
                xor(load(&TWEAK[3]), output_size),
            ),
            m_len: 0,
        }
    }

    /// Takes in one block, given as 64 bytes of `data` from `at` on.
    fn compress_at(&mut self, data: &[u8], at: usize, bit_len: u64)
        requires
            at + 64 <= data@.len(),
        ensures
            final(self)@ == old(self)@.compress_block(
                data@.subrange(at as int, at + 64),
                bit_len,
            ),
    {
        assert(data@.len() == data.len());
        // The counter goes up before the block is compressed, so that the
        // last block's compression depends on the length of the whole
        // message.
        let m_len = self.m_len.wrapping_add(bit_len as u128);

        let (m0, m1, m2, m3) = (
            load(&data[at..at + 16]),
            load(&data[at + 16..at + 32]),
            load(&data[at + 32..at + 48]),
            load(&data[at + 48..at + 64]),
        );
        proof {
            let block = data@.subrange(at as int, at + 64);
            assert(m0@ =~= block.subrange(0, 16));
            assert(m1@ =~= block.subrange(16, 32));
            assert(m2@ =~= block.subrange(32, 48));
            assert(m3@ =~= block.subrange(48, 64));
        }
        let (h0, h1, h2, h3) = self.h;
        let (t0, t1, t2, t3) = self.t;

        // C(H, T, M, #bits) = P(H ^ T ^ M ^ #bits) ^ H ^ T
        let (x0, x1, x2, x3) = (xor(h0, t0), xor(h1, t1), xor(h2, t2), xor(h3, t3));
        let (y0, y1, y2, y3) = areion512(
            xor(x0, m0),
            xor(x1, m1),
            xor(x2, m2),
            // The counter goes into the permutation only.
            xor3(x3, m3, load(&to_be_bytes(m_len))),
        );
        self.h = (xor(x0, y0), xor(x1, y1), xor(x2, y2), xor(x3, y3));
        self.m_len = m_len;
    }

    /// Takes in blocks, in order, each with `bit_len` bits of message.
    fn compress(&mut self, blocks: &[[u8; 64]], bit_len: u64)
        ensures
            final(self)@ == old(self)@.compress_blocks(block_views(blocks@), bit_len),
    {
        let ghost all = block_views(blocks@);
        let mut i: usize = 0;
        while i < blocks.len()
            invariant
                i <= blocks@.len(),
                all == block_views(blocks@),
                self@ == old(self)@.compress_blocks(all.take(i as int), bit_len),
            decreases blocks@.len() - i,
        {
            let block = &blocks[i];
            assert(block@.subrange(0, 64) =~= block@);
            self.compress_at(block, 0, bit_len);
            i += 1;
            assert(all.take(i as int).drop_last() =~= all.take(i - 1));
        }
        assert(all.take(i as int) =~= all);
    }

    /// Takes in the full blocks at the front of `data`, in order.
    fn compress_bytes(&mut self, data: &[u8])
        ensures
            final(self)@ == old(self)@.compress_blocks(blocks_of(data@, 64), 512),
    {
        let ghost all = blocks_of(data@, 64);
        let n = data.len() / 64;
        let mut i: usize = 0;
        while i < n
            invariant
                i <= n,
                n == data@.len() / 64,
                data@.len() == data.len(),
                all == blocks_of(data@, 64),
                self@ == old(self)@.compress_blocks(all.take(i as int), 512),
            decreases n - i,
        {
            self.compress_at(data, 64 * i, 512);
            i += 1;
            assert(all.take(i as int).drop_last() =~= all.take(i - 1));
        }
        assert(all.take(i as int) =~= all);
    }
}

/// The state of an Areion512-HAIFA computation.
#[derive(Debug)]
pub struct Core {
    state: State,
    output_size: usize,
}

impl View for Core {
    type V = CoreView;

    closed spec fn view(&self) -> CoreView {
        CoreView { state: self.state@, output_size: self.output_size }
    }
}

impl Clone for Core {
    fn clone(&self) -> (core: Core)
        ensures
            core@ == self@,
    {
        Core { state: self.state, output_size: self.output_size }
    }
}

impl Core {
    /// A fresh state for a digest of `output_size` bytes, where there is
    /// such a digest.
    pub fn new(output_size: usize) -> (result: Result<Core, InvalidOutputSize>)
        ensures
            result is Ok <==> valid_output_size(output_size),
            result matches Ok(core) ==> core@ == CoreView::initial(output_size),
    {
        if !(0 < output_size && output_size <= 64) {
            return Err(InvalidOutputSize);
        }
        Ok(Core { state: State::new(output_size), output_size })
    }

    /// The name of the algorithm.
    pub fn alg_name() -> (name: &'static str)
        ensures
            name@ == "Areion512-HAIFA"@,
    {
        "Areion512-HAIFA"
    }

    /// Takes in full blocks of the message, in order.
    pub fn update_blocks(&mut self, blocks: &[[u8; 64]])
        ensures
            final(self)@ == old(self)@.absorb(block_views(blocks@)),
    {
        self.state.compress(blocks, 512);
    }

    /// Takes in the last bytes of the message, fewer than a block, with
    /// their padding, and gives the digest.
    pub fn finalize_variable_core(&mut self, buffer: &[u8]) -> (out: Vec<u8>)
        requires
            old(self)@.wf(),
            buffer@.len() < 64,
        ensures
            final(self)@ == old(self)@.finalize(buffer@),
            out@ == final(self)@.digest(),
            out@.len() == final(self)@.output_size,
    {
        let bit_len = buffer.len() as u64 * 8;
        let padded = marker_padding(buffer, 64);
        assert(padded@.subrange(0, 64) =~= padded@);
        self.state.compress_at(padded.as_slice(), 0, bit_len);

        let mut tmp = [0u8; 64];
        store_at(&mut tmp, 0, self.state.h.0);
        store_at(&mut tmp, 16, self.state.h.1);
        store_at(&mut tmp, 32, self.state.h.2);
        store_at(&mut tmp, 48, self.state.h.3);
        proof {
            self.state.h.0.lemma_len();
            self.state.h.1.lemma_len();
            self.state.h.2.lemma_len();
            self.state.h.3.lemma_len();
            assert(tmp@ =~= output(self@.state.h));
        }
        let mut out: Vec<u8> = Vec::new();
        let mut i: usize = 0;
        while i < self.output_size
            invariant
                i <= self.output_size <= 64,
                out@ == tmp@.take(i as int),
            decreases self.output_size - i,
        {
            out.push(tmp[i]);
            i += 1;
            assert(out@ =~= tmp@.take(i as int));
        }
        out
    }

    /// Goes back to the state in which a computation with the same digest
    /// length starts.
    pub fn reset(&mut self)
        ensures
            final(self)@ == old(self)@.reset(),
    {
        self.state = State::new(self.output_size);
    }
}

/// The Areion512-HAIFA digest of `output_size` bytes of a message, where
/// there is such a digest.
pub fn hash(output_size: usize, data: &[u8]) -> (result: Result<Vec<u8>, InvalidOutputSize>)
    ensures
        result is Ok <==> valid_output_size(output_size),
        result matches Ok(out) ==> out@ == digest(output_size, data@) && out@.len() == output_size,
{
    match Core::new(output_size) {
        Ok(mut core) => {
            let n = data.len() / 64;
            core.state.compress_bytes(data);
            Ok(core.finalize_variable_core(&data[64 * n..data.len()]))
        },
        Err(e) => Err(e),
    }
}

/// Blocks may be taken in one after the other or all at once: the state is
/// the same.
pub proof fn lemma_compress_blocks_concat(
    state: StateView,
    first: Seq<Seq<u8>>,
    second: Seq<Seq<u8>>,
    bit_len: u64,
)
    ensures
        state.compress_blocks(first + second, bit_len) == state.compress_blocks(
            first,
            bit_len,
        ).compress_blocks(second, bit_len),
    decreases second.len(),
{
    if second.len() == 0 {
        assert(first + second =~= first);
    } else {
        lemma_compress_blocks_concat(state, first, second.drop_last(), bit_len);
        assert((first + second).drop_last() =~= first + second.drop_last());
    }
}

/// A message may be fed to a core in any number of calls: what counts is
/// the sequence of its blocks.
pub proof fn lemma_absorb_concat(core: CoreView, first: Seq<Seq<u8>>, second: Seq<Seq<u8>>)
    ensures
        core.absorb(first).absorb(second) == core.absorb(first + second),
{
    lemma_compress_blocks_concat(core.state, first, second, 512);
}

/// A core that was used for something else and then reset gives the same
/// digest as a fresh one for the same digest length.
pub proof fn lemma_reset_digest(used: CoreView, data: Seq<u8>)
    ensures
        used.reset().absorb(blocks_of(data, 64)).finalize(tail_of(data, 64)).digest() == digest(
            used.output_size,
            data,
        ),
{
}

/// The empty message still goes through one compression, that of a block
/// of padding alone.
pub proof fn lemma_empty_message_digest(output_size: usize)
    ensures
        digest(output_size, Seq::empty()) == CoreView::initial(output_size).finalize(
            Seq::empty(),
        ).digest(),
        CoreView::initial(output_size).finalize(Seq::empty()).state
            == StateView::initial(output_size).compress_block(seq![0x80u8] + zeros(63), 0),
{
    let empty = Seq::<u8>::empty();
    assert(blocks_of(empty, 64) =~= Seq::<Seq<u8>>::empty());
    assert(tail_of(empty, 64) =~= empty);
    assert(marker_padded(empty, 64) =~= seq![0x80u8] + zeros(63));
}

/// Taking in blocks and finalizing change neither the tweak nor the digest
/// length.
pub proof fn lemma_tweak_fixed(core: CoreView, blocks: Seq<Seq<u8>>, tail: Seq<u8>)
    ensures
        core.absorb(blocks).state.t == core.state.t,
        core.absorb(blocks).output_size == core.output_size,
        core.finalize(tail).state.t == core.state.t,
        core.finalize(tail).output_size == core.output_size,
    decreases blocks.len(),
{
    if blocks.len() > 0 {
        lemma_tweak_fixed(core, blocks.drop_last(), tail);
    }
}

/// Each full block moves the bit counter on by 512.
pub proof fn lemma_bit_counter_of_blocks(state: StateView, blocks: Seq<Seq<u8>>)
    ensures
        state.compress_blocks(blocks, 512).m_len == (state.m_len + 512 * blocks.len()) % (u128::MAX
            + 1),
    decreases blocks.len(),
{
    if blocks.len() > 0 {
        lemma_bit_counter_of_blocks(state, blocks.drop_last());
    }
}

/// The bit counter that goes into the last compression is the length of the
/// whole message, in bits.
pub proof fn lemma_message_bit_length(output_size: usize, data: Seq<u8>)
    ensures
        CoreView::initial(output_size).absorb(blocks_of(data, 64)).finalize(
            tail_of(data, 64),
        ).state.m_len == (8 * data.len() as int) % (u128::MAX + 1),
{
    let modulus = u128::MAX + 1;
    let (full, tail) = (blocks_of(data, 64).len() as int, tail_of(data, 64).len() as int);
    lemma_bit_counter_of_blocks(StateView::initial(output_size), blocks_of(data, 64));
    lemma_fundamental_div_mod(data.len() as int, 64);
    lemma_fundamental_div_mod(512 * full, modulus);
    lemma_mod_multiples_vanish(-((512 * full) / modulus), 8 * data.len() as int, modulus);
    assert((8 * tail) as u64 == 8 * tail);
}

} // verus!

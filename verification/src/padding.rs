//! Splitting a message into blocks, and the padding of its last block.

use crate::encoding::{be_bytes, nth_byte};
use vstd::arithmetic::div_mod::{
    lemma_fundamental_div_mod, lemma_mod_multiples_vanish, lemma_mod_self_0, lemma_small_mod,
};
use vstd::prelude::*;

verus! {

/// `n` zero bytes.
pub open spec fn zeros(n: nat) -> Seq<u8> {
    Seq::new(n, |i: int| 0u8)
}

/// The full blocks of `size` bytes at the front of a message, in order.
pub open spec fn blocks_of(data: Seq<u8>, size: nat) -> Seq<Seq<u8>> {
    Seq::new(data.len() / size, |i: int| data.subrange(i * size, i * size + size))
}

/// The blocks of a slice of arrays as byte sequences.
pub open spec fn block_views<const N: usize>(blocks: Seq<[u8; N]>) -> Seq<Seq<u8>> {
    Seq::new(blocks.len(), |i: int| blocks[i]@)
}

/// What is left of a message behind its full blocks: fewer than `size`
/// bytes.
pub open spec fn tail_of(data: Seq<u8>, size: nat) -> Seq<u8> {
    data.subrange((data.len() / size * size) as int, data.len() as int)
}

/// The length of a padded tail: one block where the marker byte and the
/// length field fit behind the tail, two blocks where they do not.
pub open spec fn padded_len(tail_len: nat, block_size: nat, len_size: nat) -> nat {
    if tail_len + 1 + len_size <= block_size {
        block_size
    } else {
        2 * block_size
    }
}

/// Merkle-Damgard strengthening: the tail, the byte `0x80`, zeros, and in
/// the last `len_size` bytes the message's length in bits, most significant
/// byte first.
pub open spec fn length_padded(tail: Seq<u8>, bit_len: u128, block_size: nat, len_size: nat) -> Seq<
    u8,
> {
    let total = padded_len(tail.len(), block_size, len_size);
    tail + seq![0x80u8] + zeros((total - tail.len() - 1 - len_size) as nat) + be_bytes(
        bit_len,
        len_size,
    )
}

/// A whole message with its Merkle-Damgard strengthening: behind the
/// message come the byte `0x80`, as few zeros as make the whole a multiple
/// of the block size, and in the last `len_size` bytes the number `bit_len`,
/// most significant byte first.
pub open spec fn strengthened(data: Seq<u8>, bit_len: u128, block_size: nat, len_size: nat) -> Seq<
    u8,
> {
    let used = (data.len() + 1 + len_size) as int % (block_size as int);
    let fill = (block_size - used) % (block_size as int);
    data + seq![0x80u8] + zeros(fill as nat) + be_bytes(bit_len, len_size)
}

/// Padding without a length field: the tail, the byte `0x80`, and zeros up
/// to the end of the block.
pub open spec fn marker_padded(tail: Seq<u8>, block_size: nat) -> Seq<u8> {
    tail + seq![0x80u8] + zeros((block_size - tail.len() - 1) as nat)
}

/// The bit length of a message, modulo some number, can be had from the
/// length of its tail and the count of its blocks modulo that number.
pub proof fn lemma_bit_length_split(len: int, size: int, modulus: int)
    requires
        len >= 0,
        size > 0,
        modulus > 0,
    ensures
        (8 * (len % size + size * ((len / size) % modulus))) % modulus == (8 * len) % modulus,
        len / size * size == len - len % size,
{
    let (q, r) = (len / size, len % size);
    let (k, q1) = (q / modulus, q % modulus);
    lemma_fundamental_div_mod(len, size);
    lemma_fundamental_div_mod(q, modulus);
    assert(8 * (r + size * q1) == modulus * (-(8 * size * k)) + 8 * len) by (nonlinear_arith)
        requires
            len == size * q + r,
            q == modulus * k + q1,
    ;
    lemma_mod_multiples_vanish(-(8 * size * k), 8 * len, modulus);
    assert(q * size == size * q) by (nonlinear_arith);
}

/// The blocks of two pieces of a message, the first of which ends at a
/// block boundary, are the blocks of the first and then those of the second.
pub proof fn lemma_blocks_of_concat(first: Seq<u8>, second: Seq<u8>, size: nat)
    requires
        size > 0,
        first.len() % size == 0,
    ensures
        blocks_of(first + second, size) == blocks_of(first, size) + blocks_of(second, size),
{
    let (n, m) = (first.len() as int, second.len() as int);
    let (q, p) = (n / size as int, m / size as int);
    lemma_fundamental_div_mod(n, size as int);
    lemma_fundamental_div_mod(m, size as int);
    assert(n == size * q);
    assert((n + m) / size as int == q + p) by {
        lemma_fundamental_div_mod(n + m, size as int);
        let k = (n + m) / size as int;
        assert(size * (k - q - p) == size * k - size * q - size * p) by (nonlinear_arith);
        assert(k - q - p == 0) by (nonlinear_arith)
            requires
                size > 0,
                -(size as int) < size * (k - q - p) < size,
        ;
    }
    let whole = blocks_of(first + second, size);
    let parts = blocks_of(first, size) + blocks_of(second, size);
    assert(whole.len() == parts.len());
    assert forall|i: int| 0 <= i < whole.len() implies whole[i] == parts[i] by {
        if i < q {
            assert(i * size + size <= n) by (nonlinear_arith)
                requires
                    i + 1 <= q,
                    n == size * q,
                    size > 0,
            ;
            assert(i * size >= 0) by (nonlinear_arith)
                requires
                    i >= 0,
            ;
            assert((first + second).subrange(i * size, i * size + size) =~= first.subrange(
                i * size,
                i * size + size,
            ));
        } else {
            let j = i - q;
            assert(i * size == n + j * size) by (nonlinear_arith)
                requires
                    j == i - q,
                    n == size * q,
            ;
            assert(j * size >= 0 && j * size + size <= m) by (nonlinear_arith)
                requires
                    0 <= j,
                    j + 1 <= p,
                    size * p <= m,
                    size > 0,
            ;
            assert((first + second).subrange(i * size, i * size + size) =~= second.subrange(
                j * size,
                j * size + size,
            ));
        }
    }
    assert(whole =~= parts);
}

/// A message with its strengthening is the message's full blocks followed
/// by its padded tail, and both parts end at a block boundary.
pub proof fn lemma_strengthened_split(data: Seq<u8>, bit_len: u128, block_size: nat, len_size: nat)
    requires
        len_size < block_size,
    ensures
        ({
            let full = data.subrange(0, data.len() - tail_of(data, block_size).len());
            &&& full.len() % block_size == 0
            &&& blocks_of(full, block_size) == blocks_of(data, block_size)
            &&& strengthened(data, bit_len, block_size, len_size) == full + length_padded(
                tail_of(data, block_size),
                bit_len,
                block_size,
                len_size,
            )
        }),
{
    let (n, size) = (data.len() as int, block_size as int);
    let (q, t) = (n / size, n % size);
    lemma_fundamental_div_mod(n, size);
    assert(q * size == size * q) by (nonlinear_arith);
    let tail = tail_of(data, block_size);
    assert(tail.len() == t);
    let full = data.subrange(0, n - t);
    assert(full.len() % block_size == 0 && full.len() as int / size == q) by {
        lemma_mod_multiples_vanish(q, 0, size);
        lemma_fundamental_div_mod(size * q, size);
        let k = (size * q) / size;
        assert(size * (k - q) == size * k - size * q) by (nonlinear_arith);
        assert(k - q == 0) by (nonlinear_arith)
            requires
                size > 0,
                size * (k - q) == 0,
        ;
    }
    assert(blocks_of(full, block_size) =~= blocks_of(data, block_size)) by {
        assert forall|i: int| 0 <= i < q implies #[trigger] full.subrange(
            i * size,
            i * size + size,
        ) == data.subrange(i * size, i * size + size) by {
            assert(0 <= i * size && i * size + size <= size * q) by (nonlinear_arith)
                requires
                    0 <= i,
                    i + 1 <= q,
                    size > 0,
            ;
            assert(full.subrange(i * size, i * size + size) =~= data.subrange(
                i * size,
                i * size + size,
            ));
        }
    }
    // The zeros behind the marker byte are as many on both sides.
    let used = (n + 1 + len_size) % size;
    let fill = (size - used) % size;
    let total = padded_len(tail.len(), block_size, len_size);
    assert(fill == total - t - 1 - len_size) by {
        let behind = t + 1 + len_size;
        lemma_mod_multiples_vanish(q, behind, size);
        assert(used == behind % size);
        if behind < size {
            lemma_small_mod(behind as nat, block_size);
            lemma_small_mod((size - behind) as nat, block_size);
        } else if behind == size {
            lemma_mod_self_0(size);
        } else {
            lemma_mod_multiples_vanish(1, behind - size, size);
            lemma_small_mod((behind - size) as nat, block_size);
            lemma_small_mod((2 * size - behind) as nat, block_size);
        }
    }
    assert(data =~= full + tail);
    assert(strengthened(data, bit_len, block_size, len_size) =~= full + length_padded(
        tail,
        bit_len,
        block_size,
        len_size,
    ));
}

/// Pads the tail of a message with the marker byte, zeros and the length
/// field, to one block or two.
pub fn length_padding(tail: &[u8], bit_len: u128, block_size: usize, len_size: usize) -> (out: Vec<
    u8,
>)
    requires
        tail@.len() < block_size,
        len_size < block_size,
        len_size <= 16,
        2 * block_size <= usize::MAX,
    ensures
        out@ == length_padded(tail@, bit_len, block_size as nat, len_size as nat),
        out@.len() == padded_len(tail@.len(), block_size as nat, len_size as nat),
{
    let total: usize = if tail.len() + 1 + len_size <= block_size {
        block_size
    } else {
        2 * block_size
    };
    let ghost want = length_padded(tail@, bit_len, block_size as nat, len_size as nat);
    let mut out: Vec<u8> = Vec::new();
    let mut i: usize = 0;
    while i < tail.len()
        invariant
            i <= tail@.len(),
            out@ == tail@.subrange(0, i as int),
        decreases tail@.len() - i,
    {
        out.push(tail[i]);
        i += 1;
        assert(out@ =~= tail@.subrange(0, i as int));
    }
    assert(out@ =~= tail@);
    out.push(0x80);
    let ghost head = out@;
    while out.len() < total - len_size
        invariant
            head == tail@ + seq![0x80u8],
            head.len() <= out@.len() <= total - len_size,
            out@ == head + zeros((out@.len() - head.len()) as nat),
        decreases total - len_size - out@.len(),
    {
        out.push(0);
        assert(out@ =~= head + zeros((out@.len() - head.len()) as nat));
    }
    let ghost body = out@;
    let mut k: usize = 0;
    while k < len_size
        invariant
            k <= len_size <= 16,
            out@ == body + be_bytes(bit_len, len_size as nat).subrange(0, k as int),
        decreases len_size - k,
    {
        out.push(nth_byte(bit_len, len_size - 1 - k));
        k += 1;
        assert(out@ =~= body + be_bytes(bit_len, len_size as nat).subrange(0, k as int));
    }
    assert(out@ =~= want);
    out
}

/// Pads the tail of a message with the marker byte and zeros, to one block.
pub fn marker_padding(tail: &[u8], block_size: usize) -> (out: Vec<u8>)
    requires
        tail@.len() < block_size,
    ensures
        out@ == marker_padded(tail@, block_size as nat),
        out@.len() == block_size,
{
    let mut out: Vec<u8> = Vec::new();
    let mut i: usize = 0;
    while i < tail.len()
        invariant
            i <= tail@.len(),
            out@ == tail@.subrange(0, i as int),
        decreases tail@.len() - i,
    {
        out.push(tail[i]);
        i += 1;
        assert(out@ =~= tail@.subrange(0, i as int));
    }
    assert(out@ =~= tail@);
    out.push(0x80);
    let ghost head = out@;
    while out.len() < block_size
        invariant
            head == tail@ + seq![0x80u8],
            head.len() <= out@.len() <= block_size,
            out@ == head + zeros((out@.len() - head.len()) as nat),
        decreases block_size - out@.len(),
    {
        out.push(0);
        assert(out@ =~= head + zeros((out@.len() - head.len()) as nat));
    }
    out
}

} // verus!

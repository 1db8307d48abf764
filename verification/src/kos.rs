//! The KOS15 correlated oblivious-transfer extension.

pub mod error;
pub mod laws;
pub mod msgs;
pub mod receiver;
pub mod sender;

use crate::bits::{bit_at, byte_bit, lemma_byte_xor_bit};
use crate::block::{lemma_be_bytes_of_value, lsb0_bit, Block};
use crate::matrix::Matrix;
use crate::prg::Prg;
use vstd::prelude::*;

verus! {

/// Computational security parameter: the number of base OTs.
pub const CSP: usize = 128;

/// Statistical security parameter.
pub const SSP: usize = 128;

/// Number of extended OTs that a consistency check gives up.
pub const SACRIFICED: usize = 256;

/// Configuration of the sender.
#[derive(Debug, Clone, Copy, PartialEq, Eq, Structural)]
pub struct SenderConfig {
    receiver_commit: bool,
}

impl SenderConfig {
    /// A configuration; `receiver_commit` says whether the receiver commits
    /// to what it receives.
    pub fn new(receiver_commit: bool) -> (c: Self)
        ensures
            c.spec_receiver_commit() == receiver_commit,
    {
        SenderConfig { receiver_commit }
    }

    pub closed spec fn spec_receiver_commit(&self) -> bool {
        self.receiver_commit
    }

    /// Whether the receiver commits to what it receives.
    #[verifier::when_used_as_spec(spec_receiver_commit)]
    pub fn receiver_commit(&self) -> (b: bool)
        ensures
            b == self.spec_receiver_commit(),
    {
        self.receiver_commit
    }
}

/// Configuration of the receiver.
#[derive(Debug, Clone, Copy, PartialEq, Eq, Structural)]
pub struct ReceiverConfig {
    receiver_commit: bool,
}

impl ReceiverConfig {
    /// A configuration; with `receiver_commit` the receiver keeps a digest
    /// of every batch of ciphertexts that it receives.
    pub fn new(receiver_commit: bool) -> (c: Self)
        ensures
            c.spec_receiver_commit() == receiver_commit,
    {
        ReceiverConfig { receiver_commit }
    }

    pub closed spec fn spec_receiver_commit(&self) -> bool {
        self.receiver_commit
    }

    /// Whether the receiver commits to what it receives.
    #[verifier::when_used_as_spec(spec_receiver_commit)]
    pub fn receiver_commit(&self) -> (b: bool)
        ensures
            b == self.spec_receiver_commit(),
    {
        self.receiver_commit
    }
}

/// The number of OTs that an extension of `count` OTs makes: `count`
/// rounded up to a multiple of 64.
pub open spec fn extension_count(count: nat) -> nat {
    ((count + 63) / 64) * 64
}

/// An extension makes a multiple of 64 OTs, at least as many as asked for
/// and fewer than 64 more.
pub proof fn lemma_extension_count(count: nat)
    ensures
        extension_count(count) % 64 == 0,
        count <= extension_count(count) < count + 64,
        extension_count(0) == 0,
{
}

/// Rounds the number of OTs to extend up to a multiple of 64.
pub fn round_up(count: usize) -> (rc: usize)
    requires
        count + 63 <= usize::MAX,
    ensures
        rc == extension_count(count as nat),
{
    ((count + 63) / 64) * 64
}

/// The exclusive or of `q` with `u` where `bit` holds, and `q` itself where
/// it does not. The bit selects a mask; no branch depends on it in the loop.
pub fn xor_sel(q: &[u8], u: &[u8], bit: bool) -> (out: Vec<u8>)
    requires
        q@.len() == u@.len(),
    ensures
        out@.len() == q@.len(),
        forall|k: int|
            0 <= k < 8 * q@.len() ==> #[trigger] bit_at(out@, k) == (bit_at(q@, k) != (bit
                && bit_at(u@, k))),
{
    let mask: u8 = if bit {
        0xff
    } else {
        0
    };
    let n = q.len();
    let mut out: Vec<u8> = Vec::new();
    let mut i: usize = 0;
    while i < n
        invariant
            i <= n,
            n == u@.len(),
            n == q@.len(),
            out@.len() == i,
            mask == (if bit {
                0xffu8
            } else {
                0u8
            }),
            forall|b: int, k: u8|
                0 <= b < i && k < 8 ==> #[trigger] byte_bit(out@[b], k) == (byte_bit(q@[b], k) != (
                bit && byte_bit(u@[b], k))),
        decreases n - i,
    {
        let a = q[i];
        let m = u[i] & mask;
        out.push(a ^ m);
        proof {
            let ub = u@[i as int];
            assert(m == (if bit {
                ub
            } else {
                0u8
            })) by (bit_vector)
                requires
                    m == ub & mask,
                    mask == (if bit {
                        0xffu8
                    } else {
                        0u8
                    }),
            ;
            assert forall|k: u8| k < 8 implies byte_bit(a ^ m, k) == (byte_bit(a, k) != (bit
                && byte_bit(ub, k))) by {
                lemma_byte_xor_bit(a, m, k);
                assert(!byte_bit(0u8, k)) by {
                    assert((0u8 >> k) & 1u8 != 1u8) by (bit_vector);
                }
            }
        }
        i = i + 1;
    }
    proof {
        assert forall|k: int| 0 <= k < 8 * q@.len() implies #[trigger] bit_at(out@, k) == (bit_at(
            q@,
            k,
        ) != (bit && bit_at(u@, k))) by {
            let b = k / 8;
            let kk = (k % 8) as u8;
            assert(byte_bit(out@[b], kk) == (byte_bit(q@[b], kk) != (bit && byte_bit(u@[b], kk))));
        }
    }
    out
}

/// Reads the next `w` bytes of each generator.
pub fn next_rows(rngs: &mut Vec<Prg>, w: usize) -> (rows: Vec<Vec<u8>>)
    ensures
        final(rngs)@.len() == old(rngs)@.len(),
        rows@.len() == old(rngs)@.len(),
        forall|i: int|
            0 <= i < rows@.len() ==> (#[trigger] rows@[i])@ == old(rngs)@[i]@.output(w as nat)
                && rows@[i]@.len() == w,
        forall|i: int|
            0 <= i < rows@.len() ==> (#[trigger] final(rngs)@[i])@ == old(rngs)@[i]@.advance(
                w as nat,
            ),
{
    let n = rngs.len();
    let mut rows: Vec<Vec<u8>> = Vec::new();
    let mut i: usize = 0;
    while i < n
        invariant
            i <= n,
            n == rngs@.len(),
            n == old(rngs)@.len(),
            rows@.len() == i,
            forall|k: int|
                0 <= k < i ==> (#[trigger] rows@[k])@ == old(rngs)@[k]@.output(w as nat)
                    && rows@[k]@.len() == w,
            forall|k: int| 0 <= k < i ==> (#[trigger] rngs@[k])@ == old(rngs)@[k]@.advance(w as nat),
            forall|k: int| i <= k < n ==> #[trigger] rngs@[k] == old(rngs)@[k],
        decreases n - i,
    {
        let mut p = rngs[i];
        let row = p.fill_bytes(w);
        rngs.set(i, p);
        rows.push(row);
        i = i + 1;
    }
    rows
}

/// A row pushed onto a matrix of `i` rows becomes row `i`; the rows before
/// it stay.
pub proof fn lemma_pushed_row(data: Seq<u8>, row: Seq<u8>, i: int)
    requires
        row.len() > 0,
        0 <= i,
        data.len() == i * row.len(),
    ensures
        (data + row).len() == (i + 1) * row.len(),
        forall|k: int, j: int|
            0 <= k < i && 0 <= j < 8 * row.len() ==> #[trigger] (crate::matrix::MatrixView {
                data: data + row,
                row_width: row.len(),
            }).bit(k, j) == (crate::matrix::MatrixView { data, row_width: row.len() }).bit(k, j),
        forall|j: int|
            0 <= j < 8 * row.len() ==> #[trigger] (crate::matrix::MatrixView {
                data: data + row,
                row_width: row.len(),
            }).bit(i, j) == bit_at(row, j),
{
    let w = row.len() as int;
    assert(i * w + w == (i + 1) * w) by (nonlinear_arith);
    assert forall|k: int, j: int| 0 <= k < i && 0 <= j < 8 * w implies #[trigger] (
    crate::matrix::MatrixView { data: data + row, row_width: row.len() }).bit(k, j) == (
    crate::matrix::MatrixView { data, row_width: row.len() }).bit(k, j) by {
        crate::matrix::lemma_cell_in_bounds(k, i, w, j / 8);
        assert((data + row)[k * w + j / 8] == data[k * w + j / 8]);
    }
    assert forall|j: int| 0 <= j < 8 * w implies #[trigger] (crate::matrix::MatrixView {
        data: data + row,
        row_width: row.len(),
    }).bit(i, j) == bit_at(row, j) by {
        assert((data + row)[i * w + j / 8] == row[j / 8]);
    }
}

/// In a matrix of rows of `w` bytes, bit `j` of row `i` is bit `8 * w * i + j`
/// of the bytes.
pub proof fn lemma_matrix_bit_at(data: Seq<u8>, w: nat, i: int, j: int)
    requires
        w > 0,
        0 <= i,
        0 <= j < 8 * w,
    ensures
        (crate::matrix::MatrixView { data, row_width: w }).bit(i, j) == bit_at(
            data,
            i * (8 * w) + j,
        ),
{
    assert(i * (8 * w) == 8 * (i * w)) by (nonlinear_arith);
    assert(0 <= i * w) by (nonlinear_arith)
        requires
            0 <= i,
            0 <= w,
    ;
    assert((i * (8 * w) + j) / 8 == i * w + j / 8);
    assert((i * (8 * w) + j) % 8 == j % 8);
}

/// The bytes of a sequence of blocks, block after block.
pub open spec fn blocks_bytes(blocks: Seq<Block>) -> Seq<u8>
    decreases blocks.len(),
{
    if blocks.len() == 0 {
        Seq::empty()
    } else {
        blocks_bytes(blocks.drop_last()) + crate::block::be_bytes(blocks.last()@)
    }
}

/// The bytes of a vector of blocks, block after block.
pub fn blocks_to_bytes(blocks: &[Block]) -> (out: Vec<u8>)
    ensures
        out@ == blocks_bytes(blocks@),
{
    let mut out: Vec<u8> = Vec::new();
    let mut i: usize = 0;
    while i < blocks.len()
        invariant
            i <= blocks@.len(),
            out@ == blocks_bytes(blocks@.take(i as int)),
        decreases blocks@.len() - i,
    {
        let bytes = blocks[i].to_bytes();
        out.extend_from_slice(bytes.as_slice());
        proof {
            let next = blocks@.take(i + 1);
            assert(next.drop_last() =~= blocks@.take(i as int));
            assert(next.last() == blocks@[i as int]);
            assert(out@ =~= blocks_bytes(blocks@.take(i as int)) + bytes@);
        }
        i = i + 1;
    }
    assert(blocks@.take(blocks@.len() as int) =~= blocks@);
    out
}

/// Transposes 128 rows of bits into blocks: bit `i` of block `j` is bit
/// `j` of row `i`.
pub fn transpose_to_blocks(m: Matrix) -> (out: Vec<Block>)
    requires
        m@.wf(),
        m@.rows() == 128,
    ensures
        out@.len() == 8 * m@.row_width,
        forall|j: int, i: int|
            0 <= j < out@.len() && 0 <= i < 128 ==> #[trigger] lsb0_bit(out@[j]@, i) == m@.bit(
                i,
                j,
            ),
{
    let ghost src = m@;
    let mut m = m;
    let res = m.transpose_bits();
    assert(res is Ok);
    let ghost t = m@;
    let n = m.rows();
    assert(t.data.len() == src.data.len());
    assert(src.data.len() == 128 * src.row_width) by {
        vstd::arithmetic::div_mod::lemma_fundamental_div_mod(
            src.data.len() as int,
            src.row_width as int,
        );
        assert(src.row_width * 128 == 128 * src.row_width) by (nonlinear_arith);
    }
    assert(n == 8 * src.row_width);
    let total = m.len();
    let data = m.inner();
    let mut out: Vec<Block> = Vec::new();
    let mut j: usize = 0;
    while j < n
        invariant
            j <= n,
            n == 8 * src.row_width,
            data@ == t.data,
            t.data.len() == 16 * n,
            t.data.len() <= usize::MAX,
            t.row_width == 16,
            src.transposes_to(t),
            src.rows() == 128,
            out@.len() == j,
            forall|jj: int, i: int|
                0 <= jj < j && 0 <= i < 128 ==> #[trigger] lsb0_bit(out@[jj]@, i) == src.bit(
                    i,
                    jj,
                ),
        decreases n - j,
    {
        let row = vstd::slice::slice_subrange(data, 16 * j, 16 * j + 16);
        let b = Block::from_slice(row);
        proof {
            lemma_be_bytes_of_value(row@);
            assert forall|i: int| 0 <= i < 128 implies lsb0_bit(b@, i) == src.bit(i, j as int) by {
                assert(row@[i / 8] == t.data[j * 16 + i / 8]);
                assert(bit_at(row@, i) == t.bit(j as int, i));
                assert(t.bit(j as int, i) == src.bit(i, j as int));
            }
        }
        out.push(b);
        j = j + 1;
    }
    out
}

} // verus!

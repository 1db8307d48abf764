//! Bit-packed byte matrix, stored row by row.

use crate::bits::{byte_bit, get_bit, lemma_byte_ext, with_bit};
use core::ops::Range;
use vstd::arithmetic::div_mod::lemma_fundamental_div_mod;
use vstd::prelude::*;

verus! {

/// What a [`Matrix`] holds: its bytes, row after row, and the width of a row in bytes.
pub struct MatrixView {
    pub data: Seq<u8>,
    pub row_width: nat,
}

impl MatrixView {
    /// The matrix is rectangular: rows are not empty and the bytes fill whole rows.
    pub open spec fn wf(self) -> bool {
        self.row_width > 0 && self.data.len() % self.row_width == 0
    }

    /// Number of rows.
    pub open spec fn rows(self) -> nat {
        self.data.len() / self.row_width
    }

    /// Row `r` as bytes.
    pub open spec fn row(self, r: int) -> Seq<u8> {
        self.data.subrange(r * self.row_width, (r + 1) * self.row_width)
    }

    /// The bit in row `r`, column `c`; column `c` is bit `c % 8` (least
    /// significant first) of the row's byte `c / 8`.
    pub open spec fn bit(self, r: int, c: int) -> bool {
        byte_bit(self.data[r * self.row_width + c / 8], (c % 8) as u8)
    }

    /// The dimensions allow a bitwise transpose: at least one row, and the
    /// number of rows is a multiple of eight.
    pub open spec fn transposable(self) -> bool {
        self.wf() && self.rows() > 0 && self.rows() % 8 == 0
    }

    /// `t` is the bitwise transpose of `self`.
    pub open spec fn transposes_to(self, t: MatrixView) -> bool {
        &&& self.transposable()
        &&& t.row_width == self.rows() / 8
        &&& t.data.len() == self.data.len()
        &&& forall|r: int, c: int|
            0 <= r < self.rows() && 0 <= c < 8 * self.row_width ==> #[trigger] t.bit(c, r)
                == self.bit(r, c)
    }
}

/// Why a matrix could not be transposed bitwise.
#[derive(Debug, Clone, Copy, PartialEq, Eq, Structural)]
pub enum TransposeError {
    /// The bytes do not fill whole rows, or rows are empty.
    NotRectangular,
    /// The matrix has no rows.
    Empty,
    /// The number of rows is not a multiple of eight.
    RowCount,
}

/// Errors of matrix operations.
#[derive(Debug, Clone, Copy, PartialEq, Eq, Structural)]
pub enum MatrixError {
    Transpose(TransposeError),
}

/// The error that a bitwise transpose of `m` reports, if any.
pub open spec fn transpose_error(m: MatrixView) -> Option<TransposeError> {
    if !m.wf() {
        Some(TransposeError::NotRectangular)
    } else if m.rows() == 0 {
        Some(TransposeError::Empty)
    } else if m.rows() % 8 != 0 {
        Some(TransposeError::RowCount)
    } else {
        None
    }
}

/// Byte matrix.
#[derive(Debug, Clone)]
pub struct Matrix {
    data: Vec<u8>,
    row_width: usize,
}

impl View for Matrix {
    type V = MatrixView;

    closed spec fn view(&self) -> MatrixView {
        MatrixView { data: self.data@, row_width: self.row_width as nat }
    }
}

/// Cell `b` of row `r` lies within the first `rows` rows of a matrix of width `w`.
pub proof fn lemma_cell_in_bounds(r: int, rows: int, w: int, b: int)
    requires
        0 <= r < rows,
        0 <= b < w,
    ensures
        0 <= r * w + b < rows * w,
        r * w + w <= rows * w,
        r * w + w == (r + 1) * w,
        0 <= r * w,
{
    assert(r * w + w == (r + 1) * w) by (nonlinear_arith);
    assert((r + 1) * w <= rows * w) by (nonlinear_arith)
        requires
            r + 1 <= rows,
            w > 0,
    ;
    assert(0 <= r * w) by (nonlinear_arith)
        requires
            0 <= r,
            0 <= w,
    ;
}

/// A length that whole rows fill is the number of rows times their width.
pub proof fn lemma_len_is_rows_times_width(len: int, w: int)
    requires
        w > 0,
        len >= 0,
        len % w == 0,
    ensures
        len == (len / w) * w,
        0 <= len / w <= len,
{
    lemma_fundamental_div_mod(len, w);
    assert(w * (len / w) == (len / w) * w) by (nonlinear_arith);
    assert(0 <= len / w <= len) by (nonlinear_arith)
        requires
            w > 0,
            len >= 0,
            len == (len / w) * w,
    ;
}

impl Matrix {
    /// Creates a new matrix from its bytes and the width of a row.
    pub fn new(data: Vec<u8>, row_width: usize) -> (m: Self)
        ensures
            m@.data == data@,
            m@.row_width == row_width,
    {
        Self { data, row_width }
    }

    /// Sets the row width.
    pub fn set_row_width(&mut self, len: usize)
        requires
            len > 0,
            old(self)@.data.len() % (len as nat) == 0,
        ensures
            final(self)@.data == old(self)@.data,
            final(self)@.row_width == len,
            final(self)@.wf(),
    {
        self.row_width = len;
    }

    /// Returns the width of a row in bytes.
    pub fn row_width(&self) -> (w: usize)
        ensures
            w == self@.row_width,
    {
        self.row_width
    }

    /// Returns the number of bytes.
    pub fn len(&self) -> (n: usize)
        ensures
            n == self@.data.len(),
    {
        self.data.len()
    }

    /// Returns the number of rows.
    pub fn rows(&self) -> (n: usize)
        requires
            self@.row_width > 0,
        ensures
            n == self@.rows(),
    {
        self.data.len() / self.row_width
    }

    /// Returns a reference to the bytes.
    pub fn inner(&self) -> (s: &[u8])
        ensures
            s@ == self@.data,
    {
        self.data.as_slice()
    }

    /// Returns the bytes.
    pub fn into_inner(self) -> (v: Vec<u8>)
        ensures
            v@ == self@.data,
    {
        self.data
    }

    /// Pushes a row onto the end of the matrix.
    pub fn push_row(&mut self, row: &[u8])
        requires
            row@.len() == old(self)@.row_width,
        ensures
            final(self)@.data == old(self)@.data + row@,
            final(self)@.row_width == old(self)@.row_width,
    {
        self.data.extend_from_slice(row);
        assert(self.data@ =~= old(self).data@ + row@);
    }

    /// Extends the matrix with the rows of the given matrix.
    pub fn extend(&mut self, matrix: Matrix)
        requires
            matrix@.row_width == old(self)@.row_width,
        ensures
            final(self)@.data == old(self)@.data + matrix@.data,
            final(self)@.row_width == old(self)@.row_width,
    {
        let mut other = matrix.data;
        self.data.append(&mut other);
    }

    /// Takes all rows from the matrix, which keeps its row width.
    pub fn take(&mut self) -> (m: Matrix)
        ensures
            m@ == old(self)@,
            final(self)@.data == Seq::<u8>::empty(),
            final(self)@.row_width == old(self)@.row_width,
    {
        let mut data: Vec<u8> = Vec::new();
        data.append(&mut self.data);
        assert(data@ =~= old(self).data@);
        Matrix { data, row_width: self.row_width }
    }

    /// The byte of the transposed matrix that collects column `c` of the
    /// rows `8 * b .. 8 * b + 8`.
    fn gather(&self, c: usize, b: usize) -> (byte: u8)
        requires
            self@.wf(),
            c < 8 * self@.row_width,
            8 * b + 8 <= self@.rows(),
        ensures
            forall|k: u8| k < 8 ==> byte_bit(byte, k) == #[trigger] self@.bit(8 * b + k, c as int),
    {
        let w = self.row_width;
        let ghost rows = self@.rows() as int;
        let ghost n = self.data.len();
        proof {
            lemma_len_is_rows_times_width(self.data@.len() as int, w as int);
        }
        let mut acc: u8 = 0;
        let mut k: u8 = 0;
        assert(forall|j: u8| j < 8 ==> !byte_bit(0u8, j)) by {
            assert(forall|j: u8| j < 8 ==> (0u8 >> j) & 1u8 != 1u8) by (bit_vector);
        }
        while k < 8
            invariant
                k <= 8,
                w == self.row_width,
                w > 0,
                rows == self@.rows(),
                self.data@.len() == rows * w,
                self.data@.len() <= usize::MAX,
                rows <= usize::MAX,
                c < 8 * w,
                8 * b + 8 <= rows,
                forall|j: u8| j < k ==> byte_bit(acc, j) == #[trigger] self@.bit(8 * b + j, c as int),
                forall|j: u8| k <= j < 8 ==> !byte_bit(acc, j),
            decreases 8 - k,
        {
            let r: usize = 8 * b + k as usize;
            proof {
                lemma_cell_in_bounds(r as int, rows, w as int, (c / 8) as int);
            }
            let cell = self.data[r * w + c / 8];
            let bit = get_bit(cell, (c % 8) as u8);
            acc = with_bit(acc, k, bit);
            k = k + 1;
        }
        acc
    }

    /// Transposes the matrix bitwise.
    ///
    /// The matrix is read as a matrix of bits, each byte least significant
    /// bit first; that bit matrix is transposed and packed into bytes again in
    /// the same way. A matrix of `8 * n` rows of `w` bytes becomes one of
    /// `8 * w` rows of `n` bytes. A matrix with other dimensions is left as
    /// it is and the reason is returned.
    pub fn transpose_bits(&mut self) -> (res: Result<(), MatrixError>)
        ensures
            match res {
                Ok(_) => transpose_error(old(self)@) is None && old(self)@.transposes_to(
                    final(self)@,
                ),
                Err(e) => transpose_error(old(self)@) == Some(e->Transpose_0) && final(self)@
                    == old(self)@,
            },
    {
        let w = self.row_width;
        let n = self.data.len();
        if w == 0 || n % w != 0 {
            return Err(MatrixError::Transpose(TransposeError::NotRectangular));
        }
        let rows = n / w;
        if rows == 0 {
            return Err(MatrixError::Transpose(TransposeError::Empty));
        }
        if rows % 8 != 0 {
            return Err(MatrixError::Transpose(TransposeError::RowCount));
        }
        let nw = rows / 8;
        proof {
            lemma_len_is_rows_times_width(n as int, w as int);
            assert(8 * w <= rows * w) by (nonlinear_arith)
                requires
                    rows >= 8,
                    w > 0,
            ;
            assert((8 * w) * nw == rows * w) by (nonlinear_arith)
                requires
                    rows == 8 * nw,
            ;
        }
        let mut out: Vec<u8> = Vec::new();
        let mut c: usize = 0;
        while c < 8 * w
            invariant
                self@ == old(self)@,
                self@.wf(),
                w == self.row_width,
                rows == self@.rows(),
                rows == 8 * nw,
                n == rows * w,
                8 * w <= n,
                c <= 8 * w,
                out@.len() == c * nw,
                forall|cc: int, bb: int, k: u8|
                    0 <= cc < c && 0 <= bb < nw && k < 8 ==> byte_bit(
                        #[trigger] out@[cc * nw + bb],
                        k,
                    ) == #[trigger] self@.bit(8 * bb + k, cc),
            decreases 8 * w - c,
        {
            let mut row: Vec<u8> = Vec::new();
            let mut b: usize = 0;
            while b < nw
                invariant
                    self@.wf(),
                    rows == self@.rows(),
                    rows == 8 * nw,
                    w == self.row_width,
                    c < 8 * w,
                    b <= nw,
                    row@.len() == b,
                    forall|bb: int, k: u8|
                        0 <= bb < b && k < 8 ==> byte_bit(#[trigger] row@[bb], k)
                            == #[trigger] self@.bit(8 * bb + k, c as int),
                decreases nw - b,
            {
                let byte = self.gather(c, b);
                row.push(byte);
                b = b + 1;
            }
            let ghost before = out@;
            let ghost fresh = row@;
            out.append(&mut row);
            proof {
                assert(c * nw + nw == (c + 1) * nw) by (nonlinear_arith);
                assert forall|cc: int, bb: int, k: u8|
                    0 <= cc < c + 1 && 0 <= bb < nw && k < 8 implies byte_bit(
                    #[trigger] out@[cc * nw + bb],
                    k,
                ) == #[trigger] self@.bit(8 * bb + k, cc) by {
                    if cc < c {
                        lemma_cell_in_bounds(cc, c as int, nw as int, bb);
                        assert(out@[cc * nw + bb] == before[cc * nw + bb]);
                    } else {
                        assert(out@[c * nw + bb] == fresh[bb]);
                    }
                }
            }
            c = c + 1;
        }
        let ghost src = self@;
        self.data = out;
        self.row_width = nw;
        proof {
            let t = self@;
            assert forall|r: int, cc: int|
                0 <= r < src.rows() && 0 <= cc < 8 * src.row_width implies #[trigger] t.bit(cc, r)
                == src.bit(r, cc) by {
                let bb = r / 8;
                let k = (r % 8) as u8;
                assert(byte_bit(out@[cc * nw + bb], k) == src.bit(8 * bb + k, cc));
            }
        }
        Ok(())
    }

    /// Splits the matrix at the given row index and returns the rows from
    /// there on.
    pub fn split_off_rows(&mut self, idx: usize) -> (m: Self)
        requires
            idx * old(self)@.row_width <= old(self)@.data.len(),
        ensures
            final(self)@.row_width == old(self)@.row_width,
            m@.row_width == old(self)@.row_width,
            final(self)@.data == old(self)@.data.subrange(0, idx * old(self)@.row_width),
            m@.data == old(self)@.data.subrange(
                idx * old(self)@.row_width,
                old(self)@.data.len() as int,
            ),
    {
        let w = self.row_width;
        let ghost n = self.data.len();
        let data = self.data.split_off(idx * w);
        Self { data, row_width: w }
    }

    /// Removes the rows of the given range from the matrix and returns them.
    pub fn drain_rows(&mut self, range: Range<usize>) -> (m: Self)
        requires
            range.start <= range.end,
            range.end * old(self)@.row_width <= old(self)@.data.len(),
        ensures
            final(self)@.row_width == old(self)@.row_width,
            m@.row_width == old(self)@.row_width,
            m@.data == old(self)@.data.subrange(
                range.start * old(self)@.row_width,
                range.end * old(self)@.row_width,
            ),
            final(self)@.data == old(self)@.data.subrange(0, range.start * old(self)@.row_width)
                + old(self)@.data.subrange(
                range.end * old(self)@.row_width,
                old(self)@.data.len() as int,
            ),
    {
        let w = self.row_width;
        proof {
            assert(range.start * w <= range.end * w) by (nonlinear_arith)
                requires
                    range.start <= range.end,
                    w >= 0,
            ;
        }
        let ghost n = self.data.len();
        let mut tail = self.data.split_off(range.end * w);
        let data = self.data.split_off(range.start * w);
        self.data.append(&mut tail);
        Self { data, row_width: w }
    }

    /// Truncates the matrix to the given number of rows; a matrix with
    /// fewer rows is left as it is.
    pub fn truncate_rows(&mut self, len: usize)
        requires
            len * old(self)@.row_width <= usize::MAX,
        ensures
            final(self)@.row_width == old(self)@.row_width,
            final(self)@.data == if len * old(self)@.row_width <= old(self)@.data.len() {
                old(self)@.data.subrange(0, len * old(self)@.row_width)
            } else {
                old(self)@.data
            },
    {
        self.data.truncate(len * self.row_width);
    }

    /// Gives row `r` for writing. The other rows stay as they are.
    pub fn iter_rows_mut(&mut self, r: usize) -> (row: &mut [u8])
        requires
            old(self)@.wf(),
            r < old(self)@.rows(),
        ensures
            row@ == old(self)@.row(r as int),
            final(row)@.len() == row@.len() ==> final(self)@.wf(),
            final(self)@.row_width == old(self)@.row_width,
            final(self)@.data == old(self)@.data.subrange(0, r * old(self)@.row_width)
                + final(row)@ + old(self)@.data.subrange(
                (r + 1) * old(self)@.row_width,
                old(self)@.data.len() as int,
            ),
    {
        let w = self.row_width;
        let n = self.data.len();
        proof {
            lemma_len_is_rows_times_width(n as int, w as int);
            lemma_cell_in_bounds(r as int, (n / w) as int, w as int, 0);
        }
        let s = self.data.as_mut_slice();
        let (_head, tail) = s.split_at_mut(r * w);
        let (row, _rest) = tail.split_at_mut(w);
        row
    }

    /// Returns the rows, first to last.
    pub fn iter_rows(&self) -> (rows: Vec<&[u8]>)
        requires
            self@.wf(),
        ensures
            rows@.len() == self@.rows(),
            forall|r: int| 0 <= r < rows@.len() ==> (#[trigger] rows@[r])@ == self@.row(r),
    {
        let w = self.row_width;
        let n = self.data.len() / w;
        proof {
            lemma_len_is_rows_times_width(self.data@.len() as int, w as int);
        }
        let mut rows: Vec<&[u8]> = Vec::new();
        let mut r: usize = 0;
        while r < n
            invariant
                self@.wf(),
                w == self.row_width,
                n == self@.rows(),
                self.data@.len() == n * w,
                self.data@.len() <= usize::MAX,
                r <= n,
                rows@.len() == r,
                forall|i: int| 0 <= i < r ==> (#[trigger] rows@[i])@ == self@.row(i),
            decreases n - r,
        {
            proof {
                lemma_cell_in_bounds(r as int, n as int, w as int, 0);
            }
            let row = vstd::slice::slice_subrange(self.data.as_slice(), r * w, r * w + w);
            rows.push(row);
            r = r + 1;
        }
        rows
    }
}

/// Transposing a matrix bitwise twice gives the matrix back.
pub proof fn lemma_transpose_bits_involution(m: MatrixView, t: MatrixView, u: MatrixView)
    requires
        m.transposes_to(t),
        t.transposes_to(u),
    ensures
        u == m,
{
    let w = m.row_width as int;
    let rows = m.rows() as int;
    let nw = t.row_width as int;
    lemma_len_is_rows_times_width(m.data.len() as int, w);
    lemma_len_is_rows_times_width(t.data.len() as int, nw);
    assert(rows == 8 * nw);
    assert(t.rows() == 8 * w) by (nonlinear_arith)
        requires
            t.rows() * nw == rows * w,
            rows == 8 * nw,
            nw > 0,
    ;
    assert(u.row_width == w);
    assert forall|i: int| 0 <= i < m.data.len() implies u.data[i] == m.data[i] by {
        let r = i / w;
        let b = i % w;
        lemma_fundamental_div_mod(i, w);
        assert(w * r == r * w) by (nonlinear_arith);
        assert(0 <= r < rows) by (nonlinear_arith)
            requires
                0 <= i < rows * w,
                i == r * w + b,
                0 <= b < w,
        ;
        assert forall|k: u8| k < 8 implies byte_bit(u.data[i], k) == byte_bit(m.data[i], k) by {
            let c = 8 * b + k;
            assert(c / 8 == b && c % 8 == k);
            assert(u.bit(r, c) == t.bit(c, r));
            assert(t.bit(c, r) == m.bit(r, c));
        }
        lemma_byte_ext(u.data[i], m.data[i]);
    }
    assert(u.data =~= m.data);
}

} // verus!

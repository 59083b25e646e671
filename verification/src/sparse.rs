//! Compressed sparse matrices (row pointers, column indices and values)
//! and the extraction of dense blocks from them.

use vstd::prelude::*;
use crate::dense::DenseMatrix;

verus! {

/// A sparse matrix in compressed storage: the entries of outer line `i`
/// (a row for row-compressed storage) sit at positions
/// `indptr[i] .. indptr[i + 1]` of `indices` (their inner index) and `data`
/// (their value).
#[derive(Debug)]
pub struct CompressedMatrix<T> {
    outer_dim: usize,
    inner_dim: usize,
    indptr: Vec<usize>,
    indices: Vec<usize>,
    data: Vec<T>,
}

/// The compressed arrays describe a matrix with `outer_dim` outer lines and
/// `inner_dim` inner lines: one pointer per outer line plus one, starting
/// at zero, never decreasing and ending at the number of stored entries,
/// with every inner index in range.
pub open spec fn compressed_structure_ok(
    outer_dim: usize,
    inner_dim: usize,
    indptr: Seq<usize>,
    indices: Seq<usize>,
    data_len: nat,
) -> bool {
    &&& indptr.len() == outer_dim + 1
    &&& indptr[0] == 0
    &&& forall|i: int| 0 <= i < outer_dim ==> #[trigger] indptr[i] <= indptr[i + 1]
    &&& indptr[outer_dim as int] == indices.len()
    &&& indices.len() == data_len
    &&& forall|k: int| 0 <= k < indices.len() ==> #[trigger] indices[k] < inner_dim
}

/// Value of the last entry with inner index `col` among positions
/// `lo .. hi`, or `default` when there is none.
pub open spec fn last_entry_value<T>(
    indices: Seq<usize>,
    data: Seq<T>,
    lo: int,
    hi: int,
    col: usize,
    default: T,
) -> T
    decreases hi - lo,
{
    if hi <= lo {
        default
    } else if indices[hi - 1] == col {
        data[hi - 1]
    } else {
        last_entry_value(indices, data, lo, hi - 1, col, default)
    }
}

/// Value stored at outer line `row` and inner line `col` of the compressed
/// arrays, or `default` when nothing is stored there; where several entries
/// share the position, the last one counts.
pub open spec fn compressed_value<T>(
    outer_dim: usize,
    indptr: Seq<usize>,
    indices: Seq<usize>,
    data: Seq<T>,
    row: int,
    col: usize,
    default: T,
) -> T {
    if 0 <= row < outer_dim {
        last_entry_value(indices, data, indptr[row] as int, indptr[row + 1] as int, col, default)
    } else {
        default
    }
}

impl<T> CompressedMatrix<T> {
    #[verifier::type_invariant]
    spec fn well_formed(self) -> bool {
        compressed_structure_ok(
            self.outer_dim,
            self.inner_dim,
            self.indptr@,
            self.indices@,
            self.data@.len(),
        )
    }

    /// Number of outer lines.
    pub closed spec fn outer(self) -> nat {
        self.outer_dim as nat
    }

    /// Number of inner lines.
    pub closed spec fn inner(self) -> nat {
        self.inner_dim as nat
    }

    /// Stored value at outer line `row` and inner line `col`, or `default`
    /// when nothing is stored there.  Where several entries share the
    /// position, the last one counts.
    pub closed spec fn value_at(self, row: int, col: usize, default: T) -> T {
        compressed_value(self.outer_dim, self.indptr@, self.indices@, self.data@, row, col, default)
    }

    /// A compressed matrix from its arrays; `None` when they do not
    /// describe one.
    pub fn new(
        outer_dim: usize,
        inner_dim: usize,
        indptr: Vec<usize>,
        indices: Vec<usize>,
        data: Vec<T>,
    ) -> (m: Option<Self>)
        ensures
            m is Some <==> compressed_structure_ok(
                outer_dim,
                inner_dim,
                indptr@,
                indices@,
                data@.len(),
            ),
            m matches Some(m) ==> {
                &&& m.outer() == outer_dim
                &&& m.inner() == inner_dim
                &&& forall|row: int, col: usize, default: T|
                    #[trigger] m.value_at(row, col, default) == compressed_value(
                        outer_dim,
                        indptr@,
                        indices@,
                        data@,
                        row,
                        col,
                        default,
                    )
            },
    {
        if outer_dim == usize::MAX || indptr.len() != outer_dim + 1 || indptr[0] != 0 {
            return None;
        }
        let mut i: usize = 0;
        while i < outer_dim
            invariant
                i <= outer_dim,
                indptr.len() == outer_dim + 1,
                forall|p: int| 0 <= p < i ==> #[trigger] indptr@[p] <= indptr@[p + 1],
            decreases outer_dim - i,
        {
            if indptr[i] > indptr[i + 1] {
                return None;
            }
            i = i + 1;
        }
        if indptr[outer_dim] != indices.len() || indices.len() != data.len() {
            return None;
        }
        let mut k: usize = 0;
        while k < indices.len()
            invariant
                k <= indices.len(),
                forall|p: int| 0 <= p < k ==> #[trigger] indices@[p] < inner_dim,
            decreases indices.len() - k,
        {
            if indices[k] >= inner_dim {
                return None;
            }
            k = k + 1;
        }
        Some(CompressedMatrix { outer_dim, inner_dim, indptr, indices, data })
    }

    /// Number of outer lines.
    pub fn outer_dim(&self) -> (n: usize)
        ensures
            n == self.outer(),
    {
        self.outer_dim
    }

    /// Number of inner lines.
    pub fn inner_dim(&self) -> (n: usize)
        ensures
            n == self.inner(),
    {
        self.inner_dim
    }

    /// Dense copy of the block of outer lines `row_start .. row_end` and
    /// inner lines `col_start .. col_end`; positions with no stored entry
    /// (including lines beyond the matrix) hold `zero`.
    pub fn dense_block(
        &self,
        row_start: usize,
        row_end: usize,
        col_start: usize,
        col_end: usize,
        zero: T,
    ) -> (block: DenseMatrix<T>) where T: Copy
        requires
            row_start <= row_end,
            col_start <= col_end,
            (row_end - row_start) * (col_end - col_start) <= usize::MAX,
        ensures
            block.rows() == row_end - row_start,
            block.cols() == col_end - col_start,
            forall|r: int, c: int|
                0 <= r < row_end - row_start && 0 <= c < col_end - col_start ==> #[trigger] block.at(r, c)
                    == self.value_at(row_start + r, (col_start + c) as usize, zero),
    {
        proof {
            use_type_invariant(self);
        }
        let nrows = row_end - row_start;
        let ncols = col_end - col_start;
        let mut block = DenseMatrix::filled(nrows, ncols, zero);
        let last_row = if row_end < self.outer_dim {
            row_end
        } else {
            self.outer_dim
        };
        let mut row = row_start;
        while row < last_row
            invariant
                self.well_formed(),
                row_start <= row,
                last_row <= row_end,
                last_row <= self.outer_dim,
                row_start < last_row ==> row <= last_row,
                block.rows() == nrows,
                block.cols() == ncols,
                nrows == row_end - row_start,
                ncols == col_end - col_start,
                forall|r: int, c: int|
                    0 <= r < nrows && 0 <= c < ncols ==> #[trigger] block.at(r, c) == if row_start + r
                        < row {
                        self.value_at(row_start + r, (col_start + c) as usize, zero)
                    } else {
                        zero
                    },
            decreases last_row - row,
        {
            let lo = self.indptr[row];
            let hi = self.indptr[row + 1];
            let ghost r0 = row - row_start;
            let mut k = lo;
            while k < hi
                invariant
                    self.well_formed(),
                    row < last_row,
                    last_row <= self.outer_dim,
                    last_row <= row_end,
                    row_start <= row,
                    r0 == row - row_start,
                    lo == self.indptr@[row as int],
                    hi == self.indptr@[row + 1],
                    lo <= k <= hi,
                    block.rows() == nrows,
                    block.cols() == ncols,
                    nrows == row_end - row_start,
                    ncols == col_end - col_start,
                    forall|r: int, c: int|
                        0 <= r < nrows && 0 <= c < ncols ==> #[trigger] block.at(r, c) == if r
                            == r0 {
                            last_entry_value(
                                self.indices@,
                                self.data@,
                                lo as int,
                                k as int,
                                (col_start + c) as usize,
                                zero,
                            )
                        } else if row_start + r < row {
                            self.value_at(row_start + r, (col_start + c) as usize, zero)
                        } else {
                            zero
                        },
                decreases hi - k,
            {
                proof {
                    assert(self.indptr@[row + 1] <= self.indptr@[self.outer_dim as int]) by {
                        lemma_indptr_monotone(self.indptr@, self.outer_dim, row + 1);
                    }
                }
                let col = self.indices[k];
                if col_start <= col && col < col_end {
                    block.set(row - row_start, col - col_start, self.data[k]);
                }
                k = k + 1;
            }
            row = row + 1;
        }
        block
    }
}

proof fn lemma_indptr_monotone(indptr: Seq<usize>, outer_dim: usize, i: int)
    requires
        indptr.len() == outer_dim + 1,
        forall|p: int| 0 <= p < outer_dim ==> #[trigger] indptr[p] <= indptr[p + 1],
        0 <= i <= outer_dim,
    ensures
        indptr[i] <= indptr[outer_dim as int],
    decreases outer_dim - i,
{
    if i < outer_dim {
        lemma_indptr_monotone(indptr, outer_dim, i + 1);
        assert(indptr[i] <= indptr[i + 1]);
    }
}

} // verus!

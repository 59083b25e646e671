//! Block structure of block-tridiagonal systems: the partition of the
//! unknowns into equal blocks, the checks on right-hand sides, and the
//! splitting and joining of vectors along the partition.

use vstd::prelude::*;

verus! {

/// Rejected inputs of the block-tridiagonal factorization and solves.
#[derive(Debug, Clone, Copy, PartialEq, Eq)]
pub enum LinalgError {
    /// The matrix dimension `found` is not a multiple of `blocks`.
    NonDivisibleBlocks { found: usize, blocks: usize },
    /// The matrix is not square.
    NonSquareMatrix,
    /// A Cholesky factorization or triangular solve failed.
    NotPositiveDefinite,
    /// A right-hand side of length `found` was given where `expected` was
    /// needed.
    DimensionMismatch { found: usize, expected: usize },
}

/// Outcome of partitioning a `rows` by `cols` matrix into `n_blocks` equal
/// diagonal blocks: the block size, or why there is none.
pub open spec fn block_partition(rows: usize, cols: usize, n_blocks: usize) -> Result<usize, LinalgError> {
    if rows != cols {
        Err(LinalgError::NonSquareMatrix)
    } else if rows % n_blocks != 0 {
        Err(LinalgError::NonDivisibleBlocks { found: rows, blocks: n_blocks })
    } else {
        Ok((rows / n_blocks) as usize)
    }
}

/// Size of the diagonal blocks when a `rows` by `cols` matrix is cut into
/// `n_blocks` equal block rows: the matrix must be square and its dimension
/// a multiple of `n_blocks`.
pub fn partition_into_blocks(rows: usize, cols: usize, n_blocks: usize) -> (r: Result<
    usize,
    LinalgError,
>)
    requires
        rows == cols ==> n_blocks > 0,
    ensures
        r == block_partition(rows, cols, n_blocks),
        r matches Ok(block_size) ==> block_size * n_blocks == rows,
{
    if rows != cols {
        return Err(LinalgError::NonSquareMatrix);
    }
    if rows % n_blocks != 0 {
        return Err(LinalgError::NonDivisibleBlocks { found: rows, blocks: n_blocks });
    }
    proof {
        vstd::arithmetic::div_mod::lemma_fundamental_div_mod(rows as int, n_blocks as int);
        assert((rows / n_blocks) * n_blocks == rows) by (nonlinear_arith)
            requires
                rows == n_blocks * (rows / n_blocks) + rows % n_blocks,
                rows % n_blocks == 0,
        ;
    }
    Ok(rows / n_blocks)
}

/// Checks that a vector of length `found` matches the dimension `expected`.
pub fn check_dimension(found: usize, expected: usize) -> (r: Result<(), LinalgError>)
    ensures
        r == (if found == expected {
            Ok(())
        } else {
            Err(LinalgError::DimensionMismatch { found, expected })
        }),
{
    if found != expected {
        return Err(LinalgError::DimensionMismatch { found, expected });
    }
    Ok(())
}

/// `blocks` cuts `values` into consecutive pieces of `block_size` entries,
/// the last one possibly shorter.
pub open spec fn is_split_into_blocks<T>(values: Seq<T>, block_size: nat, blocks: Seq<Seq<T>>) -> bool {
    &&& blocks.len() == (values.len() + block_size - 1) / (block_size as int)
    &&& forall|k: int|
        0 <= k < blocks.len() ==> #[trigger] blocks[k] == values.subrange(
            k * block_size,
            if (k + 1) * block_size <= values.len() {
                (k + 1) * block_size
            } else {
                values.len() as int
            },
        )
}

/// `out` lays the blocks, each of `block_size` entries, one after another.
pub open spec fn is_concatenation<T>(blocks: Seq<Seq<T>>, block_size: nat, out: Seq<T>) -> bool {
    &&& out.len() == blocks.len() * block_size
    &&& forall|p: int|
        0 <= p < out.len() ==> #[trigger] out[p] == blocks[p / (block_size as int)][p % (
        block_size as int)]
}

/// Cuts `values` into consecutive blocks of `block_size` entries; the last
/// block is shorter when the length is not a multiple of `block_size`.
pub fn split_blocks<T: Copy>(values: &[T], block_size: usize) -> (blocks: Vec<Vec<T>>)
    requires
        block_size > 0,
    ensures
        is_split_into_blocks(values@, block_size as nat, blocks@.map_values(|b: Vec<T>| b@)),
{
    let len = values.len();
    let mut blocks: Vec<Vec<T>> = Vec::new();
    let mut start: usize = 0;
    while start < len
        invariant
            block_size > 0,
            len == values.len(),
            start <= len,
            start <= blocks.len() * block_size,
            start < len ==> start == blocks.len() * block_size,
            blocks.len() > 0 ==> (blocks.len() - 1) * block_size < len,
            blocks.len() == 0 ==> start == 0,
            forall|k: int|
                0 <= k < blocks.len() ==> #[trigger] blocks@[k]@ == values@.subrange(
                    k * block_size,
                    if (k + 1) * block_size <= len {
                        (k + 1) * block_size
                    } else {
                        len as int
                    },
                ),
        decreases len - start,
    {
        let end = if len - start >= block_size {
            start + block_size
        } else {
            len
        };
        let mut block: Vec<T> = Vec::with_capacity(end - start);
        let mut p: usize = start;
        while p < end
            invariant
                start <= p <= end,
                end <= len,
                len == values.len(),
                block@ == values@.subrange(start as int, p as int),
            decreases end - p,
        {
            block.push(values[p]);
            p = p + 1;
            assert(block@ =~= values@.subrange(start as int, p as int));
        }
        let ghost k = blocks.len() as int;
        proof {
            assert((k + 1) * block_size == start + block_size) by (nonlinear_arith)
                requires
                    start == k * block_size,
            ;
        }
        blocks.push(block);
        start = end;
        proof {
            assert(end <= (k + 1) * block_size);
            assert(blocks.len() * block_size == (k + 1) * block_size);
        }
    }
    proof {
        let n = blocks.len() as int;
        assert((n - 1) * block_size == n * block_size - block_size) by (nonlinear_arith);
        assert(n == (len + block_size - 1) / (block_size as int)) by (nonlinear_arith)
            requires
                n * block_size - block_size < len <= n * block_size || (len == 0 && n == 0),
                block_size > 0,
        ;
        assert(blocks@.map_values(|b: Vec<T>| b@).len() == blocks.len());
    }
    blocks
}

/// Lays blocks of `block_size` entries one after another.
pub fn concat_blocks<T: Copy>(blocks: &[Vec<T>], block_size: usize) -> (out: Vec<T>)
    requires
        forall|k: int| 0 <= k < blocks.len() ==> #[trigger] blocks@[k].len() == block_size,
        blocks.len() * block_size <= usize::MAX,
    ensures
        is_concatenation(blocks@.map_values(|b: Vec<T>| b@), block_size as nat, out@),
{
    let mut out: Vec<T> = Vec::new();
    let mut k: usize = 0;
    while k < blocks.len()
        invariant
            k <= blocks.len(),
            forall|q: int| 0 <= q < blocks.len() ==> #[trigger] blocks@[q].len() == block_size,
            blocks.len() * block_size <= usize::MAX,
            out.len() == k * block_size,
            forall|p: int|
                0 <= p < out.len() ==> #[trigger] out@[p] == blocks@[p / (block_size as int)]@[p % (
                block_size as int)],
        decreases blocks.len() - k,
    {
        let block = &blocks[k];
        let mut m: usize = 0;
        while m < block_size
            invariant
                m <= block_size,
                k < blocks.len(),
                *block == blocks@[k as int],
                block.len() == block_size,
                out.len() == k * block_size + m,
                forall|p: int|
                    0 <= p < out.len() ==> #[trigger] out@[p] == blocks@[p / (block_size as int)]@[p
                        % (block_size as int)],
            decreases block_size - m,
        {
            let ghost p = out.len() as int;
            proof {
                vstd::arithmetic::div_mod::lemma_fundamental_div_mod_converse(
                    p,
                    block_size as int,
                    k as int,
                    m as int,
                );
            }
            out.push(block[m]);
            m = m + 1;
        }
        proof {
            assert(k * block_size + block_size == (k + 1) * block_size) by (nonlinear_arith);
        }
        k = k + 1;
    }
    proof {
        let views = blocks@.map_values(|b: Vec<T>| b@);
        assert forall|p: int| 0 <= p < out.len() implies #[trigger] out@[p] == views[p / (
        block_size as int)][p % (block_size as int)] by {
            assert(0 <= p / (block_size as int) < blocks.len()) by (nonlinear_arith)
                requires
                    0 <= p < blocks.len() * block_size,
                    block_size > 0,
            ;
        }
    }
    out
}

/// Cutting a vector whose length is a multiple of the block size into
/// blocks and laying the blocks back one after another gives the vector
/// back.
pub proof fn lemma_split_then_concat<T>(values: Seq<T>, block_size: nat, blocks: Seq<Seq<T>>, out: Seq<T>)
    requires
        block_size > 0,
        values.len() % block_size == 0,
        is_split_into_blocks(values, block_size, blocks),
        is_concatenation(blocks, block_size, out),
    ensures
        out == values,
{
    let len = values.len() as int;
    let bs = block_size as int;
    let n = len / bs;
    vstd::arithmetic::div_mod::lemma_fundamental_div_mod(len, bs);
    assert(len == n * bs) by (nonlinear_arith)
        requires
            len == bs * n + len % bs,
            len % bs == 0,
    ;
    vstd::arithmetic::div_mod::lemma_fundamental_div_mod_converse(len + bs - 1, bs, n, bs - 1);
    assert(blocks.len() == n);
    assert(out.len() == len) by (nonlinear_arith)
        requires
            out.len() == blocks.len() * block_size,
            blocks.len() == n,
            len == n * bs,
            bs == block_size,
    ;
    assert forall|p: int| 0 <= p < len implies #[trigger] out[p] == values[p] by {
        let k = p / bs;
        let m = p % bs;
        vstd::arithmetic::div_mod::lemma_fundamental_div_mod(p, bs);
        assert(0 <= k < n && (k + 1) * bs <= len && p == k * bs + m && k * bs + bs == (k + 1) * bs)
            by (nonlinear_arith)
            requires
                0 <= p < len,
                len == n * bs,
                p == bs * k + m,
                0 <= m < bs,
        ;
        assert(blocks[k] == values.subrange(k * bs, (k + 1) * bs));
    }
    assert(out =~= values);
}

/// A square matrix whose dimension is a multiple of the block count is cut
/// into blocks that tile it exactly; a non-square matrix is refused as such,
/// and a square one whose dimension the block count does not divide is
/// refused with its dimension and the block count.
pub proof fn lemma_block_partition_tiles(rows: usize, cols: usize, n_blocks: usize)
    requires
        n_blocks > 0,
    ensures
        block_partition(rows, cols, n_blocks) matches Ok(size) ==> rows == cols && size * n_blocks
            == rows,
        block_partition(rows, cols, n_blocks) is Ok <==> (rows == cols && rows % n_blocks == 0),
        rows != cols ==> block_partition(rows, cols, n_blocks) == Err::<usize, LinalgError>(
            LinalgError::NonSquareMatrix,
        ),
        rows == cols && rows % n_blocks != 0 ==> block_partition(rows, cols, n_blocks) == Err::<
            usize,
            LinalgError,
        >(LinalgError::NonDivisibleBlocks { found: rows, blocks: n_blocks }),
{
    vstd::arithmetic::div_mod::lemma_fundamental_div_mod(rows as int, n_blocks as int);
    if rows % n_blocks == 0 {
        assert((rows / n_blocks) * n_blocks == rows) by (nonlinear_arith)
            requires
                rows == n_blocks * (rows / n_blocks) + rows % n_blocks,
                rows % n_blocks == 0,
        ;
    }
}

} // verus!

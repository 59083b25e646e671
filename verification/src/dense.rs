//! Dense matrices stored row by row, and the elimination of constrained
//! degrees of freedom from them.

use vstd::prelude::*;

verus! {

/// A dense `nrows` by `ncols` matrix stored row by row.
#[derive(Debug)]
pub struct DenseMatrix<T> {
    nrows: usize,
    ncols: usize,
    data: Vec<T>,
}

/// Position of entry (`i`, `j`) in the row-major storage of a matrix with
/// `ncols` columns.
pub open spec fn flat_index(i: int, j: int, ncols: int) -> int {
    i * ncols + j
}

proof fn lemma_flat_index_in_range(i: int, j: int, nrows: int, ncols: int)
    requires
        0 <= i < nrows,
        0 <= j < ncols,
    ensures
        0 <= flat_index(i, j, ncols) < nrows * ncols,
{
    assert(0 <= i * ncols + j < nrows * ncols) by (nonlinear_arith)
        requires
            0 <= i < nrows,
            0 <= j < ncols,
    ;
}

proof fn lemma_flat_index_injective(i: int, j: int, r: int, c: int, ncols: int)
    requires
        0 <= j < ncols,
        0 <= c < ncols,
        0 <= i,
        0 <= r,
        flat_index(i, j, ncols) == flat_index(r, c, ncols),
    ensures
        i == r && j == c,
{
    vstd::arithmetic::div_mod::lemma_fundamental_div_mod_converse(
        flat_index(i, j, ncols),
        ncols,
        i,
        j,
    );
    vstd::arithmetic::div_mod::lemma_fundamental_div_mod_converse(
        flat_index(r, c, ncols),
        ncols,
        r,
        c,
    );
}

impl<T> DenseMatrix<T> {
    #[verifier::type_invariant]
    spec fn well_formed(self) -> bool {
        self.data.len() == self.nrows * self.ncols
    }

    /// Number of rows.
    pub closed spec fn rows(self) -> nat {
        self.nrows as nat
    }

    /// Number of columns.
    pub closed spec fn cols(self) -> nat {
        self.ncols as nat
    }

    /// Entry in row `i` and column `j`.
    pub closed spec fn at(self, i: int, j: int) -> T {
        self.data@[flat_index(i, j, self.ncols as int)]
    }

    /// The entries row by row.
    pub closed spec fn row_major(self) -> Seq<T> {
        self.data@
    }

    /// A matrix with every entry equal to `fill`.
    pub fn filled(nrows: usize, ncols: usize, fill: T) -> (m: Self) where T: Copy
        requires
            nrows * ncols <= usize::MAX,
        ensures
            m.rows() == nrows,
            m.cols() == ncols,
            forall|i: int, j: int| 0 <= i < nrows && 0 <= j < ncols ==> #[trigger] m.at(i, j) == fill,
    {
        let total = nrows * ncols;
        let mut data: Vec<T> = Vec::with_capacity(total);
        let mut k: usize = 0;
        while k < total
            invariant
                k <= total,
                data.len() == k,
                forall|p: int| 0 <= p < k ==> #[trigger] data@[p] == fill,
            decreases total - k,
        {
            data.push(fill);
            k = k + 1;
        }
        let m = DenseMatrix { nrows, ncols, data };
        proof {
            assert forall|i: int, j: int| 0 <= i < nrows && 0 <= j < ncols implies #[trigger] m.at(i, j)
                == fill by {
                lemma_flat_index_in_range(i, j, nrows as int, ncols as int);
            }
        }
        m
    }

    /// A matrix from its entries row by row; `None` when the number of
    /// entries is not `nrows * ncols`.
    pub fn from_row_major(nrows: usize, ncols: usize, data: Vec<T>) -> (m: Option<Self>)
        ensures
            m is Some <==> data.len() == nrows * ncols,
            m matches Some(m) ==> {
                &&& m.rows() == nrows
                &&& m.cols() == ncols
                &&& m.row_major() == data@
                &&& forall|i: int, j: int|
                    0 <= i < nrows && 0 <= j < ncols ==> #[trigger] m.at(i, j) == data@[flat_index(
                        i,
                        j,
                        ncols as int,
                    )]
            },
    {
        if ncols == 0 {
            if data.len() == 0 {
                return Some(DenseMatrix { nrows, ncols, data });
            }
            return None;
        }
        if data.len() % ncols != 0 || data.len() / ncols != nrows {
            proof {
                if data.len() == nrows * ncols {
                    vstd::arithmetic::div_mod::lemma_fundamental_div_mod_converse(
                        data.len() as int,
                        ncols as int,
                        nrows as int,
                        0,
                    );
                }
            }
            return None;
        }
        proof {
            vstd::arithmetic::div_mod::lemma_fundamental_div_mod(data.len() as int, ncols as int);
            assert(data.len() == nrows * ncols) by (nonlinear_arith)
                requires
                    data.len() == ncols * (data.len() / ncols) + data.len() % ncols,
                    data.len() % ncols == 0,
                    data.len() / ncols == nrows,
            ;
        }
        Some(DenseMatrix { nrows, ncols, data })
    }

    /// The entries row by row.
    pub fn into_row_major(self) -> (data: Vec<T>)
        ensures
            data@ == self.row_major(),
            data.len() == self.rows() * self.cols(),
            forall|i: int, j: int|
                0 <= i < self.rows() && 0 <= j < self.cols() ==> #[trigger] self.at(i, j)
                    == data@[flat_index(i, j, self.cols() as int)],
    {
        proof {
            use_type_invariant(&self);
        }
        self.data
    }

    /// Number of rows.
    pub fn nrows(&self) -> (n: usize)
        ensures
            n == self.rows(),
    {
        self.nrows
    }

    /// Number of columns.
    pub fn ncols(&self) -> (n: usize)
        ensures
            n == self.cols(),
    {
        self.ncols
    }

    /// Entry in row `i` and column `j`.
    pub fn get(&self, i: usize, j: usize) -> (v: T) where T: Copy
        requires
            i < self.rows(),
            j < self.cols(),
        ensures
            v == self.at(i as int, j as int),
    {
        proof {
            use_type_invariant(self);
            lemma_flat_index_in_range(i as int, j as int, self.nrows as int, self.ncols as int);
        }
        self.data[i * self.ncols + j]
    }

    /// Overwrites the entry in row `i` and column `j`.
    pub fn set(&mut self, i: usize, j: usize, value: T)
        requires
            i < old(self).rows(),
            j < old(self).cols(),
        ensures
            final(self).rows() == old(self).rows(),
            final(self).cols() == old(self).cols(),
            final(self).at(i as int, j as int) == value,
            forall|r: int, c: int|
                0 <= r < old(self).rows() && 0 <= c < old(self).cols() && !(r == i && c == j)
                    ==> #[trigger] final(self).at(r, c) == old(self).at(r, c),
    {
        proof {
            use_type_invariant(&*self);
            lemma_flat_index_in_range(i as int, j as int, self.nrows as int, self.ncols as int);
        }
        let k = i * self.ncols + j;
        let mut taken = DenseMatrix { nrows: 0, ncols: 0, data: Vec::new() };
        std::mem::swap(self, &mut taken);
        let DenseMatrix { nrows, ncols, mut data } = taken;
        assert(data@ == old(self).data@ && ncols == old(self).ncols && nrows == old(self).nrows);
        data.set(k, value);
        *self = DenseMatrix { nrows, ncols, data };
        proof {
            assert forall|r: int, c: int|
                0 <= r < old(self).rows() && 0 <= c < old(self).cols() && !(r == i && c == j)
                    implies #[trigger] self.at(r, c) == old(self).at(r, c) by {
                lemma_flat_index_in_range(r, c, self.nrows as int, self.ncols as int);
                if flat_index(r, c, self.ncols as int) == k {
                    lemma_flat_index_injective(r, c, i as int, j as int, self.ncols as int);
                }
            }
        }
    }
}

/// Which value a constrained degree of freedom keeps on the diagonal.
#[derive(Debug, Clone, Copy, PartialEq, Eq)]
pub enum ConstraintTarget {
    /// A mass matrix: the diagonal carries the boundary noise.
    Mass,
    /// Any other operator: the diagonal carries one.
    General,
}

/// Entry (`r`, `c`) of a square matrix after eliminating the degrees of
/// freedom in `dofs`: their rows and columns are cleared and their diagonal
/// entries set to `penalty`; every other entry keeps its value `v`.
pub open spec fn constrained_value<T>(v: T, r: int, c: int, dofs: Seq<usize>, zero: T, penalty: T) -> T {
    if r == c && dofs.contains(r as usize) {
        penalty
    } else if dofs.contains(r as usize) || dofs.contains(c as usize) {
        zero
    } else {
        v
    }
}

/// Diagonal value that `target` asks for.
pub open spec fn penalty_for<T>(target: ConstraintTarget, boundary_noise: T, one: T) -> T {
    match target {
        ConstraintTarget::Mass => boundary_noise,
        ConstraintTarget::General => one,
    }
}

/// Eliminates the degrees of freedom `constrained_dofs` from a matrix: each
/// of their rows and columns is cleared (set to `zero`) and the diagonal
/// entry is set to `boundary_noise` for a mass matrix or to `one` otherwise.
/// Columns are cleared over the first `cols` rows, so a matrix with more
/// rows than columns keeps its rows past `cols` unchanged.
pub fn apply_dense_constraints<T: Copy>(
    matrix: &mut DenseMatrix<T>,
    constrained_dofs: &[usize],
    boundary_noise: T,
    target: ConstraintTarget,
    zero: T,
    one: T,
)
    requires
        constrained_dofs.len() > 0 ==> old(matrix).cols() <= old(matrix).rows(),
        forall|k: int| 0 <= k < constrained_dofs.len() ==> #[trigger] constrained_dofs@[k] < old(matrix).cols(),
    ensures
        final(matrix).rows() == old(matrix).rows(),
        final(matrix).cols() == old(matrix).cols(),
        forall|r: int, c: int|
            0 <= r < old(matrix).rows() && 0 <= c < old(matrix).cols() ==> #[trigger] final(matrix).at(r, c)
                == if r < old(matrix).cols() {
                constrained_value(
                    old(matrix).at(r, c),
                    r,
                    c,
                    constrained_dofs@,
                    zero,
                    penalty_for(target, boundary_noise, one),
                )
            } else {
                old(matrix).at(r, c)
            },
{
    let penalty = match target {
        ConstraintTarget::Mass => boundary_noise,
        ConstraintTarget::General => one,
    };
    let n = matrix.ncols();
    let m = matrix.nrows();
    let ghost orig = *matrix;
    let mut t: usize = 0;
    assert(constrained_dofs@.take(0) =~= Seq::<usize>::empty());
    while t < constrained_dofs.len()
        invariant
            t <= constrained_dofs.len(),
            n == matrix.cols(),
            m == matrix.rows(),
            m == orig.rows(),
            n == orig.cols(),
            constrained_dofs.len() > 0 ==> n <= m,
            forall|k: int| 0 <= k < constrained_dofs.len() ==> #[trigger] constrained_dofs@[k] < n,
            forall|r: int, c: int|
                0 <= r < m && 0 <= c < n ==> #[trigger] matrix.at(r, c) == if r < n {
                    constrained_value(
                        orig.at(r, c),
                        r,
                        c,
                        constrained_dofs@.take(t as int),
                        zero,
                        penalty,
                    )
                } else {
                    orig.at(r, c)
                },
        decreases constrained_dofs.len() - t,
    {
        let dof = constrained_dofs[t];
        let ghost prev = *matrix;
        let mut j: usize = 0;
        while j < n
            invariant
                j <= n,
                n <= m,
                dof < n,
                n == matrix.cols(),
                m == matrix.rows(),
                m == prev.rows(),
                n == prev.cols(),
                forall|r: int, c: int|
                    0 <= r < m && 0 <= c < n ==> #[trigger] matrix.at(r, c) == if (r == dof && c < j)
                        || (c == dof && r < j) {
                        zero
                    } else {
                        prev.at(r, c)
                    },
            decreases n - j,
        {
            matrix.set(dof, j, zero);
            matrix.set(j, dof, zero);
            j = j + 1;
        }
        matrix.set(dof, dof, penalty);
        proof {
            let before = constrained_dofs@.take(t as int);
            let after = constrained_dofs@.take(t + 1);
            assert(after =~= before.push(dof));
            assert forall|r: int, c: int| 0 <= r < m && 0 <= c < n implies #[trigger] matrix.at(r, c)
                == if r < n {
                constrained_value(orig.at(r, c), r, c, after, zero, penalty)
            } else {
                orig.at(r, c)
            } by {
                lemma_push_contains(before, dof, r as usize);
                lemma_push_contains(before, dof, c as usize);
            }
        }
        t = t + 1;
    }
    assert(constrained_dofs@.take(t as int) =~= constrained_dofs@);
}

/// Pushing `v` onto `s` adds exactly `v` to its members.
pub(crate) proof fn lemma_push_contains(s: Seq<usize>, v: usize, x: usize)
    ensures
        s.push(v).contains(x) <==> (s.contains(x) || x == v),
{
    let t = s.push(v);
    if t.contains(x) {
        let i = choose|i: int| 0 <= i < t.len() && t[i] == x;
        if i < s.len() {
            assert(s[i] == x);
        }
    }
    if s.contains(x) {
        let i = choose|i: int| 0 <= i < s.len() && s[i] == x;
        assert(t[i] == x);
    }
    assert(t[s.len() as int] == v);
}

/// Eliminating the same degrees of freedom a second time changes nothing.
pub proof fn lemma_constraints_idempotent<T>(v: T, r: int, c: int, dofs: Seq<usize>, zero: T, penalty: T)
    ensures
        constrained_value(constrained_value(v, r, c, dofs, zero, penalty), r, c, dofs, zero, penalty)
            == constrained_value(v, r, c, dofs, zero, penalty),
{
}

/// Imposes the Dirichlet condition "the unknown at `node` equals `value`":
/// the row and column of `node` are cleared (set to `zero`), its diagonal
/// entry is set to `one`, and the right-hand side at `node` becomes `value`.
/// As in `apply_dense_constraints`, the column is cleared over the first
/// `cols` rows.
pub fn apply_dirichlet<T: Copy>(
    matrix: &mut DenseMatrix<T>,
    rhs: &mut Vec<T>,
    node: usize,
    value: T,
    zero: T,
    one: T,
)
    requires
        old(matrix).cols() <= old(matrix).rows(),
        node < old(matrix).cols(),
        node < old(rhs).len(),
    ensures
        final(matrix).rows() == old(matrix).rows(),
        final(matrix).cols() == old(matrix).cols(),
        forall|r: int, c: int|
            0 <= r < old(matrix).rows() && 0 <= c < old(matrix).cols() ==> #[trigger] final(matrix).at(r, c)
                == if r < old(matrix).cols() {
                constrained_value(old(matrix).at(r, c), r, c, seq![node], zero, one)
            } else {
                old(matrix).at(r, c)
            },
        final(rhs)@ == old(rhs)@.update(node as int, value),
{
    let dofs: [usize; 1] = [node];
    proof {
        assert(dofs@ =~= seq![node]);
    }
    apply_dense_constraints(matrix, dofs.as_slice(), one, ConstraintTarget::General, zero, one);
    rhs.set(node, value);
}

/// Imposing the same Dirichlet condition a second time changes neither the
/// matrix entries nor the right-hand side.
pub proof fn lemma_dirichlet_idempotent<T>(
    v: T,
    r: int,
    c: int,
    node: usize,
    zero: T,
    one: T,
    rhs: Seq<T>,
    value: T,
)
    requires
        node < rhs.len(),
    ensures
        constrained_value(constrained_value(v, r, c, seq![node], zero, one), r, c, seq![node], zero, one)
            == constrained_value(v, r, c, seq![node], zero, one),
        rhs.update(node as int, value).update(node as int, value) == rhs.update(node as int, value),
{
    assert(rhs.update(node as int, value).update(node as int, value) =~= rhs.update(node as int, value));
}

/// After eliminating a set of degrees of freedom, the row and the column of
/// each of them hold `zero` except on the diagonal, which holds the
/// penalty, and every entry whose row and column are both free keeps its
/// value.
pub proof fn lemma_constrained_rows_and_columns<T>(
    v: T,
    r: int,
    c: int,
    dofs: Seq<usize>,
    zero: T,
    penalty: T,
)
    requires
        0 <= r,
        0 <= c,
        r <= usize::MAX,
        c <= usize::MAX,
    ensures
        dofs.contains(r as usize) && r == c ==> constrained_value(v, r, c, dofs, zero, penalty)
            == penalty,
        (dofs.contains(r as usize) || dofs.contains(c as usize)) && r != c ==> constrained_value(
            v,
            r,
            c,
            dofs,
            zero,
            penalty,
        ) == zero,
        !dofs.contains(r as usize) && !dofs.contains(c as usize) ==> constrained_value(
            v,
            r,
            c,
            dofs,
            zero,
            penalty,
        ) == v,
{
}

} // verus!

//! Conversion between column-major and row-major layouts of N-dimensional
//! arrays.

use vstd::prelude::*;
use vstd::arithmetic::div_mod::lemma_fundamental_div_mod;
use vstd::arithmetic::div_mod::lemma_fundamental_div_mod_converse;

verus! {

/// Number of entries of an array with the given shape.
pub open spec fn shape_size(shape: Seq<usize>) -> nat
    decreases shape.len(),
{
    if shape.len() == 0 {
        1
    } else {
        (shape[0] as nat) * shape_size(shape.drop_first())
    }
}

/// Every extent of `shape` is positive.
pub open spec fn positive_extents(shape: Seq<usize>) -> bool {
    forall|k: int| 0 <= k < shape.len() ==> shape[k] > 0
}

/// `coords` has one coordinate per axis of `shape`, each below its extent.
pub open spec fn coords_in_range(coords: Seq<usize>, shape: Seq<usize>) -> bool {
    &&& coords.len() == shape.len()
    &&& forall|k: int| 0 <= k < shape.len() ==> coords[k] < shape[k]
}

/// Coordinates of the entry stored at position `idx` of a column-major
/// buffer: the first axis varies fastest.
pub open spec fn column_major_coords(idx: nat, shape: Seq<usize>) -> Seq<usize>
    decreases shape.len(),
{
    if shape.len() == 0 {
        seq![]
    } else {
        seq![(idx % (shape[0] as nat)) as usize] + column_major_coords(
            idx / (shape[0] as nat),
            shape.drop_first(),
        )
    }
}

/// Position of `coords` in a column-major buffer of the given shape.
pub open spec fn column_major_index(coords: Seq<usize>, shape: Seq<usize>) -> nat
    decreases shape.len(),
{
    if shape.len() == 0 || coords.len() == 0 {
        0
    } else {
        (coords[0] as nat) + (shape[0] as nat) * column_major_index(
            coords.drop_first(),
            shape.drop_first(),
        )
    }
}

/// Position of `coords` in a row-major buffer of the given shape: the last
/// axis varies fastest.  Coordinates and extents are matched from the last
/// axis backwards; surplus leading entries of the longer sequence are
/// ignored.
pub open spec fn row_major_index(coords: Seq<usize>, shape: Seq<usize>) -> nat
    decreases shape.len(),
{
    if shape.len() == 0 || coords.len() == 0 {
        0
    } else {
        (coords.last() as nat) + (shape.last() as nat) * row_major_index(
            coords.drop_last(),
            shape.drop_last(),
        )
    }
}

/// Coordinates of the entry stored at position `idx` of a row-major buffer.
pub open spec fn row_major_coords(idx: nat, shape: Seq<usize>) -> Seq<usize>
    decreases shape.len(),
{
    if shape.len() == 0 {
        seq![]
    } else {
        row_major_coords(idx / (shape.last() as nat), shape.drop_last()).push(
            (idx % (shape.last() as nat)) as usize,
        )
    }
}

/// The running index and multiplier of a row-major ravel stay within
/// `usize` at every step, starting from `index` and `multiplier`.
pub open spec fn ravel_fits(coords: Seq<usize>, shape: Seq<usize>, index: nat, multiplier: nat) -> bool
    decreases shape.len(),
{
    if shape.len() == 0 || coords.len() == 0 {
        true
    } else {
        let next_index = index + (coords.last() as nat) * multiplier;
        let next_multiplier = multiplier * (shape.last() as nat);
        &&& next_index <= usize::MAX
        &&& next_multiplier <= usize::MAX
        &&& ravel_fits(coords.drop_last(), shape.drop_last(), next_index, next_multiplier)
    }
}

/// Peels the last extent off the size of a shape.
pub proof fn lemma_shape_size_last(shape: Seq<usize>)
    requires
        shape.len() > 0,
    ensures
        shape_size(shape) == shape_size(shape.drop_last()) * (shape.last() as nat),
    decreases shape.len(),
{
    if shape.len() == 1 {
        assert(shape.drop_first().len() == 0);
        assert(shape.drop_last().len() == 0);
        assert(shape.last() == shape[0]);
        let a = shape[0] as nat;
        assert(shape_size(shape.drop_first()) == 1);
        assert(shape_size(shape.drop_last()) == 1);
        assert(shape_size(shape) == a * 1);
        assert(a * 1 == 1 * a) by (nonlinear_arith);
    } else {
        let rest = shape.drop_first();
        lemma_shape_size_last(rest);
        assert(rest.drop_last() =~= shape.drop_last().drop_first());
        assert(rest.last() == shape.last());
        assert(shape.drop_last()[0] == shape[0]);
        let a = shape[0] as nat;
        let b = shape_size(rest.drop_last());
        let c = shape.last() as nat;
        assert(shape_size(shape) == a * shape_size(rest));
        assert(shape_size(shape.drop_last()) == a * shape_size(shape.drop_last().drop_first()));
        assert(a * (b * c) == (a * b) * c) by (nonlinear_arith);
    }
}

/// A shape has entries exactly when all of its extents are positive.
pub proof fn lemma_shape_size_positive(shape: Seq<usize>)
    ensures
        shape_size(shape) > 0 <==> positive_extents(shape),
    decreases shape.len(),
{
    if shape.len() > 0 {
        let rest = shape.drop_first();
        lemma_shape_size_positive(rest);
        let a = shape[0] as nat;
        let b = shape_size(rest);
        assert(a * b > 0 <==> (a > 0 && b > 0)) by (nonlinear_arith);
        if positive_extents(shape) {
            assert forall|k: int| 0 <= k < rest.len() implies rest[k] > 0 by {
                assert(rest[k] == shape[k + 1]);
            }
        }
        if a > 0 && positive_extents(rest) {
            assert forall|k: int| 0 <= k < shape.len() implies shape[k] > 0 by {
                if k > 0 {
                    assert(shape[k] == rest[k - 1]);
                }
            }
        }
    }
}

/// Column-major coordinates always lie inside the shape.
pub proof fn lemma_column_major_coords_in_range(idx: nat, shape: Seq<usize>)
    requires
        positive_extents(shape),
    ensures
        coords_in_range(column_major_coords(idx, shape), shape),
    decreases shape.len(),
{
    if shape.len() > 0 {
        let d = shape[0] as nat;
        let rest = shape.drop_first();
        assert(positive_extents(rest)) by {
            assert forall|k: int| 0 <= k < rest.len() implies rest[k] > 0 by {
                assert(rest[k] == shape[k + 1]);
            }
        }
        lemma_column_major_coords_in_range(idx / d, rest);
        let tail = column_major_coords(idx / d, rest);
        let c = column_major_coords(idx, shape);
        assert(idx % d < d);
        assert forall|k: int| 0 <= k < shape.len() implies c[k] < shape[k] by {
            if k > 0 {
                assert(c[k] == tail[k - 1]);
                assert(rest[k - 1] == shape[k]);
            }
        }
    }
}

/// Reading the coordinates of a column-major position back gives the
/// position.
pub proof fn lemma_column_major_round_trip(idx: nat, shape: Seq<usize>)
    requires
        positive_extents(shape),
        idx < shape_size(shape),
    ensures
        column_major_index(column_major_coords(idx, shape), shape) == idx,
    decreases shape.len(),
{
    if shape.len() > 0 {
        let d = shape[0] as nat;
        let rest = shape.drop_first();
        let q = idx / d;
        let r = idx % d;
        lemma_fundamental_div_mod(idx as int, d as int);
        let sr = shape_size(rest);
        assert(q < sr) by (nonlinear_arith)
            requires
                idx < d * sr,
                idx == d * q + r,
                0 <= r,
                d > 0,
        ;
        assert(positive_extents(rest)) by {
            assert forall|k: int| 0 <= k < rest.len() implies rest[k] > 0 by {
                assert(rest[k] == shape[k + 1]);
            }
        }
        lemma_column_major_round_trip(q, rest);
        let c = column_major_coords(idx, shape);
        assert(c.drop_first() =~= column_major_coords(q, rest));
        assert(c[0] == r);
    }
}

/// Coordinates inside the shape have a column-major position inside the
/// buffer, from which they are recovered.
pub proof fn lemma_column_major_index_in_range(coords: Seq<usize>, shape: Seq<usize>)
    requires
        coords_in_range(coords, shape),
    ensures
        column_major_index(coords, shape) < shape_size(shape),
        column_major_coords(column_major_index(coords, shape), shape) == coords,
    decreases shape.len(),
{
    if shape.len() == 0 {
        assert(coords =~= Seq::<usize>::empty());
    } else {
        let d = shape[0] as nat;
        let rest = shape.drop_first();
        let crest = coords.drop_first();
        assert(coords_in_range(crest, rest)) by {
            assert forall|k: int| 0 <= k < rest.len() implies crest[k] < rest[k] by {
                assert(rest[k] == shape[k + 1]);
                assert(crest[k] == coords[k + 1]);
            }
        }
        lemma_column_major_index_in_range(crest, rest);
        let r = column_major_index(crest, rest);
        let sr = shape_size(rest);
        let c0 = coords[0] as nat;
        let x = column_major_index(coords, shape);
        assert(x == c0 + d * r);
        assert(x < d * sr) by (nonlinear_arith)
            requires
                x == c0 + d * r,
                c0 < d,
                r < sr,
        ;
        assert(x == r * d + c0) by (nonlinear_arith)
            requires
                x == c0 + d * r,
        ;
        lemma_fundamental_div_mod_converse(x as int, d as int, r as int, c0 as int);
        assert(column_major_coords(x, shape) =~= coords);
    }
}

/// Row-major positions of coordinates inside the shape lie inside the
/// buffer, and the coordinates are recovered from them.
pub proof fn lemma_row_major_index_in_range(coords: Seq<usize>, shape: Seq<usize>)
    requires
        coords_in_range(coords, shape),
    ensures
        row_major_index(coords, shape) < shape_size(shape),
        row_major_coords(row_major_index(coords, shape), shape) == coords,
    decreases shape.len(),
{
    if shape.len() == 0 {
        assert(coords =~= Seq::<usize>::empty());
    } else {
        let d = shape.last() as nat;
        let rest = shape.drop_last();
        let crest = coords.drop_last();
        assert(coords_in_range(crest, rest));
        lemma_row_major_index_in_range(crest, rest);
        lemma_shape_size_last(shape);
        let r = row_major_index(crest, rest);
        let sr = shape_size(rest);
        let cl = coords.last() as nat;
        let x = row_major_index(coords, shape);
        assert(x == cl + d * r);
        assert(x < sr * d) by (nonlinear_arith)
            requires
                x == cl + d * r,
                cl < d,
                r < sr,
        ;
        assert(x == r * d + cl) by (nonlinear_arith)
            requires
                x == cl + d * r,
        ;
        lemma_fundamental_div_mod_converse(x as int, d as int, r as int, cl as int);
        assert(row_major_coords(x, shape) =~= coords);
    }
}

/// Row-major coordinates of a position inside the buffer lie inside the
/// shape and lead back to the position.
pub proof fn lemma_row_major_round_trip(idx: nat, shape: Seq<usize>)
    requires
        idx < shape_size(shape),
    ensures
        coords_in_range(row_major_coords(idx, shape), shape),
        row_major_index(row_major_coords(idx, shape), shape) == idx,
    decreases shape.len(),
{
    if shape.len() > 0 {
        let d = shape.last() as nat;
        let rest = shape.drop_last();
        lemma_shape_size_last(shape);
        let sr = shape_size(rest);
        assert(d > 0) by (nonlinear_arith)
            requires
                idx < sr * d,
        ;
        let q = idx / d;
        let r = idx % d;
        lemma_fundamental_div_mod(idx as int, d as int);
        assert(q < sr) by (nonlinear_arith)
            requires
                idx < sr * d,
                idx == d * q + r,
                0 <= r,
                d > 0,
        ;
        lemma_row_major_round_trip(q, rest);
        let c = row_major_coords(idx, shape);
        let tail = row_major_coords(q, rest);
        assert(c.drop_last() =~= tail);
        assert(c.last() == r);
        assert forall|k: int| 0 <= k < shape.len() implies c[k] < shape[k] by {
            if k < shape.len() - 1 {
                assert(c[k] == tail[k]);
                assert(rest[k] == shape[k]);
            }
        }
    }
}

/// In-range coordinates ravel without overflow when the final multiplier
/// fits in `usize`.
pub proof fn lemma_ravel_fits(coords: Seq<usize>, shape: Seq<usize>, index: nat, multiplier: nat)
    requires
        coords_in_range(coords, shape),
        index < multiplier,
        multiplier * shape_size(shape) <= usize::MAX,
    ensures
        ravel_fits(coords, shape, index, multiplier),
    decreases shape.len(),
{
    if shape.len() > 0 {
        let d = shape.last() as nat;
        let rest = shape.drop_last();
        let cl = coords.last() as nat;
        assert(coords_in_range(coords.drop_last(), rest));
        lemma_shape_size_last(shape);
        lemma_shape_size_positive(rest);
        assert(positive_extents(rest));
        let sr = shape_size(rest);
        let next_index = index + cl * multiplier;
        let next_multiplier = multiplier * d;
        assert(next_index < next_multiplier && next_multiplier <= next_multiplier * sr
            && next_multiplier * sr == multiplier * (sr * d)) by (nonlinear_arith)
            requires
                next_index == index + cl * multiplier,
                next_multiplier == multiplier * d,
                index < multiplier,
                cl < d,
                sr > 0,
        ;
        lemma_ravel_fits(coords.drop_last(), rest, next_index, next_multiplier);
    }
}

/// Row-major position of the entry stored at column-major position `idx`.
pub open spec fn column_to_row_position(idx: nat, shape: Seq<usize>) -> nat {
    row_major_index(column_major_coords(idx, shape), shape)
}

/// Column-major position of the entry stored at row-major position `idx`.
pub open spec fn row_to_column_position(idx: nat, shape: Seq<usize>) -> nat {
    column_major_index(row_major_coords(idx, shape), shape)
}

/// Moving an array from column-major to row-major layout is a permutation
/// of the buffer positions: every column-major position is sent to a
/// position inside the buffer, and the row-to-column map undoes it on both
/// sides, so no entry is lost and no slot is written twice.
pub proof fn lemma_layout_change_is_permutation(shape: Seq<usize>)
    ensures
        forall|i: nat| #![trigger column_to_row_position(i, shape)]
            i < shape_size(shape) ==> {
                &&& column_to_row_position(i, shape) < shape_size(shape)
                &&& row_to_column_position(column_to_row_position(i, shape), shape) == i
            },
        forall|k: nat| #![trigger row_to_column_position(k, shape)]
            k < shape_size(shape) ==> {
                &&& row_to_column_position(k, shape) < shape_size(shape)
                &&& column_to_row_position(row_to_column_position(k, shape), shape) == k
            },
{
    assert forall|i: nat| #![trigger column_to_row_position(i, shape)]
        i < shape_size(shape) implies {
            &&& column_to_row_position(i, shape) < shape_size(shape)
            &&& row_to_column_position(column_to_row_position(i, shape), shape) == i
        } by {
        lemma_column_to_row_position(i, shape);
    }
    assert forall|k: nat| #![trigger row_to_column_position(k, shape)]
        k < shape_size(shape) implies {
            &&& row_to_column_position(k, shape) < shape_size(shape)
            &&& column_to_row_position(row_to_column_position(k, shape), shape) == k
        } by {
        lemma_row_to_column_position(k, shape);
    }
}

proof fn lemma_column_to_row_position(i: nat, shape: Seq<usize>)
    requires
        i < shape_size(shape),
    ensures
        column_to_row_position(i, shape) < shape_size(shape),
        row_to_column_position(column_to_row_position(i, shape), shape) == i,
{
    lemma_shape_size_positive(shape);
    lemma_column_major_coords_in_range(i, shape);
    let c = column_major_coords(i, shape);
    lemma_row_major_index_in_range(c, shape);
    lemma_column_major_round_trip(i, shape);
}

proof fn lemma_row_to_column_position(k: nat, shape: Seq<usize>)
    requires
        k < shape_size(shape),
    ensures
        row_to_column_position(k, shape) < shape_size(shape),
        column_to_row_position(row_to_column_position(k, shape), shape) == k,
{
    lemma_row_major_round_trip(k, shape);
    let c = row_major_coords(k, shape);
    lemma_column_major_index_in_range(c, shape);
}

/// Closed form of the row-major position: the sum over the axes of the
/// coordinate times the number of entries of the axes after it.
pub open spec fn row_major_sum(coords: Seq<usize>, shape: Seq<usize>) -> nat
    decreases shape.len(),
{
    if shape.len() == 0 || coords.len() == 0 {
        0
    } else {
        (coords[0] as nat) * shape_size(shape.drop_first()) + row_major_sum(
            coords.drop_first(),
            shape.drop_first(),
        )
    }
}

/// Closed form of the column-major position: the sum over the axes of the
/// coordinate times the number of entries of the axes before it.
pub open spec fn column_major_sum(coords: Seq<usize>, shape: Seq<usize>) -> nat
    decreases shape.len(),
{
    if shape.len() == 0 || coords.len() == 0 {
        0
    } else {
        column_major_sum(coords.drop_last(), shape.drop_last()) + (coords.last() as nat)
            * shape_size(shape.drop_last())
    }
}

proof fn lemma_row_major_sum_last(coords: Seq<usize>, shape: Seq<usize>)
    requires
        coords.len() == shape.len(),
        shape.len() > 0,
    ensures
        row_major_sum(coords, shape) == row_major_sum(coords.drop_last(), shape.drop_last()) * (
        shape.last() as nat) + (coords.last() as nat),
    decreases shape.len(),
{
    if shape.len() == 1 {
        assert(shape.drop_first().len() == 0);
        assert(coords.drop_last().len() == 0);
        assert(shape_size(shape.drop_first()) == 1);
        let c0 = coords[0] as nat;
        let l = shape.last() as nat;
        assert(c0 * 1 == c0 && 0 * l == 0) by (nonlinear_arith);
        assert(coords.last() == coords[0]);
        assert(row_major_sum(coords.drop_first(), shape.drop_first()) == 0);
        assert(row_major_sum(coords, shape) == c0 * 1 + 0);
        assert(row_major_sum(coords.drop_last(), shape.drop_last()) == 0);
    } else {
        let cf = coords.drop_first();
        let sf = shape.drop_first();
        lemma_row_major_sum_last(cf, sf);
        lemma_shape_size_last(sf);
        assert(cf.drop_last() =~= coords.drop_last().drop_first());
        assert(sf.drop_last() =~= shape.drop_last().drop_first());
        assert(cf.last() == coords.last());
        assert(sf.last() == shape.last());
        assert(coords.drop_last()[0] == coords[0]);
        let c0 = coords[0] as nat;
        let a = shape_size(sf.drop_last());
        let l = shape.last() as nat;
        let r = row_major_sum(cf.drop_last(), sf.drop_last());
        assert(row_major_sum(coords.drop_last(), shape.drop_last()) == c0 * a + r);
        assert(row_major_sum(coords, shape) == c0 * shape_size(sf) + row_major_sum(cf, sf));
        assert(shape_size(sf) == a * l);
        assert(row_major_sum(cf, sf) == r * l + (coords.last() as nat));
        assert(c0 * (a * l) + (r * l + coords.last()) == (c0 * a + r) * l + coords.last())
            by (nonlinear_arith);
    }
}

/// The row-major position is the closed-form sum.
pub proof fn lemma_row_major_index_closed_form(coords: Seq<usize>, shape: Seq<usize>)
    requires
        coords.len() == shape.len(),
    ensures
        row_major_index(coords, shape) == row_major_sum(coords, shape),
    decreases shape.len(),
{
    if shape.len() > 0 {
        lemma_row_major_index_closed_form(coords.drop_last(), shape.drop_last());
        lemma_row_major_sum_last(coords, shape);
        let r = row_major_sum(coords.drop_last(), shape.drop_last());
        let l = shape.last() as nat;
        assert(l * r == r * l) by (nonlinear_arith);
    }
}

proof fn lemma_column_major_sum_first(coords: Seq<usize>, shape: Seq<usize>)
    requires
        coords.len() == shape.len(),
        shape.len() > 0,
    ensures
        column_major_sum(coords, shape) == (coords[0] as nat) + (shape[0] as nat) * column_major_sum(
            coords.drop_first(),
            shape.drop_first(),
        ),
    decreases shape.len(),
{
    if shape.len() == 1 {
        assert(shape.drop_last().len() == 0);
        assert(coords.drop_first().len() == 0);
        assert(shape_size(shape.drop_last()) == 1);
        let c0 = coords[0] as nat;
        let s0 = shape[0] as nat;
        assert(c0 * 1 == c0 && s0 * 0 == 0) by (nonlinear_arith);
        assert(coords.last() == coords[0]);
        assert(column_major_sum(coords.drop_first(), shape.drop_first()) == 0);
        assert(column_major_sum(coords.drop_last(), shape.drop_last()) == 0);
        assert(column_major_sum(coords, shape) == 0 + c0 * 1);
    } else {
        let cl = coords.drop_last();
        let sl = shape.drop_last();
        lemma_column_major_sum_first(cl, sl);
        assert(cl.drop_first() =~= coords.drop_first().drop_last());
        assert(sl.drop_first() =~= shape.drop_first().drop_last());
        assert(cl[0] == coords[0]);
        assert(sl[0] == shape[0]);
        assert(coords.drop_first().last() == coords.last());
        assert(shape_size(sl) == (shape[0] as nat) * shape_size(sl.drop_first()));
        let s0 = shape[0] as nat;
        let c0 = coords[0] as nat;
        let r = column_major_sum(cl.drop_first(), sl.drop_first());
        let z = (coords.last() as nat) * shape_size(sl.drop_first());
        assert(column_major_sum(coords.drop_first(), shape.drop_first()) == r + z);
        assert(column_major_sum(coords, shape) == column_major_sum(cl, sl) + (coords.last() as nat)
            * shape_size(sl));
        assert(column_major_sum(cl, sl) == c0 + s0 * r);
        assert(c0 + s0 * r + (coords.last() as nat) * (s0 * shape_size(sl.drop_first())) == c0 + s0
            * (r + z)) by (nonlinear_arith)
            requires
                z == (coords.last() as nat) * shape_size(sl.drop_first()),
        ;
    }
}

/// The column-major position is the closed-form sum.
pub proof fn lemma_column_major_index_closed_form(coords: Seq<usize>, shape: Seq<usize>)
    requires
        coords.len() == shape.len(),
    ensures
        column_major_index(coords, shape) == column_major_sum(coords, shape),
    decreases shape.len(),
{
    if shape.len() > 0 {
        lemma_column_major_index_closed_form(coords.drop_first(), shape.drop_first());
        lemma_column_major_sum_first(coords, shape);
    }
}

/// Coordinate `k` of column-major position `idx` is `idx` divided by the
/// number of entries of the axes before `k`, modulo the extent of axis `k`.
pub proof fn lemma_column_major_coord_formula(idx: nat, shape: Seq<usize>, k: int)
    requires
        positive_extents(shape),
        0 <= k < shape.len(),
    ensures
        column_major_coords(idx, shape).len() == shape.len(),
        column_major_coords(idx, shape)[k] as nat == (idx / shape_size(shape.take(k))) % (
        shape[k] as nat),
    decreases shape.len(),
{
    lemma_column_major_coords_in_range(idx, shape);
    let d = shape[0] as nat;
    let rest = shape.drop_first();
    assert(positive_extents(rest)) by {
        assert forall|m: int| 0 <= m < rest.len() implies rest[m] > 0 by {
            assert(rest[m] == shape[m + 1]);
        }
    }
    let c = column_major_coords(idx, shape);
    if k == 0 {
        assert(shape.take(0).len() == 0);
        assert(shape_size(shape.take(0)) == 1);
        assert(c[0] == (idx % d) as usize);
        assert(idx % d < d);
        assert(idx / 1 == idx);
        assert(shape[0] == shape[k]);
    } else {
        lemma_column_major_coord_formula(idx / d, rest, k - 1);
        assert(shape.take(k).drop_first() =~= rest.take(k - 1));
        assert(shape.take(k)[0] == shape[0]);
        let q = shape_size(rest.take(k - 1));
        assert(positive_extents(rest.take(k - 1)));
        lemma_shape_size_positive(rest.take(k - 1));
        vstd::arithmetic::div_mod::lemma_div_denominator(idx as int, d as int, q as int);
        assert(shape_size(shape.take(k)) == d * q);
        assert(c[k] == column_major_coords(idx / d, rest)[k - 1]);
        assert(rest[k - 1] == shape[k]);
        assert(rest.take(k - 1).len() == k - 1);
        assert((idx / d) / q == idx / (d * q));
    }
}

/// Column-major coordinates only depend on the position modulo the number
/// of entries of the shape.
pub proof fn lemma_column_major_coords_mod(idx: nat, shape: Seq<usize>)
    requires
        positive_extents(shape),
    ensures
        column_major_coords(idx % shape_size(shape), shape) == column_major_coords(idx, shape),
    decreases shape.len(),
{
    lemma_shape_size_positive(shape);
    if shape.len() > 0 {
        let d = shape[0] as nat;
        let rest = shape.drop_first();
        assert(positive_extents(rest)) by {
            assert forall|m: int| 0 <= m < rest.len() implies rest[m] > 0 by {
                assert(rest[m] == shape[m + 1]);
            }
        }
        lemma_shape_size_positive(rest);
        let r = shape_size(rest);
        lemma_column_major_coords_mod(idx / d, rest);
        let m = idx % (d * r);
        vstd::arithmetic::div_mod::lemma_mod_mod(idx as int, d as int, r as int);
        vstd::arithmetic::div_mod::lemma_mod_breakdown(idx as int, d as int, r as int);
        let q = (idx / d) % r;
        assert(m == q * d + idx % d) by (nonlinear_arith)
            requires
                m == d * q + idx % d,
        ;
        vstd::arithmetic::div_mod::lemma_fundamental_div_mod_converse(
            m as int,
            d as int,
            q as int,
            (idx % d) as int,
        );
        assert(column_major_coords(m, shape) =~= column_major_coords(idx, shape));
    } else {
        assert(column_major_coords(idx % shape_size(shape), shape) =~= column_major_coords(idx, shape));
    }
}

/// Distinct positions of the buffer have distinct column-major coordinates.
pub proof fn lemma_column_major_coords_injective(i: nat, j: nat, shape: Seq<usize>)
    requires
        positive_extents(shape),
        i < shape_size(shape),
        j < shape_size(shape),
        column_major_coords(i, shape) == column_major_coords(j, shape),
    ensures
        i == j,
{
    lemma_column_major_round_trip(i, shape);
    lemma_column_major_round_trip(j, shape);
}

/// Distinct in-range coordinates have distinct row-major positions.
pub proof fn lemma_row_major_index_injective(a: Seq<usize>, b: Seq<usize>, shape: Seq<usize>)
    requires
        coords_in_range(a, shape),
        coords_in_range(b, shape),
        row_major_index(a, shape) == row_major_index(b, shape),
    ensures
        a == b,
{
    lemma_row_major_index_in_range(a, shape);
    lemma_row_major_index_in_range(b, shape);
}

/// Splits a column-major position into its coordinates, one per axis of
/// `shape`, the first axis varying fastest.
pub fn unravel_column_major(idx: usize, shape: &[usize]) -> (coords: Vec<usize>)
    requires
        positive_extents(shape@),
    ensures
        coords@ == column_major_coords(idx as nat, shape@),
{
    let mut rest = idx;
    let mut coords: Vec<usize> = Vec::with_capacity(shape.len());
    let mut k: usize = 0;
    assert(shape@.skip(0) =~= shape@);
    assert(coords@ + column_major_coords(idx as nat, shape@) =~= column_major_coords(idx as nat, shape@));
    while k < shape.len()
        invariant
            k <= shape.len(),
            positive_extents(shape@),
            coords@ + column_major_coords(rest as nat, shape@.skip(k as int)) == column_major_coords(
                idx as nat,
                shape@,
            ),
        decreases shape.len() - k,
    {
        let dim = shape[k];
        let ghost old_coords = coords@;
        let ghost old_rest = rest;
        assert(shape@.skip(k as int).drop_first() =~= shape@.skip(k as int + 1));
        assert(shape@.skip(k as int)[0] == dim);
        let coordinate = rest % dim;
        coords.push(coordinate);
        rest = rest / dim;
        k = k + 1;
        proof {
            assert(column_major_coords(old_rest as nat, shape@.skip(k - 1)) == seq![coordinate]
                + column_major_coords(rest as nat, shape@.skip(k as int)));
            assert(coords@ + column_major_coords(rest as nat, shape@.skip(k as int)) =~= old_coords
                + column_major_coords(old_rest as nat, shape@.skip(k - 1)));
        }
    }
    assert(shape@.skip(k as int) =~= Seq::<usize>::empty());
    assert(coords@ + Seq::<usize>::empty() =~= coords@);
    coords
}

/// Position in a row-major buffer of the entry at `coords`.  Coordinates and
/// extents are paired from the last axis backwards.
pub fn ravel_row_major(coords: &[usize], shape: &[usize]) -> (index: usize)
    requires
        ravel_fits(coords@, shape@, 0, 1),
    ensures
        index == row_major_index(coords@, shape@),
{
    let mut multiplier: usize = 1;
    let mut index: usize = 0;
    let mut c: usize = coords.len();
    let mut s: usize = shape.len();
    assert(coords@.take(c as int) =~= coords@);
    assert(shape@.take(s as int) =~= shape@);
    while c > 0 && s > 0
        invariant
            c <= coords.len(),
            s <= shape.len(),
            coords.len() - c == shape.len() - s,
            ravel_fits(coords@.take(c as int), shape@.take(s as int), index as nat, multiplier as nat),
            row_major_index(coords@, shape@) == index + multiplier * row_major_index(
                coords@.take(c as int),
                shape@.take(s as int),
            ),
        decreases c,
    {
        let coord = coords[c - 1];
        let dim = shape[s - 1];
        assert(coords@.take(c as int).drop_last() =~= coords@.take(c - 1));
        assert(shape@.take(s as int).drop_last() =~= shape@.take(s - 1));
        let ghost rest = row_major_index(coords@.take(c - 1), shape@.take(s - 1));
        proof {
            assert(multiplier * ((coord as nat) + (dim as nat) * rest) == coord * multiplier + (
            multiplier * dim) * rest) by (nonlinear_arith);
        }
        index = index + coord * multiplier;
        multiplier = multiplier * dim;
        c = c - 1;
        s = s - 1;
    }
    assert(coords@.take(c as int).len() == 0 || shape@.take(s as int).len() == 0);
    let ghost tail = row_major_index(coords@.take(c as int), shape@.take(s as int));
    assert(tail == 0);
    assert(multiplier * tail == 0) by (nonlinear_arith)
        requires
            tail == 0,
    ;
    index
}

/// Reorders a column-major buffer (first axis fastest) into row-major order
/// (last axis fastest) for an array of the given shape.
pub fn column_major_to_row_major<T: Copy>(values: &[T], shape: &[usize]) -> (out: Vec<T>)
    requires
        values.len() == shape_size(shape@),
    ensures
        out.len() == values.len(),
        forall|i: int|
            0 <= i < values.len() ==> out@[column_to_row_position(i as nat, shape@) as int]
                == values@[i],
        forall|k: int|
            0 <= k < values.len() ==> out@[k] == values@[row_to_column_position(
                k as nat,
                shape@,
            ) as int],
{
    let total = values.len();
    let mut out: Vec<T> = Vec::with_capacity(total);
    if total == 0 {
        return out;
    }
    let first = values[0];
    let mut n: usize = 0;
    while n < total
        invariant
            n <= total,
            out.len() == n,
        decreases total - n,
    {
        out.push(first);
        n = n + 1;
    }
    proof {
        lemma_shape_size_positive(shape@);
    }
    let mut col_major_idx: usize = 0;
    while col_major_idx < total
        invariant
            total == values.len(),
            total == shape_size(shape@),
            positive_extents(shape@),
            col_major_idx <= total,
            out.len() == total,
            forall|j: int|
                0 <= j < col_major_idx ==> out@[column_to_row_position(j as nat, shape@) as int]
                    == values@[j],
        decreases total - col_major_idx,
    {
        let coords = unravel_column_major(col_major_idx, shape);
        proof {
            lemma_column_to_row_position(col_major_idx as nat, shape@);
            lemma_column_major_coords_in_range(col_major_idx as nat, shape@);
            lemma_ravel_fits(coords@, shape@, 0, 1);
        }
        let row_major_idx = ravel_row_major(&coords, shape);
        let ghost before = out@;
        out.set(row_major_idx, values[col_major_idx]);
        proof {
            assert forall|j: int| 0 <= j < col_major_idx + 1 implies out@[column_to_row_position(j as nat, shape@) as int]
                == values@[j] by {
                if j < col_major_idx {
                    lemma_column_to_row_position(j as nat, shape@);
                    assert(column_to_row_position(j as nat, shape@) != row_major_idx);
                }
            }
        }
        col_major_idx = col_major_idx + 1;
    }
    proof {
        assert forall|k: int| 0 <= k < total implies out@[k] == values@[row_to_column_position(
            k as nat,
            shape@,
        ) as int] by {
            lemma_row_to_column_position(k as nat, shape@);
        }
    }
    out
}

} // verus!

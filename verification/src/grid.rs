//! Topology of a rectangular tensor grid stored row by row: node layout,
//! triangulation of the cells and five-point stencil neighbours.

use vstd::prelude::*;
use vstd::arithmetic::div_mod::lemma_fundamental_div_mod_converse;
use crate::mesh::Node2D;

verus! {

/// Lower-left corner of the cell that element `k` of a triangulated grid
/// with `nx` points per row belongs to (two elements per cell, cells in
/// row-major order).
pub open spec fn cell_corner(nx: nat, k: nat) -> nat {
    let cell = k / 2;
    let cells_per_row = (nx - 1) as nat;
    (cell / cells_per_row) * nx + cell % cells_per_row
}

/// Element `k` of the triangulation: the even element of a cell is
/// (lower-left, lower-right, upper-right), the odd one is
/// (lower-left, upper-right, upper-left).
pub open spec fn is_grid_element(e: [usize; 3], nx: nat, k: nat) -> bool {
    let ll = cell_corner(nx, k);
    if k % 2 == 0 {
        &&& e@[0] == ll
        &&& e@[1] == ll + 1
        &&& e@[2] == ll + nx + 1
    } else {
        &&& e@[0] == ll
        &&& e@[1] == ll + nx + 1
        &&& e@[2] == ll + nx
    }
}

/// Nodes of the tensor grid of `xs` by `ys`, row by row: node `k` sits at
/// `xs[k % nx]`, `ys[k / nx]`.
pub fn grid_nodes<F: Copy>(xs: &[F], ys: &[F]) -> (nodes: Vec<Node2D<F>>)
    requires
        xs.len() * ys.len() <= usize::MAX,
    ensures
        nodes.len() == xs.len() * ys.len(),
        forall|k: int|
            0 <= k < nodes.len() ==> {
                &&& #[trigger] nodes@[k].x == xs@[k % (xs.len() as int)]
                &&& nodes@[k].y == ys@[k / (xs.len() as int)]
            },
{
    let nx = xs.len();
    let ny = ys.len();
    let mut nodes: Vec<Node2D<F>> = Vec::with_capacity(nx * ny);
    let mut j: usize = 0;
    while j < ny
        invariant
            nx == xs.len(),
            ny == ys.len(),
            nx * ny <= usize::MAX,
            j <= ny,
            nodes.len() == j * nx,
            forall|k: int|
                0 <= k < nodes.len() ==> {
                    &&& #[trigger] nodes@[k].x == xs@[k % (nx as int)]
                    &&& nodes@[k].y == ys@[k / (nx as int)]
                },
        decreases ny - j,
    {
        let y = ys[j];
        let mut i: usize = 0;
        while i < nx
            invariant
                nx == xs.len(),
                ny == ys.len(),
                j < ny,
                i <= nx,
                nodes.len() == j * nx + i,
                y == ys@[j as int],
                forall|k: int|
                    0 <= k < nodes.len() ==> {
                        &&& #[trigger] nodes@[k].x == xs@[k % (nx as int)]
                        &&& nodes@[k].y == ys@[k / (nx as int)]
                    },
            decreases nx - i,
        {
            let x = xs[i];
            let ghost k = nodes.len() as int;
            proof {
                lemma_fundamental_div_mod_converse(k, nx as int, j as int, i as int);
            }
            nodes.push(Node2D { x, y });
            i = i + 1;
        }
        proof {
            assert(j * nx + nx == (j + 1) * nx) by (nonlinear_arith);
        }
        j = j + 1;
    }
    assert(j * nx == nx * ny) by (nonlinear_arith)
        requires
            j == ny,
    ;
    nodes
}

/// Triangulation of a grid with `nx` points per row and `ny` rows: two
/// triangles per cell, cells in row-major order.
pub fn grid_elements(nx: usize, ny: usize) -> (elements: Vec<[usize; 3]>)
    requires
        nx >= 1,
        ny >= 1,
        nx * ny <= usize::MAX,
    ensures
        elements.len() == 2 * ((nx - 1) * (ny - 1)),
        forall|k: int|
            0 <= k < elements.len() ==> is_grid_element(#[trigger] elements@[k], nx as nat, k as nat),
        forall|k: int, m: int|
            0 <= k < elements.len() && 0 <= m < 3 ==> #[trigger] elements@[k]@[m] < nx * ny,
{
    let row_stride = nx;
    let mut elements: Vec<[usize; 3]> = Vec::new();
    let mut j: usize = 0;
    while j < ny - 1
        invariant
            nx >= 1,
            ny >= 1,
            nx * ny <= usize::MAX,
            row_stride == nx,
            j <= ny - 1,
            elements.len() == 2 * (j * (nx - 1)),
            forall|k: int|
                0 <= k < elements.len() ==> is_grid_element(#[trigger] elements@[k], nx as nat, k as nat),
            forall|k: int, m: int|
                0 <= k < elements.len() && 0 <= m < 3 ==> #[trigger] elements@[k]@[m] < nx * ny,
        decreases ny - 1 - j,
    {
        let mut i: usize = 0;
        while i < nx - 1
            invariant
                nx >= 1,
                ny >= 1,
                nx * ny <= usize::MAX,
                row_stride == nx,
                j < ny - 1,
                i <= nx - 1,
                elements.len() == 2 * (j * (nx - 1) + i),
                forall|k: int|
                    0 <= k < elements.len() ==> is_grid_element(#[trigger] elements@[k], nx as nat, k as nat),
                forall|k: int, m: int|
                    0 <= k < elements.len() && 0 <= m < 3 ==> #[trigger] elements@[k]@[m] < nx * ny,
            decreases nx - 1 - i,
        {
            proof {
                assert(j * nx + i + nx + 1 < nx * ny) by (nonlinear_arith)
                    requires
                        j < ny - 1,
                        i < nx - 1,
                ;
            }
            let lower_left = j * row_stride + i;
            let lower_right = lower_left + 1;
            let upper_left = lower_left + row_stride;
            let upper_right = upper_left + 1;
            let ghost cell = j * (nx - 1) + i;
            let ghost k0 = elements.len() as int;
            proof {
                lemma_fundamental_div_mod_converse(cell, (nx - 1) as int, j as int, i as int);
                assert(k0 / 2 == cell && k0 % 2 == 0);
                assert((k0 + 1) / 2 == cell && (k0 + 1) % 2 == 1);
            }
            elements.push([lower_left, lower_right, upper_right]);
            elements.push([lower_left, upper_right, upper_left]);
            proof {
                assert(is_grid_element(elements@[k0], nx as nat, k0 as nat));
                assert(is_grid_element(elements@[k0 + 1], nx as nat, (k0 + 1) as nat));
            }
            i = i + 1;
        }
        proof {
            assert(j * (nx - 1) + (nx - 1) == (j + 1) * (nx - 1)) by (nonlinear_arith);
        }
        j = j + 1;
    }
    assert(j * (nx - 1) == (nx - 1) * (ny - 1)) by (nonlinear_arith)
        requires
            j == ny - 1,
    ;
    elements
}

/// The four neighbours of a node in a five-point stencil; `None` where the
/// node has no neighbour on that side.
#[derive(Debug, Clone, Copy, PartialEq, Eq)]
pub struct Neighbors {
    pub left: Option<usize>,
    pub right: Option<usize>,
    pub down: Option<usize>,
    pub up: Option<usize>,
}

/// Stencil of node `idx` in a grid of `n_nodes` nodes stored row by row
/// with `row_stride` nodes per row, read off the node index alone.
pub open spec fn stencil_by_index(idx: nat, row_stride: nat, n_nodes: nat) -> Neighbors {
    Neighbors {
        left: if idx % row_stride > 0 { Some((idx - 1) as usize) } else { None },
        right: if (idx + 1) % row_stride != 0 { Some((idx + 1) as usize) } else { None },
        down: if idx >= row_stride { Some((idx - row_stride) as usize) } else { None },
        up: if idx + row_stride < n_nodes { Some((idx + row_stride) as usize) } else { None },
    }
}

/// Stencil of the node `center` sitting at column `x_idx` and row `y_idx`
/// of an `nx` by `ny` grid whose rows are `row_stride` nodes apart.
pub open spec fn stencil_by_position(
    center: nat,
    x_idx: nat,
    y_idx: nat,
    nx: nat,
    ny: nat,
    row_stride: nat,
) -> Neighbors {
    Neighbors {
        left: if x_idx > 0 { Some((center - 1) as usize) } else { None },
        right: if x_idx + 1 < nx { Some((center + 1) as usize) } else { None },
        down: if y_idx > 0 { Some((center - row_stride) as usize) } else { None },
        up: if y_idx + 1 < ny { Some((center + row_stride) as usize) } else { None },
    }
}

/// Neighbours of node `idx` in a grid stored row by row with `row_stride`
/// nodes per row and `n_nodes` nodes in all: left and right within the
/// row, down and up one row away.
pub fn neighbors_by_index(idx: usize, row_stride: usize, n_nodes: usize) -> (nb: Neighbors)
    requires
        row_stride > 0,
        idx + row_stride <= usize::MAX,
    ensures
        nb == stencil_by_index(idx as nat, row_stride as nat, n_nodes as nat),
{
    let left = if idx % row_stride > 0 {
        Some(idx - 1)
    } else {
        None
    };
    let right = if (idx + 1) % row_stride != 0 {
        Some(idx + 1)
    } else {
        None
    };
    let down = if idx >= row_stride {
        Some(idx - row_stride)
    } else {
        None
    };
    let up = if idx + row_stride < n_nodes {
        Some(idx + row_stride)
    } else {
        None
    };
    Neighbors { left, right, down, up }
}

/// Neighbours of the node `center` at column `x_idx` and row `y_idx` of an
/// `nx` by `ny` grid whose rows are `row_stride` nodes apart.
pub fn neighbors_by_position(
    center: usize,
    x_idx: usize,
    y_idx: usize,
    nx: usize,
    ny: usize,
    row_stride: usize,
) -> (nb: Neighbors)
    requires
        x_idx < usize::MAX,
        y_idx < usize::MAX,
        x_idx > 0 ==> center >= 1,
        y_idx > 0 ==> center >= row_stride,
        x_idx + 1 < nx ==> center < usize::MAX,
        y_idx + 1 < ny ==> center + row_stride <= usize::MAX,
    ensures
        nb == stencil_by_position(
            center as nat,
            x_idx as nat,
            y_idx as nat,
            nx as nat,
            ny as nat,
            row_stride as nat,
        ),
{
    let left = if x_idx > 0 {
        Some(center - 1)
    } else {
        None
    };
    let right = if x_idx + 1 < nx {
        Some(center + 1)
    } else {
        None
    };
    let down = if y_idx > 0 {
        Some(center - row_stride)
    } else {
        None
    };
    let up = if y_idx + 1 < ny {
        Some(center + row_stride)
    } else {
        None
    };
    Neighbors { left, right, down, up }
}

/// On a full tensor grid of `nx` by `ny` nodes stored row by row, the
/// stencil read off a node's index agrees with the stencil read off its
/// column and row.
pub proof fn lemma_stencils_agree(x: nat, y: nat, nx: nat, ny: nat)
    requires
        x < nx,
        y < ny,
    ensures
        stencil_by_index(y * nx + x, nx, nx * ny) == stencil_by_position(y * nx + x, x, y, nx, ny, nx),
{
    let idx = y * nx + x;
    lemma_fundamental_div_mod_converse(idx as int, nx as int, y as int, x as int);
    if x + 1 < nx {
        lemma_fundamental_div_mod_converse((idx + 1) as int, nx as int, y as int, (x + 1) as int);
    } else {
        assert(idx + 1 == (y + 1) * nx + 0) by (nonlinear_arith)
            requires
                idx == y * nx + x,
                x + 1 == nx,
        ;
        lemma_fundamental_div_mod_converse((idx + 1) as int, nx as int, (y + 1) as int, 0);
    }
    assert(idx >= nx <==> y > 0) by (nonlinear_arith)
        requires
            idx == y * nx + x,
            x < nx,
    ;
    assert(idx + nx < nx * ny <==> y + 1 < ny) by (nonlinear_arith)
        requires
            idx == y * nx + x,
            x < nx,
    ;
}

/// The index stencil is symmetric on a grid made of whole rows: `b` is the
/// right neighbour of `a` exactly when `a` is the left neighbour of `b`, and
/// `b` is the upper neighbour of `a` exactly when `a` is the lower neighbour
/// of `b`; every neighbour is a node of the grid.
pub proof fn lemma_stencil_symmetric(a: usize, b: usize, row_stride: usize, n_nodes: usize)
    requires
        row_stride > 0,
        n_nodes % row_stride == 0,
        a < n_nodes,
        b < n_nodes,
    ensures
        stencil_by_index(a as nat, row_stride as nat, n_nodes as nat).right == Some(b)
            <==> stencil_by_index(b as nat, row_stride as nat, n_nodes as nat).left == Some(a),
        stencil_by_index(a as nat, row_stride as nat, n_nodes as nat).up == Some(b)
            <==> stencil_by_index(b as nat, row_stride as nat, n_nodes as nat).down == Some(a),
        stencil_by_index(a as nat, row_stride as nat, n_nodes as nat).right matches Some(r) ==> r
            < n_nodes,
        stencil_by_index(a as nat, row_stride as nat, n_nodes as nat).left matches Some(l) ==> l
            < n_nodes,
        stencil_by_index(a as nat, row_stride as nat, n_nodes as nat).up matches Some(u) ==> u
            < n_nodes,
        stencil_by_index(a as nat, row_stride as nat, n_nodes as nat).down matches Some(d) ==> d
            < n_nodes,
{
    vstd::arithmetic::div_mod::lemma_small_mod(0, row_stride as nat);
}

/// The two elements of every cell split it along its rising diagonal: for
/// the cell in row `j` and column `i` (lower-left corner `ll = j * nx + i`),
/// element `2c` is the lower-right triangle (`ll`, `ll + 1`, `ll + nx + 1`)
/// and element `2c + 1` the upper-left one (`ll`, `ll + nx + 1`,
/// `ll + nx`), where `c = j * (nx - 1) + i` numbers the cells row by row.
/// The two triangles differ, and together they use all four corners.
pub proof fn lemma_cell_split_into_two_triangles(nx: nat, j: nat, i: nat, lower: [usize; 3], upper: [usize; 3])
    requires
        nx >= 2,
        i < nx - 1,
        is_grid_element(lower, nx, 2 * (j * ((nx - 1) as nat) + i)),
        is_grid_element(upper, nx, 2 * (j * ((nx - 1) as nat) + i) + 1),
    ensures
        ({
            let ll = j * nx + i;
            &&& lower@[0] == ll && lower@[1] == ll + 1 && lower@[2] == ll + nx + 1
            &&& upper@[0] == ll && upper@[1] == ll + nx + 1 && upper@[2] == ll + nx
            &&& lower@ != upper@
            &&& lower@.contains(ll as usize) && upper@.contains(ll as usize)
            &&& lower@.contains((ll + 1) as usize)
            &&& upper@.contains((ll + nx) as usize)
            &&& lower@.contains((ll + nx + 1) as usize) && upper@.contains((ll + nx + 1) as usize)
        }),
{
    let cell: nat = j * ((nx - 1) as nat) + i;
    lemma_fundamental_div_mod_converse(cell as int, (nx - 1) as int, j as int, i as int);
    assert((2 * cell) / 2 == cell && (2 * cell) % 2 == 0);
    assert((2 * cell + 1) / 2 == cell && (2 * cell + 1) % 2 == 1);
    assert(cell_corner(nx, 2 * cell) == j * nx + i);
    assert(cell_corner(nx, 2 * cell + 1) == j * nx + i);
    let ll = j * nx + i;
    assert(lower@[1] != upper@[1]);
    assert(lower@[0] == ll as usize && upper@[0] == ll as usize);
    assert(lower@[1] == (ll + 1) as usize);
    assert(upper@[2] == (ll + nx) as usize);
    assert(lower@[2] == (ll + nx + 1) as usize && upper@[1] == (ll + nx + 1) as usize);
}

} // verus!

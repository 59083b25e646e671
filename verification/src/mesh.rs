//! Discretizations of the unit interval and of a (padded) unit square:
//! node layout, element connectivity and boundary constraints.
//!
//! The types are generic in the scalar `F` used for coordinates and
//! constraint data; the coordinates themselves are supplied by the caller.

use vstd::prelude::*;
use crate::grid::{grid_elements, grid_nodes, is_grid_element, stencil_by_index};

verus! {

/// A node of a two-dimensional mesh.
#[derive(Debug, Clone, PartialEq)]
pub struct Node2D<F> {
    pub x: F,
    pub y: F,
}

/// A linear constraint on the degrees of freedom of a discretization.
#[derive(Debug, Clone, PartialEq)]
pub enum Constraint<F> {
    /// The value at `node` is fixed to `value`.
    Dirichlet { node: usize, value: F },
    /// The value at `slave` is tied to the value at `master` with `weight`.
    Periodic { master: usize, slave: usize, weight: F },
}

/// Discretization of an interval by a sequence of nodes.
#[derive(Debug, Clone, PartialEq)]
pub struct Discretization1D<F> {
    pub nodes: Vec<F>,
    pub element_order: usize,
    pub quadrature_order: usize,
    pub constraints: Vec<Constraint<F>>,
    pub boundary_noise: F,
}

/// Triangulation of a rectangular grid of nodes, two triangles per cell.
#[derive(Debug, Clone, PartialEq)]
pub struct TriangulatedSquare<F> {
    pub nodes: Vec<Node2D<F>>,
    /// Indices into `nodes`, two triangles per cell.
    pub elements: Vec<[usize; 3]>,
    pub element_order: usize,
    pub quadrature_order: usize,
    pub constraints: Vec<Constraint<F>>,
    pub boundary_noise: F,
}

/// Rejected discretization parameters.
#[derive(Debug, Clone, Copy, PartialEq, Eq)]
pub enum MeshError {
    /// The element order is zero.
    InvalidElementOrder,
    /// The resolution is zero.
    InvalidResolution,
}

/// The points of one axis of a tensor grid, with a flag per point telling
/// whether it lies on one of the two ends of the axis.
#[derive(Debug, Clone, PartialEq)]
pub struct GridAxis<F> {
    pub coords: Vec<F>,
    pub on_edge: Vec<bool>,
}

/// Outcome of the parameter checks shared by the discretization builders:
/// the resolution is checked before the element order, and the quadrature
/// order is one more than the element order.
pub open spec fn checked_orders(n: usize, element_order: usize) -> Result<usize, MeshError> {
    if n == 0 {
        Err(MeshError::InvalidResolution)
    } else if element_order == 0 {
        Err(MeshError::InvalidElementOrder)
    } else {
        Ok((element_order + 1) as usize)
    }
}

fn check_orders(n: usize, element_order: usize) -> (r: Result<usize, MeshError>)
    requires
        n > 0 ==> element_order < usize::MAX,
    ensures
        r == checked_orders(n, element_order),
{
    if n == 0 {
        return Err(MeshError::InvalidResolution);
    }
    if element_order == 0 {
        return Err(MeshError::InvalidElementOrder);
    }
    Ok(element_order + 1)
}

/// Periodic discretization of the unit interval with `n` cells.  The caller
/// supplies the `n + 1` node coordinates; the first and the last node are
/// tied by a periodic constraint with the given weight.
pub fn periodic_unit_interval_discretization<F: Copy>(
    n: usize,
    element_order: usize,
    boundary_noise: F,
    nodes: Vec<F>,
    periodic_weight: F,
) -> (r: Result<Discretization1D<F>, MeshError>)
    requires
        nodes.len() == n + 1,
        n > 0 ==> element_order < usize::MAX,
    ensures
        match checked_orders(n, element_order) {
            Err(e) => r == Err::<Discretization1D<F>, MeshError>(e),
            Ok(q) => r matches Ok(d) && {
                &&& d.nodes@ == nodes@
                &&& d.element_order == element_order
                &&& d.quadrature_order == q
                &&& d.constraints@ == seq![
                    Constraint::Periodic { master: 0, slave: n, weight: periodic_weight },
                ]
                &&& d.boundary_noise == boundary_noise
            },
        },
{
    let quadrature_order = match check_orders(n, element_order) {
        Ok(q) => q,
        Err(e) => return Err(e),
    };
    let slave = nodes.len() - 1;
    let mut constraints: Vec<Constraint<F>> = Vec::new();
    constraints.push(Constraint::Periodic { master: 0, slave, weight: periodic_weight });
    Ok(Discretization1D {
        nodes,
        element_order,
        quadrature_order,
        constraints,
        boundary_noise,
    })
}

/// Dirichlet constraints with `value` on the nodes whose flag is set, in
/// increasing node order.
pub open spec fn dirichlet_on<F>(flags: Seq<bool>, value: F) -> Seq<Constraint<F>>
    decreases flags.len(),
{
    if flags.len() == 0 {
        seq![]
    } else {
        let rest = dirichlet_on(flags.drop_last(), value);
        if flags.last() {
            rest.push(Constraint::Dirichlet { node: (flags.len() - 1) as usize, value })
        } else {
            rest
        }
    }
}

/// Boundary flags of the nodes of a tensor grid stored row by row: a node
/// is on the boundary when its point on the x-axis or on the y-axis is on an
/// edge of that axis.
pub open spec fn grid_boundary_flags(x_on_edge: Seq<bool>, y_on_edge: Seq<bool>) -> Seq<bool> {
    Seq::new(
        x_on_edge.len() * y_on_edge.len(),
        |k: int| x_on_edge[k % (x_on_edge.len() as int)] || y_on_edge[k / (x_on_edge.len() as int)],
    )
}

/// Dirichlet constraints with `value` on every node whose
/// flag is set, in increasing node order.
pub fn boundary_dirichlet_nodes<F: Copy>(on_boundary: &[bool], value: F) -> (constraints: Vec<
    Constraint<F>,
>)
    ensures
        constraints@ == dirichlet_on(on_boundary@, value),
{
    let mut constraints: Vec<Constraint<F>> = Vec::new();
    let mut idx: usize = 0;
    assert(on_boundary@.take(0) =~= Seq::<bool>::empty());
    while idx < on_boundary.len()
        invariant
            idx <= on_boundary.len(),
            constraints@ == dirichlet_on(on_boundary@.take(idx as int), value),
        decreases on_boundary.len() - idx,
    {
        assert(on_boundary@.take(idx + 1).drop_last() =~= on_boundary@.take(idx as int));
        if on_boundary[idx] {
            constraints.push(Constraint::Dirichlet { node: idx, value });
        }
        idx = idx + 1;
    }
    assert(on_boundary@.take(idx as int) =~= on_boundary@);
    constraints
}

/// Triangulated tensor grid over the given axes (typically the unit
/// square, possibly padded), two triangles per cell.  When
/// `use_dirichlet_bc` is set, every node with a coordinate on an edge of its
/// axis carries a Dirichlet constraint with `dirichlet_value`.
pub fn uniform_unit_square_discretization<F: Copy>(
    n_xy: usize,
    use_dirichlet_bc: bool,
    element_order: usize,
    boundary_noise: F,
    x_axis: &GridAxis<F>,
    y_axis: &GridAxis<F>,
    dirichlet_value: F,
) -> (r: Result<TriangulatedSquare<F>, MeshError>)
    requires
        x_axis.coords.len() == x_axis.on_edge.len(),
        y_axis.coords.len() == y_axis.on_edge.len(),
        x_axis.coords.len() >= 1,
        y_axis.coords.len() >= 1,
        x_axis.coords.len() * y_axis.coords.len() <= usize::MAX,
        n_xy > 0 ==> element_order < usize::MAX,
    ensures
        match checked_orders(n_xy, element_order) {
            Err(e) => r == Err::<TriangulatedSquare<F>, MeshError>(e),
            Ok(q) => r matches Ok(sq) && {
                let nx = x_axis.coords.len() as int;
                let ny = y_axis.coords.len() as int;
                &&& sq.nodes.len() == nx * ny
                &&& forall|k: int|
                    0 <= k < nx * ny ==> {
                        &&& #[trigger] sq.nodes@[k].x == x_axis.coords@[k % nx]
                        &&& sq.nodes@[k].y == y_axis.coords@[k / nx]
                    }
                &&& sq.elements.len() == 2 * ((nx - 1) * (ny - 1))
                &&& forall|k: int|
                    0 <= k < sq.elements.len() ==> is_grid_element(
                        #[trigger] sq.elements@[k],
                        nx as nat,
                        k as nat,
                    )
                &&& sq.element_order == element_order
                &&& sq.quadrature_order == q
                &&& sq.constraints@ == (if use_dirichlet_bc {
                    dirichlet_on(
                        grid_boundary_flags(x_axis.on_edge@, y_axis.on_edge@),
                        dirichlet_value,
                    )
                } else {
                    Seq::<Constraint<F>>::empty()
                })
                &&& sq.boundary_noise == boundary_noise
            },
        },
{
    let quadrature_order = match check_orders(n_xy, element_order) {
        Ok(q) => q,
        Err(e) => return Err(e),
    };
    let nx = x_axis.coords.len();
    let ny = y_axis.coords.len();
    let nodes = grid_nodes(x_axis.coords.as_slice(), y_axis.coords.as_slice());
    let elements = grid_elements(nx, ny);
    let mut constraints: Vec<Constraint<F>> = Vec::new();
    if use_dirichlet_bc {
        let total = nx * ny;
        let mut flags: Vec<bool> = Vec::with_capacity(total);
        let mut k: usize = 0;
        while k < total
            invariant
                total == nx * ny,
                nx == x_axis.on_edge.len(),
                ny == y_axis.on_edge.len(),
                nx >= 1,
                k <= total,
                flags.len() == k,
                forall|m: int|
                    0 <= m < k ==> #[trigger] flags@[m] == grid_boundary_flags(
                        x_axis.on_edge@,
                        y_axis.on_edge@,
                    )[m],
            decreases total - k,
        {
            proof {
                assert(k / nx < ny) by (nonlinear_arith)
                    requires
                        k < nx * ny,
                        nx >= 1,
                ;
            }
            let on_edge = x_axis.on_edge[k % nx] || y_axis.on_edge[k / nx];
            flags.push(on_edge);
            k = k + 1;
        }
        assert(flags@ =~= grid_boundary_flags(x_axis.on_edge@, y_axis.on_edge@));
        constraints = boundary_dirichlet_nodes(flags.as_slice(), dirichlet_value);
    }
    Ok(TriangulatedSquare {
        nodes,
        elements,
        element_order,
        quadrature_order,
        constraints,
        boundary_noise,
    })
}

/// On a grid whose edge flags mark exactly the first and the last point of
/// each axis, a node is flagged as a boundary node exactly when its
/// five-point stencil misses a neighbour.
pub proof fn lemma_boundary_nodes_have_incomplete_stencils(
    x_on_edge: Seq<bool>,
    y_on_edge: Seq<bool>,
    k: nat,
)
    requires
        x_on_edge.len() >= 1,
        y_on_edge.len() >= 1,
        forall|i: int|
            0 <= i < x_on_edge.len() ==> #[trigger] x_on_edge[i] == (i == 0 || i == x_on_edge.len() - 1),
        forall|j: int|
            0 <= j < y_on_edge.len() ==> #[trigger] y_on_edge[j] == (j == 0 || j == y_on_edge.len() - 1),
        k < x_on_edge.len() * y_on_edge.len(),
    ensures
        grid_boundary_flags(x_on_edge, y_on_edge)[k as int] <==> {
            let s = stencil_by_index(k, x_on_edge.len(), x_on_edge.len() * y_on_edge.len());
            s.left is None || s.right is None || s.down is None || s.up is None
        },
{
    let nx = x_on_edge.len() as int;
    let ny = y_on_edge.len() as int;
    let i = (k as int) % nx;
    let j = (k as int) / nx;
    vstd::arithmetic::div_mod::lemma_fundamental_div_mod(k as int, nx);
    assert(0 <= i < nx);
    assert(0 <= j < ny) by (nonlinear_arith)
        requires
            k == nx * j + i,
            0 <= i < nx,
            0 <= k < nx * ny,
    ;
    if i + 1 < nx {
        vstd::arithmetic::div_mod::lemma_fundamental_div_mod_converse(k as int + 1, nx, j, i + 1);
    } else {
        assert(k + 1 == (j + 1) * nx + 0) by (nonlinear_arith)
            requires
                k == nx * j + i,
                i + 1 == nx,
        ;
        vstd::arithmetic::div_mod::lemma_fundamental_div_mod_converse(k as int + 1, nx, j + 1, 0);
    }
    assert(k >= nx <==> j > 0) by (nonlinear_arith)
        requires
            k == nx * j + i,
            0 <= i < nx,
            0 <= j,
    ;
    assert(k + nx < nx * ny <==> j + 1 < ny) by (nonlinear_arith)
        requires
            k == nx * j + i,
            0 <= i < nx,
            0 <= j,
    ;
}

/// The discretization builders accept a positive resolution and a positive
/// element order, and then integrate with one order more than the elements;
/// a zero resolution is reported before a zero element order.
pub proof fn lemma_orders_checked(n: usize, element_order: usize)
    ensures
        checked_orders(n, element_order) is Ok <==> (n > 0 && element_order > 0),
        element_order < usize::MAX ==> (checked_orders(n, element_order) matches Ok(q) ==> q
            == element_order + 1),
        n == 0 ==> checked_orders(n, element_order) == Err::<usize, MeshError>(
            MeshError::InvalidResolution,
        ),
        n > 0 && element_order == 0 ==> checked_orders(n, element_order) == Err::<usize, MeshError>(
            MeshError::InvalidElementOrder,
        ),
{
}

/// The Dirichlet constraints built from node flags are exactly one per
/// flagged node: each carries the given value and a flagged node, every
/// flagged node has one, and the nodes strictly increase.
pub proof fn lemma_dirichlet_on_flagged_nodes<F>(flags: Seq<bool>, value: F)
    requires
        flags.len() <= usize::MAX,
    ensures
        forall|i: int|
            0 <= i < dirichlet_on(flags, value).len() ==> (#[trigger] dirichlet_on(flags, value)[i] matches Constraint::Dirichlet {
                node,
                value: v,
            } && node < flags.len() && flags[node as int] && v == value),
        forall|i: int, j: int|
            0 <= i < j < dirichlet_on(flags, value).len() ==> (#[trigger] dirichlet_on(flags, value)[i])->node
                < (#[trigger] dirichlet_on(flags, value)[j])->node,
        forall|k: int|
            0 <= k < flags.len() && #[trigger] flags[k] ==> exists|i: int|
                0 <= i < dirichlet_on(flags, value).len() && (#[trigger] dirichlet_on(flags, value)[i])->node
                    == k,
    decreases flags.len(),
{
    let cs = dirichlet_on(flags, value);
    if flags.len() > 0 {
        let init = flags.drop_last();
        lemma_dirichlet_on_flagged_nodes(init, value);
        let rest = dirichlet_on(init, value);
        assert forall|i: int| 0 <= i < rest.len() implies #[trigger] rest[i]->node < init.len() by {}
        assert forall|k: int| 0 <= k < init.len() implies init[k] == flags[k] by {}
        if flags.last() {
            let last = Constraint::Dirichlet { node: (flags.len() - 1) as usize, value };
            assert(cs == rest.push(last));
            assert forall|k: int| 0 <= k < flags.len() && #[trigger] flags[k] implies exists|i: int|
                0 <= i < cs.len() && (#[trigger] cs[i])->node == k by {
                if k < init.len() {
                    assert(init[k]);
                    let i = choose|i: int| 0 <= i < rest.len() && (#[trigger] rest[i])->node == k;
                    assert(cs[i] == rest[i]);
                } else {
                    assert(cs[rest.len() as int] == last);
                }
            }
        } else {
            assert(cs == rest);
            assert forall|k: int| 0 <= k < flags.len() && #[trigger] flags[k] implies exists|i: int|
                0 <= i < cs.len() && (#[trigger] cs[i])->node == k by {
                assert(k < init.len());
                assert(init[k]);
            }
        }
    }
}

} // verus!

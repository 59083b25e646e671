//! Argument checks of the Burgers and Darcy assemblers.

use vstd::prelude::*;

verus! {

/// Rejected inputs of the problem assemblers.
#[derive(Debug, Clone, Copy, PartialEq, Eq)]
pub enum AssemblyError {
    /// A vector of `actual` entries was given where `expected` were needed.
    MismatchedVectorLength { expected: usize, actual: usize },
    /// The coefficient grid does not match the discretization.
    CoefficientShape,
    /// The discretization has too few nodes.
    InvalidMesh,
}

/// Outcome of the checks of the Burgers advection assembler: the weights
/// must have one entry per node (checked first), and the mesh at least two
/// nodes.
pub open spec fn advection_check(n_nodes: usize, n_weights: usize) -> Result<(), AssemblyError> {
    if n_weights != n_nodes {
        Err(AssemblyError::MismatchedVectorLength { expected: n_nodes, actual: n_weights })
    } else if n_nodes < 2 {
        Err(AssemblyError::InvalidMesh)
    } else {
        Ok(())
    }
}

/// Checks the inputs of the Burgers advection assembler: `n_weights`
/// current weights for a mesh of `n_nodes` nodes.
pub fn check_advection_inputs(n_nodes: usize, n_weights: usize) -> (r: Result<(), AssemblyError>)
    ensures
        r == advection_check(n_nodes, n_weights),
{
    if n_weights != n_nodes {
        return Err(AssemblyError::MismatchedVectorLength { expected: n_nodes, actual: n_weights });
    }
    if n_nodes < 2 {
        return Err(AssemblyError::InvalidMesh);
    }
    Ok(())
}

/// Checks that a mesh has at least `minimum` nodes (two for the Burgers
/// mass and diffusion matrices).
pub fn check_node_count(n_nodes: usize, minimum: usize) -> (r: Result<(), AssemblyError>)
    ensures
        r == (if n_nodes < minimum {
            Err(AssemblyError::InvalidMesh)
        } else {
            Ok(())
        }),
{
    if n_nodes < minimum {
        return Err(AssemblyError::InvalidMesh);
    }
    Ok(())
}

/// Outcome of the checks of the Darcy assembler: at least four nodes, then
/// a coefficient grid with one row per distinct x-coordinate and one column
/// per distinct y-coordinate.
pub open spec fn darcy_check(
    n_nodes: usize,
    n_x: usize,
    n_y: usize,
    coeff_rows: usize,
    coeff_cols: usize,
) -> Result<(), AssemblyError> {
    if n_nodes < 4 {
        Err(AssemblyError::InvalidMesh)
    } else if coeff_rows != n_x || coeff_cols != n_y {
        Err(AssemblyError::CoefficientShape)
    } else {
        Ok(())
    }
}

/// Checks the inputs of the Darcy assembler: a mesh of `n_nodes` nodes with
/// `n_x` distinct x- and `n_y` distinct y-coordinates, and a coefficient
/// grid of `coeff_rows` by `coeff_cols`.
pub fn check_darcy_inputs(
    n_nodes: usize,
    n_x: usize,
    n_y: usize,
    coeff_rows: usize,
    coeff_cols: usize,
) -> (r: Result<(), AssemblyError>)
    ensures
        r == darcy_check(n_nodes, n_x, n_y, coeff_rows, coeff_cols),
{
    if n_nodes < 4 {
        return Err(AssemblyError::InvalidMesh);
    }
    if coeff_rows != n_x || coeff_cols != n_y {
        return Err(AssemblyError::CoefficientShape);
    }
    Ok(())
}

/// The Burgers advection assembler takes exactly one current weight per
/// node: any other number of weights is reported with the mesh size as the
/// expected length and the given one as the actual length, and the inputs
/// pass exactly when the counts agree on a mesh of at least two nodes.
pub proof fn lemma_advection_weights_match_nodes(n_nodes: usize, n_weights: usize)
    ensures
        n_weights != n_nodes ==> advection_check(n_nodes, n_weights) == Err::<(), AssemblyError>(
            AssemblyError::MismatchedVectorLength { expected: n_nodes, actual: n_weights },
        ),
        advection_check(n_nodes, n_weights) is Ok <==> (n_weights == n_nodes && n_nodes >= 2),
        n_weights == n_nodes && n_nodes < 2 ==> advection_check(n_nodes, n_weights) == Err::<
            (),
            AssemblyError,
        >(AssemblyError::InvalidMesh),
{
}

/// The Darcy assembler takes a coefficient grid of exactly the mesh's shape:
/// on a mesh of at least four nodes any other shape, larger or smaller in
/// either direction, is refused as a coefficient-shape error, and the
/// inputs pass exactly when both extents agree.
pub proof fn lemma_darcy_coefficients_match_mesh(
    n_nodes: usize,
    n_x: usize,
    n_y: usize,
    coeff_rows: usize,
    coeff_cols: usize,
)
    ensures
        n_nodes < 4 ==> darcy_check(n_nodes, n_x, n_y, coeff_rows, coeff_cols) == Err::<
            (),
            AssemblyError,
        >(AssemblyError::InvalidMesh),
        n_nodes >= 4 && (coeff_rows != n_x || coeff_cols != n_y) ==> darcy_check(
            n_nodes,
            n_x,
            n_y,
            coeff_rows,
            coeff_cols,
        ) == Err::<(), AssemblyError>(AssemblyError::CoefficientShape),
        darcy_check(n_nodes, n_x, n_y, coeff_rows, coeff_cols) is Ok <==> (n_nodes >= 4
            && coeff_rows == n_x && coeff_cols == n_y),
{
}

} // verus!

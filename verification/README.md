# diffeq_gmrfs

Verified structure for finite-element discretizations and Gaussian Markov
random field (GMRF) models of differential equations.

`src/` is a Verus library.  It holds everything whose correctness is a
matter of indices and structure, each function with a proved contract:

- `layout` — column-major to row-major reordering of N-dimensional arrays,
  proved to be a permutation of the buffer.
- `mesh`, `grid` — periodic interval and triangulated-square
  discretizations: node layout, two triangles per grid cell, Dirichlet
  constraints on edge nodes, five-point stencils and their symmetry.
- `dense`, `sparse` — row-major dense matrices, compressed sparse
  matrices, dense block extraction and the elimination of constrained
  degrees of freedom.
- `linalg` — block partition of block-tridiagonal systems and the splitting
  and joining of vectors along it.
- `spde`, `problems` — argument checks of the assemblers, constrained state
  entries, noise and mean layouts and the block-tridiagonal placement of
  the space-time shallow-water model.
- `mat_scan` — a walk over MAT-file bytes (decompressing compressed
  elements with `libflate`) that finds the size fields on which the MAT-file
  reader's arithmetic would overflow.
- `datasets` — parsing MAT-file bytes, after that scan, and looking up
  named, real arrays in them.

The scalar type of coordinates and matrix entries is a type parameter in
`src/`.  `app/` instantiates it with `f64` and computes the floating-point
values (coordinates, stencil weights, Cholesky and LU factorizations, error
metrics) with `nalgebra`, `ndarray` and `sprs`, and loads MAT-files.

use diffeq_gmrfs::grid::{grid_elements, grid_nodes, neighbors_by_index};
use diffeq_gmrfs::mesh::{
    boundary_dirichlet_nodes, periodic_unit_interval_discretization,
    uniform_unit_square_discretization, Constraint, GridAxis, MeshError, Node2D,
};

fn interval_nodes(n: usize) -> Vec<f64> {
    let step = 1.0 / n as f64;
    (0..=n).map(|i| i as f64 * step).collect()
}

fn axis(n: usize, boundary_width: f64) -> GridAxis<f64> {
    let spacing = 1.0 / n as f64;
    let start = -boundary_width;
    let end = 1.0 + boundary_width;
    let count = ((end - start) / spacing).round() as usize;
    let coords: Vec<f64> = (0..=count).map(|i| start + i as f64 * spacing).collect();
    let first = coords[0];
    let last = coords[coords.len() - 1];
    let on_edge = coords
        .iter()
        .map(|&c| (c - first).abs() < f64::EPSILON || (c - last).abs() < f64::EPSILON)
        .collect();
    GridAxis { coords, on_edge }
}

#[test]
fn builds_periodic_interval() {
    let discretization = periodic_unit_interval_discretization(4, 2, 1e-2, interval_nodes(4), 1.0).unwrap();
    assert_eq!(discretization.nodes, vec![0.0, 0.25, 0.5, 0.75, 1.0]);
    assert_eq!(discretization.element_order, 2);
    assert_eq!(discretization.quadrature_order, 3);
    assert_eq!(discretization.constraints.len(), 1);
    match &discretization.constraints[0] {
        Constraint::Periodic {
            master,
            slave,
            weight,
        } => {
            assert_eq!((*master, *slave), (0, 4));
            assert!((*weight - 1.0).abs() < 1e-12);
        }
        _ => panic!("expected periodic constraint"),
    }
}

#[test]
fn builds_uniform_square_with_dirichlet() {
    let mesh = uniform_unit_square_discretization(2, true, 2, 1e-2, &axis(2, 0.0), &axis(2, 0.0), 0.0).unwrap();
    assert_eq!(mesh.nodes.len(), 9); // (n+1)^2 nodes
    assert_eq!(mesh.elements.len(), 8); // 2 triangles per square cell, 2x2 grid -> 4 cells
    assert!(!mesh.constraints.is_empty());
    assert!(mesh.constraints.iter().all(
        |c| matches!(c, Constraint::Dirichlet { value, .. } if (*value - 0.0).abs() < 1e-12)
    ));
}

#[test]
fn rejects_invalid_inputs() {
    assert!(matches!(
        periodic_unit_interval_discretization(0, 1, 0.0, interval_nodes(0), 1.0),
        Err(MeshError::InvalidResolution)
    ));
    assert!(matches!(
        uniform_unit_square_discretization(0, false, 1, 0.0, &axis(0, 0.0), &axis(0, 0.0), 0.0),
        Err(MeshError::InvalidResolution)
    ));
    assert!(matches!(
        uniform_unit_square_discretization(1, false, 0, 0.0, &axis(1, 0.0), &axis(1, 0.0), 0.0),
        Err(MeshError::InvalidElementOrder)
    ));
}

#[test]
fn periodic_interval_rejects_zero_element_order() {
    assert_eq!(
        periodic_unit_interval_discretization(3, 0, 0.0, interval_nodes(3), 1.0),
        Err(MeshError::InvalidElementOrder)
    );
    // the resolution is checked first
    assert_eq!(
        periodic_unit_interval_discretization(0, 0, 0.0, interval_nodes(0), 1.0),
        Err(MeshError::InvalidResolution)
    );
}

#[test]
fn uniform_square_boundary_nodes_of_three_by_three_grid() {
    let mesh = uniform_unit_square_discretization(2, true, 1, 0.5, &axis(2, 0.0), &axis(2, 0.0), 0.0).unwrap();
    let nodes: Vec<usize> = mesh
        .constraints
        .iter()
        .map(|c| match c {
            Constraint::Dirichlet { node, .. } => *node,
            _ => panic!("expected Dirichlet constraint"),
        })
        .collect();
    assert_eq!(nodes, vec![0, 1, 2, 3, 5, 6, 7, 8]);
    assert_eq!(mesh.quadrature_order, 2);
    assert_eq!(mesh.boundary_noise, 0.5);
    assert_eq!(mesh.nodes[5], Node2D { x: 1.0, y: 0.5 });
}

#[test]
fn uniform_square_without_dirichlet_has_no_constraints() {
    let mesh = uniform_unit_square_discretization(2, false, 1, 0.0, &axis(2, 0.0), &axis(2, 0.0), 0.0).unwrap();
    assert!(mesh.constraints.is_empty());
}

#[test]
fn padded_square_keeps_only_outer_ring_constrained() {
    // padding by one cell on each side gives a 5 x 5 grid
    let mesh = uniform_unit_square_discretization(2, true, 1, 0.0, &axis(2, 0.5), &axis(2, 0.5), 0.0).unwrap();
    assert_eq!(mesh.nodes.len(), 25);
    assert_eq!(mesh.elements.len(), 32);
    assert_eq!(mesh.constraints.len(), 16);
}

#[test]
fn grid_elements_two_triangles_per_cell() {
    let elements = grid_elements(3, 3);
    assert_eq!(elements.len(), 8);
    assert_eq!(elements[0], [0, 1, 4]);
    assert_eq!(elements[1], [0, 4, 3]);
    assert_eq!(elements[2], [1, 2, 5]);
    assert_eq!(elements[7], [4, 8, 7]);
    assert!(elements.iter().all(|e| e.iter().all(|&v| v < 9)));
    assert!(grid_elements(1, 5).is_empty());
    assert_eq!(grid_elements(4, 2).len(), 6);
}

#[test]
fn grid_nodes_rows_of_x() {
    let nodes = grid_nodes(&[0, 1, 2], &[10, 20]);
    assert_eq!(nodes.len(), 6);
    assert_eq!(nodes[0], Node2D { x: 0, y: 10 });
    assert_eq!(nodes[2], Node2D { x: 2, y: 10 });
    assert_eq!(nodes[4], Node2D { x: 1, y: 20 });
}

#[test]
fn dirichlet_constraints_follow_flags() {
    let constraints = boundary_dirichlet_nodes(&[true, false, false, true, true], 2.5);
    assert_eq!(
        constraints,
        vec![
            Constraint::Dirichlet { node: 0, value: 2.5 },
            Constraint::Dirichlet { node: 3, value: 2.5 },
            Constraint::Dirichlet { node: 4, value: 2.5 },
        ]
    );
    assert!(boundary_dirichlet_nodes(&[false, false], 0.0).is_empty());
}

#[test]
fn boundary_nodes_are_those_with_incomplete_stencils() {
    let index_axis = |n: usize| GridAxis {
        coords: (0..n).map(|i| i as f64).collect(),
        on_edge: (0..n).map(|i| i == 0 || i == n - 1).collect(),
    };
    let (nx, ny) = (4, 3);
    let mesh = uniform_unit_square_discretization(3, true, 1, 0.0, &index_axis(nx), &index_axis(ny), 0.0).unwrap();
    let constrained: Vec<usize> = mesh
        .constraints
        .iter()
        .map(|c| match c {
            Constraint::Dirichlet { node, .. } => *node,
            _ => panic!("expected Dirichlet constraint"),
        })
        .collect();
    let incomplete: Vec<usize> = (0..nx * ny)
        .filter(|&k| {
            let s = neighbors_by_index(k, nx, nx * ny);
            s.left.is_none() || s.right.is_none() || s.down.is_none() || s.up.is_none()
        })
        .collect();
    assert_eq!(constrained, incomplete);
    assert_eq!(constrained, vec![0, 1, 2, 3, 4, 7, 8, 9, 10, 11]);
}

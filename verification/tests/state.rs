use diffeq_gmrfs::mesh::Constraint;
use diffeq_gmrfs::problems::{check_advection_inputs, check_darcy_inputs, check_node_count, AssemblyError};
use diffeq_gmrfs::spde::{
    build_mean_offset, build_noise_diag, check_time_grid, expand_constraints, transition_blocks,
    SpdeError,
};

#[test]
fn time_grid_checks() {
    assert_eq!(check_time_grid(1, true), Err(SpdeError::InsufficientTimes));
    assert_eq!(check_time_grid(0, false), Err(SpdeError::InsufficientTimes));
    assert_eq!(check_time_grid(3, false), Err(SpdeError::NonMonotoneTimes));
    assert_eq!(check_time_grid(2, true), Ok(()));
}

#[test]
fn dirichlet_nodes_fix_all_three_fields() {
    let constraints = vec![
        Constraint::Dirichlet { node: 1, value: 0.0 },
        Constraint::Periodic { master: 0, slave: 3, weight: 1.0 },
        Constraint::Dirichlet { node: 3, value: 2.0 },
    ];
    assert_eq!(expand_constraints(&constraints, 4), vec![1, 5, 9, 3, 7, 11]);
    assert!(expand_constraints::<f64>(&[], 4).is_empty());
}

#[test]
fn mean_is_zero_on_constrained_entries_at_every_step() {
    let mean = build_mean_offset(4, 3, 0.1, &[1, 3], 0.0);
    assert_eq!(mean.len(), 12);
    for step in 0..3 {
        assert_eq!(mean[4 * step], 0.1);
        assert_eq!(mean[4 * step + 1], 0.0);
        assert_eq!(mean[4 * step + 2], 0.1);
        assert_eq!(mean[4 * step + 3], 0.0);
    }
    assert!(build_mean_offset(4, 0, 0.1, &[7], 0.0).is_empty());
}

#[test]
fn noise_diag_uses_boundary_scale_on_constrained_entries() {
    assert_eq!(build_noise_diag(5, 0.5, 0.01, &[0, 4, 0]), vec![0.01, 0.5, 0.5, 0.5, 0.01]);
    assert_eq!(build_noise_diag(2, 1.0, 2.0, &[]), vec![1.0, 1.0]);
}

#[test]
fn advection_checks_length_before_mesh_size() {
    assert_eq!(
        check_advection_inputs(3, 2),
        Err(AssemblyError::MismatchedVectorLength { expected: 3, actual: 2 })
    );
    assert_eq!(
        check_advection_inputs(1, 2),
        Err(AssemblyError::MismatchedVectorLength { expected: 1, actual: 2 })
    );
    assert_eq!(check_advection_inputs(1, 1), Err(AssemblyError::InvalidMesh));
    assert_eq!(check_advection_inputs(3, 3), Ok(()));
}

#[test]
fn node_count_and_darcy_checks() {
    assert_eq!(check_node_count(1, 2), Err(AssemblyError::InvalidMesh));
    assert_eq!(check_node_count(2, 2), Ok(()));
    assert_eq!(check_darcy_inputs(3, 3, 1, 3, 1), Err(AssemblyError::InvalidMesh));
    assert_eq!(check_darcy_inputs(9, 3, 3, 3, 2), Err(AssemblyError::CoefficientShape));
    assert_eq!(check_darcy_inputs(9, 3, 3, 3, 3), Ok(()));
}

#[test]
fn transition_blocks_sit_on_and_next_to_the_diagonal() {
    assert_eq!(transition_blocks(3, 1, 4), vec![(3, 3), (3, 6), (6, 3), (6, 6)]);
    assert_eq!(transition_blocks(5, 0, 2), vec![(0, 0), (0, 5), (5, 0), (5, 5)]);
    for step in 0..5 {
        for &(row, col) in &transition_blocks(4, step, 6) {
            assert_eq!(row % 4, 0);
            assert_eq!(col % 4, 0);
            assert!((row / 4).abs_diff(col / 4) <= 1);
            assert!(row + 4 <= 24 && col + 4 <= 24);
        }
    }
}

use diffeq_gmrfs::grid::{neighbors_by_index, neighbors_by_position, Neighbors};

#[test]
fn interior_node_has_four_neighbours() {
    let nb = neighbors_by_index(4, 3, 9);
    assert_eq!(
        nb,
        Neighbors { left: Some(3), right: Some(5), down: Some(1), up: Some(7) }
    );
}

#[test]
fn corner_nodes_miss_outer_neighbours() {
    assert_eq!(
        neighbors_by_index(0, 3, 9),
        Neighbors { left: None, right: Some(1), down: None, up: Some(3) }
    );
    assert_eq!(
        neighbors_by_index(8, 3, 9),
        Neighbors { left: Some(7), right: None, down: Some(5), up: None }
    );
    assert_eq!(
        neighbors_by_index(2, 3, 9),
        Neighbors { left: Some(1), right: None, down: None, up: Some(5) }
    );
}

#[test]
fn position_stencil_matches_index_stencil_on_full_grid() {
    for y in 0..3 {
        for x in 0..4 {
            let idx = y * 4 + x;
            assert_eq!(neighbors_by_position(idx, x, y, 4, 3, 4), neighbors_by_index(idx, 4, 12));
        }
    }
}

#[test]
fn stencil_is_symmetric() {
    let n = 12;
    for a in 0..n {
        let nb = neighbors_by_index(a, 4, n);
        if let Some(r) = nb.right {
            assert_eq!(neighbors_by_index(r, 4, n).left, Some(a));
        }
        if let Some(u) = nb.up {
            assert_eq!(neighbors_by_index(u, 4, n).down, Some(a));
        }
    }
}

#[test]
fn position_stencil_at_edges() {
    assert_eq!(
        neighbors_by_position(0, 0, 0, 2, 2, 2),
        Neighbors { left: None, right: Some(1), down: None, up: Some(2) }
    );
    assert_eq!(
        neighbors_by_position(3, 1, 1, 2, 2, 2),
        Neighbors { left: Some(2), right: None, down: Some(1), up: None }
    );
}

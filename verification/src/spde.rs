//! Degree-of-freedom bookkeeping for the space-time discretization of the
//! linear shallow-water SPDE: each mesh node carries three fields (height
//! and two velocities), and the state is repeated at every time step.

use vstd::prelude::*;
use crate::mesh::Constraint;
use crate::dense::lemma_push_contains;

verus! {

/// Rejected inputs of the shallow-water discretization.
#[derive(Debug, Clone, Copy, PartialEq, Eq)]
pub enum SpdeError {
    /// Fewer than two time points.
    InsufficientTimes,
    /// The time points are not strictly increasing.
    NonMonotoneTimes,
    /// An implicit Euler step matrix could not be inverted.
    SingularStep,
}

/// Outcome of checking a time grid of `n_times` points: at least two are
/// needed, and they must be strictly increasing.
pub open spec fn time_grid_check(n_times: usize, strictly_increasing: bool) -> Result<(), SpdeError> {
    if n_times < 2 {
        Err(SpdeError::InsufficientTimes)
    } else if !strictly_increasing {
        Err(SpdeError::NonMonotoneTimes)
    } else {
        Ok(())
    }
}

/// Checks a time grid of `n_times` points, given whether consecutive
/// points strictly increase.
pub fn check_time_grid(n_times: usize, strictly_increasing: bool) -> (r: Result<(), SpdeError>)
    ensures
        r == time_grid_check(n_times, strictly_increasing),
{
    if n_times < 2 {
        return Err(SpdeError::InsufficientTimes);
    }
    if !strictly_increasing {
        return Err(SpdeError::NonMonotoneTimes);
    }
    Ok(())
}

/// State entries fixed by the constraints, in order: each Dirichlet node
/// fixes its height and both velocities, stored `n_nodes` apart; periodic
/// constraints fix nothing here.
pub open spec fn constrained_state_dofs<F>(constraints: Seq<Constraint<F>>, n_nodes: nat) -> Seq<usize>
    decreases constraints.len(),
{
    if constraints.len() == 0 {
        seq![]
    } else {
        let rest = constrained_state_dofs(constraints.drop_last(), n_nodes);
        match constraints.last() {
            Constraint::Dirichlet { node, .. } => rest + seq![
                node,
                (node + n_nodes) as usize,
                (node + 2 * n_nodes) as usize,
            ],
            Constraint::Periodic { .. } => rest,
        }
    }
}

/// Every Dirichlet constraint sits on one of the first `n_nodes` nodes.
pub open spec fn dirichlet_nodes_below<F>(constraints: Seq<Constraint<F>>, bound: nat) -> bool {
    forall|k: int|
        0 <= k < constraints.len() ==> (#[trigger] constraints[k] matches Constraint::Dirichlet {
            node,
            ..
        } ==> node < bound)
}

/// For every Dirichlet node, the entries of its three fields, `n_nodes`
/// apart, are indices that fit in `usize`.
pub open spec fn dirichlet_dofs_fit<F>(constraints: Seq<Constraint<F>>, n_nodes: nat) -> bool {
    forall|k: int|
        0 <= k < constraints.len() ==> (#[trigger] constraints[k] matches Constraint::Dirichlet {
            node,
            ..
        } ==> node + 2 * n_nodes <= usize::MAX)
}

/// Expands the Dirichlet constraints of a mesh with `n_nodes` nodes into
/// the state entries they fix: for each constrained node its height,
/// first-velocity and second-velocity entries.
pub fn expand_constraints<F>(constraints: &[Constraint<F>], n_nodes: usize) -> (dofs: Vec<usize>)
    requires
        dirichlet_dofs_fit(constraints@, n_nodes as nat),
    ensures
        dofs@ == constrained_state_dofs(constraints@, n_nodes as nat),
        dirichlet_nodes_below(constraints@, n_nodes as nat) ==> forall|k: int|
            0 <= k < dofs.len() ==> #[trigger] dofs@[k] < 3 * n_nodes,
{
    let mut dofs: Vec<usize> = Vec::new();
    let mut t: usize = 0;
    assert(constraints@.take(0) =~= Seq::<Constraint<F>>::empty());
    while t < constraints.len()
        invariant
            t <= constraints.len(),
            dirichlet_dofs_fit(constraints@, n_nodes as nat),
            dofs@ == constrained_state_dofs(constraints@.take(t as int), n_nodes as nat),
            dirichlet_nodes_below(constraints@, n_nodes as nat) ==> forall|k: int|
                0 <= k < dofs.len() ==> #[trigger] dofs@[k] < 3 * n_nodes,
        decreases constraints.len() - t,
    {
        assert(constraints@.take(t + 1).drop_last() =~= constraints@.take(t as int));
        assert(constraints@.take(t + 1).last() == constraints@[t as int]);
        match &constraints[t] {
            Constraint::Dirichlet { node, .. } => {
                let node = *node;
                assert(constraints@[t as int] matches Constraint::Dirichlet { node: nd, .. } && nd
                    == node);
                let ghost before = dofs@;
                dofs.push(node);
                dofs.push(node + n_nodes);
                dofs.push(node + 2 * n_nodes);
                assert(dofs@ =~= before + seq![node, (node + n_nodes) as usize, (node + 2 * n_nodes) as usize]);
            },
            Constraint::Periodic { .. } => {},
        }
        t = t + 1;
    }
    assert(constraints@.take(t as int) =~= constraints@);
    dofs
}

/// Entry `k` of the space-time mean: zero on constrained state entries at
/// every time step, `mean_offset` elsewhere.
pub open spec fn mean_entry<F>(k: int, state_dim: int, dofs: Seq<usize>, mean_offset: F, zero: F) -> F {
    if dofs.contains((k % state_dim) as usize) {
        zero
    } else {
        mean_offset
    }
}

/// Space-time mean vector: `time_steps` copies of a state of `state_dim`
/// entries, each equal to `mean_offset` except the constrained entries,
/// which are `zero`.
pub fn build_mean_offset<F: Copy>(
    state_dim: usize,
    time_steps: usize,
    mean_offset: F,
    constrained_dofs: &[usize],
    zero: F,
) -> (mean: Vec<F>)
    requires
        state_dim * time_steps <= usize::MAX,
        time_steps > 0 ==> forall|k: int|
            0 <= k < constrained_dofs.len() ==> #[trigger] constrained_dofs@[k] < state_dim,
    ensures
        mean.len() == state_dim * time_steps,
        forall|k: int|
            0 <= k < mean.len() ==> #[trigger] mean@[k] == mean_entry(
                k,
                state_dim as int,
                constrained_dofs@,
                mean_offset,
                zero,
            ),
{
    let total = state_dim * time_steps;
    let mut mean: Vec<F> = Vec::with_capacity(total);
    let mut k: usize = 0;
    while k < total
        invariant
            k <= total,
            mean.len() == k,
            forall|p: int| 0 <= p < k ==> #[trigger] mean@[p] == mean_offset,
        decreases total - k,
    {
        mean.push(mean_offset);
        k = k + 1;
    }
    if time_steps == 0 {
        return mean;
    }
    let mut t: usize = 0;
    assert(constrained_dofs@.take(0) =~= Seq::<usize>::empty());
    while t < constrained_dofs.len()
        invariant
            t <= constrained_dofs.len(),
            time_steps > 0,
            total == state_dim * time_steps,
            total <= usize::MAX,
            mean.len() == total,
            forall|q: int| 0 <= q < constrained_dofs.len() ==> #[trigger] constrained_dofs@[q] < state_dim,
            forall|p: int|
                0 <= p < total ==> #[trigger] mean@[p] == mean_entry(
                    p,
                    state_dim as int,
                    constrained_dofs@.take(t as int),
                    mean_offset,
                    zero,
                ),
        decreases constrained_dofs.len() - t,
    {
        let dof = constrained_dofs[t];
        let ghost before = constrained_dofs@.take(t as int);
        let mut step: usize = 0;
        while step < time_steps
            invariant
                step <= time_steps,
                dof < state_dim,
                total == state_dim * time_steps,
                total <= usize::MAX,
                mean.len() == total,
                forall|p: int|
                    0 <= p < total ==> #[trigger] mean@[p] == if (p % (state_dim as int) == dof && p / (
                    state_dim as int) < step) {
                        zero
                    } else {
                        mean_entry(p, state_dim as int, before, mean_offset, zero)
                    },
            decreases time_steps - step,
        {
            proof {
                assert(dof + step * state_dim < total) by (nonlinear_arith)
                    requires
                        dof < state_dim,
                        step < time_steps,
                        total == state_dim * time_steps,
                ;
            }
            let idx = dof + step * state_dim;
            let ghost old_mean = mean@;
            mean.set(idx, zero);
            proof {
                vstd::arithmetic::div_mod::lemma_fundamental_div_mod_converse(
                    idx as int,
                    state_dim as int,
                    step as int,
                    dof as int,
                );
                assert forall|p: int| 0 <= p < total implies #[trigger] mean@[p] == if (p % (
                state_dim as int) == dof && p / (state_dim as int) < step + 1) {
                    zero
                } else {
                    mean_entry(p, state_dim as int, before, mean_offset, zero)
                } by {
                    if p != idx {
                        assert(mean@[p] == old_mean[p]);
                        if p % (state_dim as int) == dof && p / (state_dim as int) == step {
                            vstd::arithmetic::div_mod::lemma_fundamental_div_mod(p, state_dim as int);
                            assert(p == idx) by (nonlinear_arith)
                                requires
                                    p == state_dim * (p / (state_dim as int)) + p % (state_dim as int),
                                    p / (state_dim as int) == step,
                                    p % (state_dim as int) == dof,
                                    idx == dof + step * state_dim,
                            ;
                        }
                    }
                }
            }
            step = step + 1;
        }
        proof {
            let after = constrained_dofs@.take(t + 1);
            assert(after =~= before.push(dof));
            assert forall|p: int| 0 <= p < total implies #[trigger] mean@[p] == mean_entry(
                p,
                state_dim as int,
                after,
                mean_offset,
                zero,
            ) by {
                assert(p / (state_dim as int) < time_steps) by (nonlinear_arith)
                    requires
                        0 <= p < total,
                        total == state_dim * time_steps,
                        state_dim > 0,
                ;
                let m = (p % (state_dim as int)) as usize;
                assert(0 <= p % (state_dim as int) < state_dim);
                lemma_push_contains(before, dof, m);
            }
        }
        t = t + 1;
    }
    assert(constrained_dofs@.take(t as int) =~= constrained_dofs@);
    mean
}

/// The space-time mean repeats from one time step to the next.
pub proof fn lemma_mean_repeats_each_step<F>(
    k: int,
    state_dim: int,
    dofs: Seq<usize>,
    mean_offset: F,
    zero: F,
)
    requires
        0 <= k,
        state_dim > 0,
    ensures
        mean_entry(k + state_dim, state_dim, dofs, mean_offset, zero) == mean_entry(
            k,
            state_dim,
            dofs,
            mean_offset,
            zero,
        ),
{
    vstd::arithmetic::div_mod::lemma_mod_add_multiples_vanish(k, state_dim);
}

/// Per-entry noise scale of a state of `state_dim` entries: `boundary` on
/// the constrained entries, `base` elsewhere.
pub fn build_noise_diag<F: Copy>(state_dim: usize, base: F, boundary: F, constrained_dofs: &[usize]) -> (diag: Vec<F>)
    requires
        forall|k: int| 0 <= k < constrained_dofs.len() ==> #[trigger] constrained_dofs@[k] < state_dim,
    ensures
        diag.len() == state_dim,
        forall|k: int|
            0 <= k < state_dim ==> #[trigger] diag@[k] == if constrained_dofs@.contains(k as usize) {
                boundary
            } else {
                base
            },
{
    let mut diag: Vec<F> = Vec::with_capacity(state_dim);
    let mut k: usize = 0;
    while k < state_dim
        invariant
            k <= state_dim,
            diag.len() == k,
            forall|p: int| 0 <= p < k ==> #[trigger] diag@[p] == base,
        decreases state_dim - k,
    {
        diag.push(base);
        k = k + 1;
    }
    let mut t: usize = 0;
    assert(constrained_dofs@.take(0) =~= Seq::<usize>::empty());
    while t < constrained_dofs.len()
        invariant
            t <= constrained_dofs.len(),
            diag.len() == state_dim,
            forall|q: int| 0 <= q < constrained_dofs.len() ==> #[trigger] constrained_dofs@[q] < state_dim,
            forall|p: int|
                0 <= p < state_dim ==> #[trigger] diag@[p] == if constrained_dofs@.take(t as int).contains(
                    p as usize,
                ) {
                    boundary
                } else {
                    base
                },
        decreases constrained_dofs.len() - t,
    {
        let dof = constrained_dofs[t];
        let ghost before = constrained_dofs@.take(t as int);
        diag.set(dof, boundary);
        proof {
            assert(constrained_dofs@.take(t + 1) =~= before.push(dof));
            assert forall|p: int| 0 <= p < state_dim implies #[trigger] diag@[p] == if constrained_dofs@.take(
                t + 1,
            ).contains(p as usize) {
                boundary
            } else {
                base
            } by {
                lemma_push_contains(before, dof, p as usize);
            }
        }
        t = t + 1;
    }
    assert(constrained_dofs@.take(t as int) =~= constrained_dofs@);
    diag
}

/// Origin (first row, first column) of block `part` of the transition from
/// time step `step` to the next in the joint space-time precision, for a
/// state of dimension `state_dim`: part 0 couples the step with itself,
/// parts 1 and 2 the step with the next (above and below the diagonal), part
/// 3 the next step with itself.
pub open spec fn transition_block_origin(state_dim: int, step: int, part: int) -> (int, int) {
    let here = step * state_dim;
    let next = (step + 1) * state_dim;
    if part == 0 {
        (here, here)
    } else if part == 1 {
        (here, next)
    } else if part == 2 {
        (next, here)
    } else {
        (next, next)
    }
}

/// The four block origins of the transition from `step` to `step + 1` in
/// a joint precision of `steps` time steps, each block lying inside the
/// matrix.
pub fn transition_blocks(state_dim: usize, step: usize, steps: usize) -> (origins: Vec<(usize, usize)>)
    requires
        step + 1 < steps,
        state_dim * steps <= usize::MAX,
    ensures
        origins.len() == 4,
        forall|part: int|
            0 <= part < 4 ==> (#[trigger] origins@[part].0 as int, origins@[part].1 as int)
                == transition_block_origin(state_dim as int, step as int, part),
        forall|part: int|
            0 <= part < 4 ==> #[trigger] origins@[part].0 + state_dim <= state_dim * steps
                && origins@[part].1 + state_dim <= state_dim * steps,
{
    assert((step + 2) * state_dim <= steps * state_dim) by (nonlinear_arith)
        requires
            step + 2 <= steps,
    ;
    assert(state_dim * steps == steps * state_dim) by (nonlinear_arith);
    assert((step + 1) * state_dim == step * state_dim + state_dim) by (nonlinear_arith);
    assert((step + 2) * state_dim == (step + 1) * state_dim + state_dim) by (nonlinear_arith);
    let here = step * state_dim;
    let next = here + state_dim;
    let mut origins: Vec<(usize, usize)> = Vec::new();
    origins.push((here, here));
    origins.push((here, next));
    origins.push((next, here));
    origins.push((next, next));
    origins
}

/// The joint precision is block tridiagonal: every block of a transition
/// starts on a multiple of the state dimension, in block row and block
/// column `step` or `step + 1`, so the two differ by at most one.
pub proof fn lemma_transition_blocks_banded(state_dim: int, step: int, part: int)
    requires
        state_dim > 0,
        step >= 0,
        0 <= part < 4,
    ensures
        ({
            let (row, col) = transition_block_origin(state_dim, step, part);
            &&& row % state_dim == 0 && col % state_dim == 0
            &&& step <= row / state_dim <= step + 1
            &&& step <= col / state_dim <= step + 1
            &&& -1 <= row / state_dim - col / state_dim <= 1
        }),
{
    vstd::arithmetic::div_mod::lemma_div_by_multiple(step, state_dim);
    vstd::arithmetic::div_mod::lemma_div_by_multiple(step + 1, state_dim);
    vstd::arithmetic::div_mod::lemma_mod_multiples_basic(step, state_dim);
    vstd::arithmetic::div_mod::lemma_mod_multiples_basic(step + 1, state_dim);
}

/// A time grid is accepted exactly when it has at least two points that
/// strictly increase; with too few points the grid is refused for that, and
/// any grid of two or more points that does not strictly increase (a
/// repeated or a decreasing time, two points included) is refused as
/// non-monotone.
pub proof fn lemma_time_grid_needs_increasing_times(n_times: usize, strictly_increasing: bool)
    ensures
        time_grid_check(n_times, strictly_increasing) is Ok <==> (n_times >= 2 && strictly_increasing),
        n_times < 2 ==> time_grid_check(n_times, strictly_increasing) == Err::<(), SpdeError>(
            SpdeError::InsufficientTimes,
        ),
        n_times >= 2 && !strictly_increasing ==> time_grid_check(n_times, strictly_increasing) == Err::<
            (),
            SpdeError,
        >(SpdeError::NonMonotoneTimes),
{
}

/// The nodes of the Dirichlet constraints, in order.
pub open spec fn dirichlet_node<F>(c: Constraint<F>) -> Option<usize> {
    match c {
        Constraint::Dirichlet { node, .. } => Some(node),
        Constraint::Periodic { .. } => None,
    }
}

/// Each Dirichlet constraint, whatever its node, fixes three state entries:
/// its node's height, first velocity and second velocity, `n_nodes` apart.
/// In order, the `i`-th Dirichlet node contributes entries `3i`, `3i + 1`
/// and `3i + 2`, so there are three entries per Dirichlet constraint, and
/// every constrained node's three entries are among them.
pub proof fn lemma_dirichlet_nodes_fix_three_entries<F>(constraints: Seq<Constraint<F>>, n_nodes: nat)
    requires
        dirichlet_dofs_fit(constraints, n_nodes),
    ensures
        ({
            let dofs = constrained_state_dofs(constraints, n_nodes);
            let nodes = constraints.filter_map(|c: Constraint<F>| dirichlet_node(c));
            &&& dofs.len() == 3 * nodes.len()
            &&& forall|i: int|
                0 <= i < nodes.len() ==> {
                    &&& dofs[3 * i] == #[trigger] nodes[i]
                    &&& dofs[3 * i + 1] == nodes[i] + n_nodes
                    &&& dofs[3 * i + 2] == nodes[i] + 2 * n_nodes
                }
            &&& forall|k: int|
                0 <= k < constraints.len() ==> (#[trigger] constraints[k] matches Constraint::Dirichlet {
                    node,
                    ..
                } ==> {
                    &&& dofs.contains(node)
                    &&& dofs.contains((node + n_nodes) as usize)
                    &&& dofs.contains((node + 2 * n_nodes) as usize)
                })
        }),
    decreases constraints.len(),
{
    let f = |c: Constraint<F>| dirichlet_node(c);
    let dofs = constrained_state_dofs(constraints, n_nodes);
    let nodes = constraints.filter_map(f);
    if constraints.len() > 0 {
        let init = constraints.drop_last();
        assert forall|k: int| 0 <= k < init.len() implies (#[trigger] init[k] matches Constraint::Dirichlet {
            node,
            ..
        } ==> node + 2 * n_nodes <= usize::MAX) by {
            assert(init[k] == constraints[k]);
        }
        lemma_dirichlet_nodes_fix_three_entries(init, n_nodes);
        let rest = constrained_state_dofs(init, n_nodes);
        let rest_nodes = init.filter_map(f);
        assert(init.filter_map(f) == init.filter_map(|c: Constraint<F>| dirichlet_node(c)));
        let last = constraints.last();
        assert(last == constraints[constraints.len() - 1]);
        match last {
            Constraint::Dirichlet { node, .. } => {
                assert(nodes =~= rest_nodes + seq![node]);
                assert(dofs =~= rest + seq![node, (node + n_nodes) as usize, (node + 2 * n_nodes) as usize]);
                assert forall|i: int| 0 <= i < nodes.len() implies {
                    &&& dofs[3 * i] == #[trigger] nodes[i]
                    &&& dofs[3 * i + 1] == nodes[i] + n_nodes
                    &&& dofs[3 * i + 2] == nodes[i] + 2 * n_nodes
                } by {
                    if i < rest_nodes.len() {
                        assert(rest_nodes[i] == nodes[i]);
                    }
                }
                assert forall|k: int| 0 <= k < constraints.len() implies (#[trigger] constraints[k] matches Constraint::Dirichlet {
                    node,
                    ..
                } ==> {
                    &&& dofs.contains(node)
                    &&& dofs.contains((node + n_nodes) as usize)
                    &&& dofs.contains((node + 2 * n_nodes) as usize)
                }) by {
                    if k < init.len() {
                        assert(init[k] == constraints[k]);
                        if let Constraint::Dirichlet { node: nd, .. } = constraints[k] {
                            let a = choose|a: int| 0 <= a < rest.len() && rest[a] == nd;
                            let b = choose|b: int| 0 <= b < rest.len() && rest[b] == (nd + n_nodes) as usize;
                            let c = choose|c: int| 0 <= c < rest.len() && rest[c] == (nd + 2 * n_nodes) as usize;
                            assert(dofs[a] == nd);
                            assert(dofs[b] == (nd + n_nodes) as usize);
                            assert(dofs[c] == (nd + 2 * n_nodes) as usize);
                        }
                    } else {
                        assert(dofs[rest.len() as int] == node);
                        assert(dofs[rest.len() as int + 1] == (node + n_nodes) as usize);
                        assert(dofs[rest.len() as int + 2] == (node + 2 * n_nodes) as usize);
                    }
                }
            },
            Constraint::Periodic { .. } => {
                assert(nodes =~= rest_nodes);
                assert(dofs == rest);
                assert forall|k: int| 0 <= k < constraints.len() implies (#[trigger] constraints[k] matches Constraint::Dirichlet {
                    node,
                    ..
                } ==> {
                    &&& dofs.contains(node)
                    &&& dofs.contains((node + n_nodes) as usize)
                    &&& dofs.contains((node + 2 * n_nodes) as usize)
                }) by {
                    if k < init.len() {
                        assert(init[k] == constraints[k]);
                    }
                }
            },
        }
    }
}

} // verus!

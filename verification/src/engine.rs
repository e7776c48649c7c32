//! The evolution engine: the per-cell transition rule, neighbor counting
//! under a boundary policy, and the full-grid step.

use vstd::prelude::*;
use crate::codec::{
    bit_index, cell, grid_bytes, grid_wf, lemma_byte_index_in_range, lemma_grid_extensional,
    pixelgetter, pixelsetter,
};

verus! {

/// What happens to a neighbor offset that falls off the grid: it is skipped
/// (clamped), or it wraps around modulo the side length (toroidal).
#[derive(Clone, Copy)]
pub enum BoundaryPolicy {
    Clamped,
    Toroidal,
}

/// The standard Game of Life transition rule: a live cell survives with 2 or
/// 3 live neighbors, a dead cell is born with exactly 3.
pub open spec fn evo_spec(cell: u8, neighbors: nat) -> u8 {
    if cell == 1 {
        if neighbors == 2 || neighbors == 3 {
            1
        } else {
            0
        }
    } else {
        if neighbors == 3 {
            1
        } else {
            0
        }
    }
}

/// Resolves one axis of a neighbor offset: the coordinate moved by `d`, or
/// `None` when it falls outside `[0, n)` and the policy clamps. Exact for
/// offsets of at most one step.
pub open spec fn shift_spec(c: int, d: int, n: int, policy: BoundaryPolicy) -> Option<int> {
    if 0 <= c + d && c + d < n {
        Some(c + d)
    } else {
        match policy {
            BoundaryPolicy::Clamped => None,
            BoundaryPolicy::Toroidal => Some(
                if c + d < 0 {
                    c + d + n
                } else {
                    c + d - n
                },
            ),
        }
    }
}

/// The contribution of the neighbor at offset `(dx, dy)` from `(x, y)` to the
/// neighbor count: the resolved neighbor's cell value, or 0 when the offset
/// is absent under the policy.
pub open spec fn neighbor_value(
    buffer: Seq<u8>,
    x: int,
    y: int,
    dx: int,
    dy: int,
    n: int,
    policy: BoundaryPolicy,
) -> nat {
    match (shift_spec(x, dx, n, policy), shift_spec(y, dy, n, policy)) {
        (Some(nx), Some(ny)) => cell(buffer, nx, ny, n) as nat,
        _ => 0,
    }
}

/// The number of live cells among the eight Moore neighbors of `(x, y)`,
/// under the boundary policy.
pub open spec fn neighbor_count(buffer: Seq<u8>, x: int, y: int, n: int, policy: BoundaryPolicy) -> nat {
    neighbor_value(buffer, x, y, -1, -1, n, policy) + neighbor_value(buffer, x, y, -1, 0, n, policy)
        + neighbor_value(buffer, x, y, -1, 1, n, policy) + neighbor_value(
        buffer,
        x,
        y,
        0,
        -1,
        n,
        policy,
    ) + neighbor_value(buffer, x, y, 0, 1, n, policy) + neighbor_value(
        buffer,
        x,
        y,
        1,
        -1,
        n,
        policy,
    ) + neighbor_value(buffer, x, y, 1, 0, n, policy) + neighbor_value(buffer, x, y, 1, 1, n, policy)
}

/// The next state of cell `(x, y)`: the transition rule applied to its
/// current state and its full eight-offset neighbor count.
pub open spec fn next_cell(buffer: Seq<u8>, x: int, y: int, n: int, policy: BoundaryPolicy) -> u8 {
    evo_spec(cell(buffer, x, y, n), neighbor_count(buffer, x, y, n, policy))
}

/// `new` is the evolution of `buffer`: same length, every in-range cell holds
/// the next state of the matching cell of `buffer`, and every byte past the
/// grid is zero.
pub open spec fn evolution_of(buffer: Seq<u8>, new: Seq<u8>, n: int, policy: BoundaryPolicy) -> bool {
    &&& new.len() == buffer.len()
    &&& forall|x: int, y: int|
        0 <= x < n && 0 <= y < n ==> #[trigger] cell(new, x, y, n) == next_cell(
            buffer,
            x,
            y,
            n,
            policy,
        )
    &&& forall|i: int| grid_bytes(n) <= i < new.len() ==> new[i] == 0
}

/// Computes the next state of one cell from its current state and its live
/// Moore-neighbor count.
pub fn evo(cell: u8, neighbors: u8) -> (new_cell: u8)
    ensures
        new_cell == evo_spec(cell, neighbors as nat),
{
    let mut new_cell: u8 = 0;

    if cell == 1 {
        if neighbors == 2 || neighbors == 3 {
            new_cell = 1
        }
    } else {
        if neighbors == 3 {
            new_cell = 1
        }
    }

    new_cell
}

/// Moves coordinate `c` by one step `d`, resolving a fall off the edge by the
/// boundary policy.
fn shift_coord(c: usize, d: i8, n: usize, policy: BoundaryPolicy) -> (r: Option<usize>)
    requires
        c < n,
        -1 <= d <= 1,
    ensures
        match r {
            Some(u) => shift_spec(c as int, d as int, n as int, policy) == Some(u as int) && u < n,
            None => shift_spec(c as int, d as int, n as int, policy) is None,
        },
{
    if d == 0 {
        Some(c)
    } else if d < 0 {
        if c > 0 {
            Some(c - 1)
        } else {
            match policy {
                BoundaryPolicy::Clamped => None,
                BoundaryPolicy::Toroidal => Some(n - 1),
            }
        }
    } else {
        if c + 1 < n {
            Some(c + 1)
        } else {
            match policy {
                BoundaryPolicy::Clamped => None,
                BoundaryPolicy::Toroidal => Some(0),
            }
        }
    }
}

/// Reads the contribution of the neighbor at offset `(dx, dy)` from `(x, y)`.
fn neighbor_value_at(
    buffer: &Vec<u8>,
    x: usize,
    y: usize,
    dx: i8,
    dy: i8,
    n: usize,
    policy: BoundaryPolicy,
) -> (v: u8)
    requires
        x < n,
        y < n,
        -1 <= dx <= 1,
        -1 <= dy <= 1,
        grid_wf(buffer@, n as int),
    ensures
        v as nat == neighbor_value(buffer@, x as int, y as int, dx as int, dy as int, n as int, policy),
        v <= 1,
{
    let cx = shift_coord(x, dx, n, policy);
    let cy = shift_coord(y, dy, n, policy);
    match (cx, cy) {
        (Some(nx), Some(ny)) => pixelgetter(nx, ny, buffer, n).value,
        _ => 0,
    }
}

/// Counts the live cells among the eight Moore neighbors of `(x, y)`. The
/// count is complete: all eight offsets are resolved before any rule is
/// applied to it.
pub fn count_neighbors(buffer: &Vec<u8>, x: usize, y: usize, n: usize, policy: BoundaryPolicy) -> (count: u8)
    requires
        x < n,
        y < n,
        grid_wf(buffer@, n as int),
    ensures
        count as nat == neighbor_count(buffer@, x as int, y as int, n as int, policy),
        count <= 8,
{
    let mut count: u8 = neighbor_value_at(buffer, x, y, -1, -1, n, policy);
    count = count + neighbor_value_at(buffer, x, y, -1, 0, n, policy);
    count = count + neighbor_value_at(buffer, x, y, -1, 1, n, policy);
    count = count + neighbor_value_at(buffer, x, y, 0, -1, n, policy);
    count = count + neighbor_value_at(buffer, x, y, 0, 1, n, policy);
    count = count + neighbor_value_at(buffer, x, y, 1, -1, n, policy);
    count = count + neighbor_value_at(buffer, x, y, 1, 0, n, policy);
    count = count + neighbor_value_at(buffer, x, y, 1, 1, n, policy);
    count
}

/// One full evolution step: reads every cell of `buffer` against a consistent
/// snapshot and writes the next generation into a brand-new buffer of the
/// same length, never mutating its input. Bytes past the grid come out zero.
pub fn matrix_evo(buffer: &Vec<u8>, n: usize, policy: BoundaryPolicy) -> (new_buffer: Vec<u8>)
    requires
        grid_wf(buffer@, n as int),
    ensures
        evolution_of(buffer@, new_buffer@, n as int, policy),
{
    let len = buffer.len();
    let mut new_buffer: Vec<u8> = Vec::new();
    while new_buffer.len() < len
        invariant
            new_buffer@.len() <= len,
            forall|i: int| 0 <= i < new_buffer@.len() ==> new_buffer@[i] == 0,
        decreases len - new_buffer@.len(),
    {
        new_buffer.push(0u8);
    }

    let mut x: usize = 0;
    while x < n
        invariant
            x <= n,
            grid_wf(buffer@, n as int),
            new_buffer@.len() == len,
            len == buffer@.len(),
            forall|x2: int, y2: int|
                0 <= x2 < x && 0 <= y2 < n ==> #[trigger] cell(new_buffer@, x2, y2, n as int)
                    == next_cell(buffer@, x2, y2, n as int, policy),
            forall|i: int| grid_bytes(n as int) <= i < new_buffer@.len() ==> new_buffer@[i] == 0,
        decreases n - x,
    {
        let mut y: usize = 0;
        while y < n
            invariant
                x < n,
                y <= n,
                grid_wf(buffer@, n as int),
                new_buffer@.len() == len,
                len == buffer@.len(),
                forall|x2: int, y2: int|
                    0 <= x2 < x && 0 <= y2 < n ==> #[trigger] cell(new_buffer@, x2, y2, n as int)
                        == next_cell(buffer@, x2, y2, n as int, policy),
                forall|y2: int|
                    0 <= y2 < y ==> #[trigger] cell(new_buffer@, x as int, y2, n as int)
                        == next_cell(buffer@, x as int, y2, n as int, policy),
                forall|i: int| grid_bytes(n as int) <= i < new_buffer@.len() ==> new_buffer@[i] == 0,
            decreases n - y,
        {
            let pixel = pixelgetter(x, y, buffer, n);
            let neighbors = count_neighbors(buffer, x, y, n, policy);
            let new_cell = evo(pixel.value, neighbors);
            pixelsetter(&mut new_buffer, x, y, n, new_cell);
            proof {
                lemma_byte_index_in_range(x as int, y as int, n as int, len as int);
                assert(cell(new_buffer@, x as int, y as int, n as int) == next_cell(
                    buffer@,
                    x as int,
                    y as int,
                    n as int,
                    policy,
                ));
            }
            y = y + 1;
        }
        x = x + 1;
    }
    new_buffer
}

/// Birth rule: a dead cell with exactly 3 live Moore neighbors becomes live;
/// with 2 or with 4 it remains dead.
pub proof fn lemma_birth_rule(buffer: Seq<u8>, x: int, y: int, n: int, policy: BoundaryPolicy)
    requires
        cell(buffer, x, y, n) == 0,
    ensures
        neighbor_count(buffer, x, y, n, policy) == 3 ==> next_cell(buffer, x, y, n, policy) == 1,
        neighbor_count(buffer, x, y, n, policy) == 2 ==> next_cell(buffer, x, y, n, policy) == 0,
        neighbor_count(buffer, x, y, n, policy) == 4 ==> next_cell(buffer, x, y, n, policy) == 0,
{
}

/// Survival rule: a live cell with 2 or 3 live neighbors remains live; with
/// 0, 1, or 4 and more it dies.
pub proof fn lemma_survival_rule(buffer: Seq<u8>, x: int, y: int, n: int, policy: BoundaryPolicy)
    requires
        cell(buffer, x, y, n) == 1,
    ensures
        neighbor_count(buffer, x, y, n, policy) == 2 || neighbor_count(buffer, x, y, n, policy)
            == 3 ==> next_cell(buffer, x, y, n, policy) == 1,
        neighbor_count(buffer, x, y, n, policy) <= 1 || neighbor_count(buffer, x, y, n, policy)
            >= 4 ==> next_cell(buffer, x, y, n, policy) == 0,
{
}

/// Toroidal wrap: seen from `(0, 0)`, the diagonal offset towards negative
/// coordinates resolves to the live cell at `(n-1, n-1)` under the toroidal
/// policy, and to no neighbor at all under the clamped one.
pub proof fn lemma_toroidal_wrap(buffer: Seq<u8>, n: int)
    requires
        2 <= n,
        cell(buffer, n - 1, n - 1, n) == 1,
    ensures
        neighbor_value(buffer, 0, 0, -1, -1, n, BoundaryPolicy::Toroidal) == 1,
        neighbor_value(buffer, 0, 0, -1, -1, n, BoundaryPolicy::Clamped) == 0,
{
}

/// A grid every cell of which keeps its state under the rule is returned
/// unchanged, byte for byte, by one evolution step.
pub proof fn lemma_fixed_point(buffer: Seq<u8>, new: Seq<u8>, n: int, policy: BoundaryPolicy)
    requires
        grid_wf(buffer, n),
        evolution_of(buffer, new, n, policy),
        forall|i: int| grid_bytes(n) <= i < buffer.len() ==> buffer[i] == 0,
        forall|x: int, y: int|
            0 <= x < n && 0 <= y < n ==> #[trigger] next_cell(buffer, x, y, n, policy) == cell(
                buffer,
                x,
                y,
                n,
            ),
    ensures
        new == buffer,
{
    lemma_grid_extensional(new, buffer, n);
}

/// Determinism: the evolution contract pins the result down to the byte, so
/// any two grids evolved from the same buffer are byte-identical.
pub proof fn lemma_evolution_deterministic(
    buffer: Seq<u8>,
    r1: Seq<u8>,
    r2: Seq<u8>,
    n: int,
    policy: BoundaryPolicy,
)
    requires
        grid_wf(buffer, n),
        evolution_of(buffer, r1, n, policy),
        evolution_of(buffer, r2, n, policy),
    ensures
        r1 == r2,
{
    lemma_grid_extensional(r1, r2, n);
}

/// Helper: on a grid with no live cell, every neighbor offset contributes
/// nothing, whatever the boundary policy makes of it.
proof fn lemma_no_live_neighbor(
    buffer: Seq<u8>,
    n: int,
    x: int,
    y: int,
    dx: int,
    dy: int,
    policy: BoundaryPolicy,
)
    requires
        forall|x2: int, y2: int|
            0 <= x2 < n && 0 <= y2 < n ==> #[trigger] cell(buffer, x2, y2, n) == 0,
        0 <= x < n,
        0 <= y < n,
        -1 <= dx <= 1,
        -1 <= dy <= 1,
    ensures
        neighbor_value(buffer, x, y, dx, dy, n, policy) == 0,
{
}

/// Idempotence of the empty grid: an all-dead grid evolves to an all-dead
/// grid, under either policy.
pub proof fn lemma_all_dead_stable(buffer: Seq<u8>, new: Seq<u8>, n: int, policy: BoundaryPolicy)
    requires
        grid_wf(buffer, n),
        forall|i: int| 0 <= i < buffer.len() ==> buffer[i] == 0,
        evolution_of(buffer, new, n, policy),
    ensures
        new == buffer,
{
    assert forall|x: int, y: int| 0 <= x < n && 0 <= y < n implies #[trigger] cell(
        buffer,
        x,
        y,
        n,
    ) == 0 by {
        lemma_byte_index_in_range(x, y, n, buffer.len() as int);
        let s = (7 - bit_index(x)) as u8;
        assert((0u8 >> s) & 1 == 0) by (bit_vector);
    }
    assert forall|x: int, y: int| 0 <= x < n && 0 <= y < n implies #[trigger] next_cell(
        buffer,
        x,
        y,
        n,
        policy,
    ) == cell(buffer, x, y, n) by {
        lemma_no_live_neighbor(buffer, n, x, y, -1, -1, policy);
        lemma_no_live_neighbor(buffer, n, x, y, -1, 0, policy);
        lemma_no_live_neighbor(buffer, n, x, y, -1, 1, policy);
        lemma_no_live_neighbor(buffer, n, x, y, 0, -1, policy);
        lemma_no_live_neighbor(buffer, n, x, y, 0, 1, policy);
        lemma_no_live_neighbor(buffer, n, x, y, 1, -1, policy);
        lemma_no_live_neighbor(buffer, n, x, y, 1, 0, policy);
        lemma_no_live_neighbor(buffer, n, x, y, 1, 1, policy);
        assert(neighbor_count(buffer, x, y, n, policy) == 0);
    }
    lemma_fixed_point(buffer, new, n, policy);
}

/// A grid whose only live cells are the 2-by-2 block with lower corner
/// `(a, b)`.
pub open spec fn block_only_grid(buffer: Seq<u8>, a: int, b: int, n: int) -> bool {
    forall|x: int, y: int|
        0 <= x < n && 0 <= y < n ==> #[trigger] cell(buffer, x, y, n) == (
        if a <= x <= a + 1 && b <= y <= b + 1 {
            1u8
        } else {
            0u8
        })
}

/// Helper: on a block-only grid, a neighbor offset contributes 1 exactly when
/// it lands on the block. A wrapped offset lands on row or column 0 or `n-1`,
/// which a block away from the edges never covers.
proof fn lemma_block_neighbor_value(
    buffer: Seq<u8>,
    a: int,
    b: int,
    n: int,
    x: int,
    y: int,
    dx: int,
    dy: int,
    policy: BoundaryPolicy,
)
    requires
        1 <= a,
        a + 2 < n,
        1 <= b,
        b + 2 < n,
        block_only_grid(buffer, a, b, n),
        0 <= x < n,
        0 <= y < n,
        -1 <= dx <= 1,
        -1 <= dy <= 1,
    ensures
        neighbor_value(buffer, x, y, dx, dy, n, policy) == (
        if a <= x + dx <= a + 1 && b <= y + dy <= b + 1 {
            1nat
        } else {
            0nat
        }),
{
}

/// Still life: a 2-by-2 block of live cells placed away from every edge is
/// returned unchanged, byte for byte, by one evolution step, under either
/// policy.
pub proof fn lemma_block_still_life(
    buffer: Seq<u8>,
    new: Seq<u8>,
    a: int,
    b: int,
    n: int,
    policy: BoundaryPolicy,
)
    requires
        grid_wf(buffer, n),
        1 <= a,
        a + 2 < n,
        1 <= b,
        b + 2 < n,
        block_only_grid(buffer, a, b, n),
        forall|i: int| grid_bytes(n) <= i < buffer.len() ==> buffer[i] == 0,
        evolution_of(buffer, new, n, policy),
    ensures
        new == buffer,
{
    assert forall|x: int, y: int| 0 <= x < n && 0 <= y < n implies #[trigger] next_cell(
        buffer,
        x,
        y,
        n,
        policy,
    ) == cell(buffer, x, y, n) by {
        lemma_block_neighbor_value(buffer, a, b, n, x, y, -1, -1, policy);
        lemma_block_neighbor_value(buffer, a, b, n, x, y, -1, 0, policy);
        lemma_block_neighbor_value(buffer, a, b, n, x, y, -1, 1, policy);
        lemma_block_neighbor_value(buffer, a, b, n, x, y, 0, -1, policy);
        lemma_block_neighbor_value(buffer, a, b, n, x, y, 0, 1, policy);
        lemma_block_neighbor_value(buffer, a, b, n, x, y, 1, -1, policy);
        lemma_block_neighbor_value(buffer, a, b, n, x, y, 1, 0, policy);
        lemma_block_neighbor_value(buffer, a, b, n, x, y, 1, 1, policy);
        if a <= x <= a + 1 && b <= y <= b + 1 {
            assert(neighbor_count(buffer, x, y, n, policy) == 3);
        } else {
            assert(neighbor_count(buffer, x, y, n, policy) <= 2);
        }
    }
    lemma_fixed_point(buffer, new, n, policy);
}

} // verus!

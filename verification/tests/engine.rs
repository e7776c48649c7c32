use game_of_life::codec::{pixelgetter, pixelsetter};
use game_of_life::engine::{count_neighbors, evo, matrix_evo, BoundaryPolicy};

fn grid_with_cells(n: usize, bytes: usize, cells: &[(usize, usize)]) -> Vec<u8> {
    let mut buffer = vec![0u8; bytes];
    for &(x, y) in cells {
        pixelsetter(&mut buffer, x, y, n, 1);
    }
    buffer
}

fn live(buffer: &Vec<u8>, x: usize, y: usize, n: usize) -> bool {
    pixelgetter(x, y, buffer, n).value == 1
}

#[test]
fn evo_rule_table() {
    // A live cell survives with 2 or 3 neighbors and dies otherwise.
    assert_eq!(evo(1, 0), 0);
    assert_eq!(evo(1, 1), 0);
    assert_eq!(evo(1, 2), 1);
    assert_eq!(evo(1, 3), 1);
    assert_eq!(evo(1, 4), 0);
    assert_eq!(evo(1, 8), 0);
    // A dead cell is born with exactly 3 neighbors.
    assert_eq!(evo(0, 2), 0);
    assert_eq!(evo(0, 3), 1);
    assert_eq!(evo(0, 4), 0);
}

#[test]
fn block_still_life_both_policies() {
    let block = [(10, 10), (11, 10), (10, 11), (11, 11)];
    let buffer = grid_with_cells(32, 128, &block);
    assert_eq!(matrix_evo(&buffer, 32, BoundaryPolicy::Clamped), buffer);
    assert_eq!(matrix_evo(&buffer, 32, BoundaryPolicy::Toroidal), buffer);
}

#[test]
fn blinker_oscillates() {
    let horizontal = grid_with_cells(32, 128, &[(10, 10), (11, 10), (12, 10)]);
    let next = matrix_evo(&horizontal, 32, BoundaryPolicy::Clamped);
    // Birth above and below the center, survival of the center, death of the ends.
    assert!(live(&next, 11, 9, 32));
    assert!(live(&next, 11, 10, 32));
    assert!(live(&next, 11, 11, 32));
    assert!(!live(&next, 10, 10, 32));
    assert!(!live(&next, 12, 10, 32));
    let expected = grid_with_cells(32, 128, &[(11, 9), (11, 10), (11, 11)]);
    assert_eq!(next, expected);
    // A second step swings it back.
    assert_eq!(matrix_evo(&next, 32, BoundaryPolicy::Clamped), horizontal);
}

#[test]
fn overcrowded_cell_dies() {
    // The center of a plus shape has 4 live neighbors and dies.
    let plus = grid_with_cells(32, 128, &[(11, 10), (10, 11), (11, 11), (12, 11), (11, 12)]);
    assert_eq!(count_neighbors(&plus, 11, 11, 32, BoundaryPolicy::Clamped), 4);
    let next = matrix_evo(&plus, 32, BoundaryPolicy::Clamped);
    assert!(!live(&next, 11, 11, 32));
}

#[test]
fn lonely_cell_dies() {
    let lone = grid_with_cells(32, 128, &[(5, 5)]);
    let next = matrix_evo(&lone, 32, BoundaryPolicy::Clamped);
    assert_eq!(next, vec![0u8; 128]);
}

#[test]
fn toroidal_wrap_at_corner() {
    // Three live cells diagonal across the corner: (0, 0) has 3 neighbors on
    // the torus and none on the clamped grid.
    let corner = grid_with_cells(32, 128, &[(31, 31), (0, 31), (31, 0)]);
    assert_eq!(count_neighbors(&corner, 0, 0, 32, BoundaryPolicy::Toroidal), 3);
    assert_eq!(count_neighbors(&corner, 0, 0, 32, BoundaryPolicy::Clamped), 0);
    let toroidal = matrix_evo(&corner, 32, BoundaryPolicy::Toroidal);
    assert!(live(&toroidal, 0, 0, 32));
    let clamped = matrix_evo(&corner, 32, BoundaryPolicy::Clamped);
    assert!(!live(&clamped, 0, 0, 32));
}

#[test]
fn evolution_is_deterministic() {
    let mut buffer = vec![0u8; 512];
    for i in 0..512 {
        buffer[i] = (i * 37 + 11) as u8;
    }
    let a = matrix_evo(&buffer, 64, BoundaryPolicy::Toroidal);
    let b = matrix_evo(&buffer, 64, BoundaryPolicy::Toroidal);
    assert_eq!(a, b);
    let c = matrix_evo(&buffer, 64, BoundaryPolicy::Clamped);
    let d = matrix_evo(&buffer, 64, BoundaryPolicy::Clamped);
    assert_eq!(c, d);
}

#[test]
fn all_dead_grid_stays_dead() {
    let dead32 = vec![0u8; 128];
    assert_eq!(matrix_evo(&dead32, 32, BoundaryPolicy::Clamped), dead32);
    assert_eq!(matrix_evo(&dead32, 32, BoundaryPolicy::Toroidal), dead32);
    let dead64 = vec![0u8; 512];
    assert_eq!(matrix_evo(&dead64, 64, BoundaryPolicy::Clamped), dead64);
    assert_eq!(matrix_evo(&dead64, 64, BoundaryPolicy::Toroidal), dead64);
}

#[test]
fn oversized_buffer_trailing_bytes_come_out_zero() {
    // A side-32 grid in a 512-byte buffer uses only the first 128 bytes; the
    // evolved grid's trailing bytes are zero even when the input's are not.
    let mut buffer = grid_with_cells(32, 512, &[(10, 10), (11, 10), (10, 11), (11, 11)]);
    buffer[200] = 0xab;
    buffer[511] = 0xff;
    let next = matrix_evo(&buffer, 32, BoundaryPolicy::Clamped);
    assert_eq!(next.len(), 512);
    for i in 128..512 {
        assert_eq!(next[i], 0);
    }
    // The block itself is untouched.
    assert!(live(&next, 10, 10, 32));
    assert!(live(&next, 11, 10, 32));
    assert!(live(&next, 10, 11, 32));
    assert!(live(&next, 11, 11, 32));
}

//! The grid codec: translation between a 2-D cell coordinate and one bit of a
//! packed byte buffer.
//!
//! A grid of side `n` (with `n` a multiple of 8) is stored row-major, one bit
//! per cell. Cell `(x, y)` lives in byte `y * (n / 8) + x / 8`, at bit
//! `7 - x % 8`: within each byte the cell with the lowest `x` coordinate is
//! the most significant bit.

use vstd::prelude::*;
use vstd::arithmetic::div_mod::{lemma_fundamental_div_mod, lemma_fundamental_div_mod_converse};

verus! {

/// Number of bytes of a buffer that a grid of side `n` occupies.
pub open spec fn grid_bytes(n: int) -> int {
    n * (n / 8)
}

/// Index of the byte that holds cell `(x, y)` in a grid of side `n`.
pub open spec fn byte_index(x: int, y: int, n: int) -> int {
    y * (n / 8) + x / 8
}

/// Position of cell `(x, y)` within its byte, counted from the most
/// significant bit: the cell is bit `7 - bit_index(x)` of the byte.
pub open spec fn bit_index(x: int) -> int {
    x % 8
}

/// A buffer is a well-formed grid of side `n` when the side is a whole
/// number of bytes and the buffer has room for all `n * n` cells.
pub open spec fn grid_wf(buffer: Seq<u8>, n: int) -> bool {
    &&& 0 <= n
    &&& n % 8 == 0
    &&& buffer.len() * 8 >= n * n
}

/// The value, 0 or 1, of cell `(x, y)` of the grid packed in `buffer`.
pub open spec fn cell(buffer: Seq<u8>, x: int, y: int, n: int) -> u8 {
    (buffer[byte_index(x, y, n)] >> ((7 - bit_index(x)) as u8)) & 1
}

/// One cell of the grid, resolved to its place in the packed buffer: the
/// index of its byte, its position within that byte counted from the most
/// significant bit, and its value.
pub struct Pixel {
    /// Index of the byte that holds the cell.
    pub byteidx: usize,
    /// Position of the cell within its byte: the cell is bit `7 - bitidx`.
    pub bitidx: u8,
    /// The cell's value, 0 or 1.
    pub value: u8,
}

/// The byte index of an in-range cell lies below `grid_bytes(n)`, which any
/// well-formed buffer covers.
pub proof fn lemma_byte_index_in_range(x: int, y: int, n: int, len: int)
    requires
        0 <= x < n,
        0 <= y < n,
        n % 8 == 0,
        len * 8 >= n * n,
    ensures
        0 <= byte_index(x, y, n) < grid_bytes(n),
        grid_bytes(n) <= len,
{
    let k = n / 8;
    lemma_fundamental_div_mod(n, 8);
    lemma_fundamental_div_mod(x, 8);
    assert(n == 8 * k);
    assert(8 * (x / 8) <= x < 8 * k);
    assert(x / 8 < k);
    assert(y * k <= (n - 1) * k) by (nonlinear_arith)
        requires
            0 <= y <= n - 1,
            0 <= k,
    ;
    assert((n - 1) * k + k == n * k) by (nonlinear_arith);
    assert(byte_index(x, y, n) < grid_bytes(n));
    assert(n * n == 8 * (n * k)) by (nonlinear_arith)
        requires
            n == 8 * k,
    ;
    assert(0 <= y * k) by (nonlinear_arith)
        requires
            0 <= y,
            0 <= k,
    ;
}

/// Two distinct in-range cells never share both byte index and bit position:
/// equal byte indices force equal rows and equal within-row byte offsets, and
/// equal bit positions then force equal columns.
pub proof fn lemma_byte_index_injective(x1: int, y1: int, x2: int, y2: int, n: int)
    requires
        0 <= x1 < n,
        0 <= y1 < n,
        0 <= x2 < n,
        0 <= y2 < n,
        n % 8 == 0,
        byte_index(x1, y1, n) == byte_index(x2, y2, n),
    ensures
        y1 == y2,
        x1 / 8 == x2 / 8,
        bit_index(x1) == bit_index(x2) ==> x1 == x2,
{
    let k = n / 8;
    lemma_fundamental_div_mod(n, 8);
    lemma_fundamental_div_mod(x1, 8);
    lemma_fundamental_div_mod(x2, 8);
    assert(n == 8 * k);
    assert(x1 / 8 < k && x2 / 8 < k);
    let d = byte_index(x1, y1, n);
    lemma_fundamental_div_mod_converse(d, k, y1, x1 / 8);
    lemma_fundamental_div_mod_converse(d, k, y2, x2 / 8);
}

/// Reads the pixel for cell `(x, y)`: where it lives in the buffer and its
/// current value.
pub fn pixelgetter(x: usize, y: usize, buffer: &Vec<u8>, n: usize) -> (p: Pixel)
    requires
        x < n,
        y < n,
        grid_wf(buffer@, n as int),
    ensures
        p.byteidx == byte_index(x as int, y as int, n as int),
        p.bitidx == bit_index(x as int),
        p.value == cell(buffer@, x as int, y as int, n as int),
        p.value <= 1,
{
    let len = buffer.len();
    proof {
        lemma_byte_index_in_range(x as int, y as int, n as int, len as int);
    }
    let byteidx: usize = y * (n / 8) + x / 8;
    let bitidx: u8 = (x % 8) as u8;
    let shift: u8 = 7 - bitidx;
    let byte: u8 = buffer[byteidx];
    let value: u8 = (byte >> shift) & 1;
    proof {
        assert((byte >> shift) & 1 <= 1) by (bit_vector);
    }
    Pixel { byteidx, bitidx, value }
}

/// Setting bit `s` of a byte leaves every other bit as it was.
proof fn lemma_set_bit(b: u8, s: u8)
    by (bit_vector)
    requires
        s < 8,
    ensures
        ((b | (1u8 << s)) >> s) & 1 == 1,
        forall|j: u8| j < 8 && j != s ==> ((b | (1u8 << s)) >> j) & 1 == (b >> j) & 1,
{
}

/// Clearing bit `s` of a byte leaves every other bit as it was.
proof fn lemma_clear_bit(b: u8, s: u8)
    by (bit_vector)
    requires
        s < 8,
    ensures
        ((b & !(1u8 << s)) >> s) & 1 == 0,
        forall|j: u8| j < 8 && j != s ==> ((b & !(1u8 << s)) >> j) & 1 == (b >> j) & 1,
{
}

/// Writes `value` into cell `(x, y)`, touching that bit alone: every other
/// cell, and every byte but the one holding the cell, keeps its value. Read
/// back with `pixelgetter`, the cell yields exactly `value`.
pub fn pixelsetter(buffer: &mut Vec<u8>, x: usize, y: usize, n: usize, value: u8)
    requires
        x < n,
        y < n,
        grid_wf(old(buffer)@, n as int),
        value == 0 || value == 1,
    ensures
        final(buffer)@.len() == old(buffer)@.len(),
        cell(final(buffer)@, x as int, y as int, n as int) == value,
        forall|x2: int, y2: int|
            0 <= x2 < n && 0 <= y2 < n && !(x2 == x as int && y2 == y as int) ==> cell(
                final(buffer)@,
                x2,
                y2,
                n as int,
            ) == cell(old(buffer)@, x2, y2, n as int),
        forall|i: int|
            0 <= i < old(buffer)@.len() && i != byte_index(x as int, y as int, n as int)
                ==> final(buffer)@[i] == old(buffer)@[i],
{
    let len = buffer.len();
    proof {
        lemma_byte_index_in_range(x as int, y as int, n as int, len as int);
    }
    let byteidx: usize = y * (n / 8) + x / 8;
    let bitidx: u8 = (x % 8) as u8;
    let shift: u8 = 7 - bitidx;
    let b: u8 = buffer[byteidx];
    let new_byte: u8 = if value == 0 {
        b & !(1u8 << shift)
    } else {
        b | (1u8 << shift)
    };
    buffer[byteidx] = new_byte;
    proof {
        if value == 0 {
            lemma_clear_bit(b, shift);
        } else {
            lemma_set_bit(b, shift);
        }
        assert forall|x2: int, y2: int|
            0 <= x2 < n && 0 <= y2 < n && !(x2 == x as int && y2 == y as int) implies cell(
            buffer@,
            x2,
            y2,
            n as int,
        ) == cell(old(buffer)@, x2, y2, n as int) by {
            lemma_byte_index_in_range(x2, y2, n as int, old(buffer)@.len() as int);
            if byte_index(x2, y2, n as int) == byteidx as int {
                lemma_byte_index_injective(x2, y2, x as int, y as int, n as int);
                assert(bit_index(x2) != bit_index(x as int));
            }
        }
    }
}

/// The byte-order contract: in row 0, the cells `x = 0, ..., 7` are bits
/// `7, ..., 0` of the buffer's first byte.
pub proof fn lemma_byte_order(buffer: Seq<u8>, x: int, n: int)
    requires
        0 <= x < 8,
        8 <= n,
        n % 8 == 0,
    ensures
        byte_index(x, 0, n) == 0,
        cell(buffer, x, 0, n) == (buffer[0] >> ((7 - x) as u8)) & 1,
{
    lemma_fundamental_div_mod_converse(x, 8, 0, x);
}

/// Helper: the cells packed in byte `i` are `(8 * (i % (n / 8)) + j, i / (n / 8))`
/// for `j = 0, ..., 7`, and cell `j` of the byte sits at bit position `j`.
proof fn lemma_byte_cells(i: int, j: int, n: int)
    requires
        n % 8 == 0,
        8 <= n,
        0 <= i < grid_bytes(n),
        0 <= j < 8,
    ensures
        ({
            let k = n / 8;
            let x = 8 * (i % k) + j;
            let y = i / k;
            0 <= x < n && 0 <= y < n && byte_index(x, y, n) == i && bit_index(x) == j
        }),
{
    let k = n / 8;
    let x = 8 * (i % k) + j;
    let y = i / k;
    lemma_fundamental_div_mod(n, 8);
    assert(n == 8 * k);
    lemma_fundamental_div_mod(i, k);
    assert(i == k * y + i % k);
    assert(0 <= i % k < k);
    assert(x < 8 * k);
    lemma_fundamental_div_mod_converse(x, 8, i % k, j);
    assert(x / 8 == i % k && x % 8 == j);
    assert(k * y <= i) by (nonlinear_arith)
        requires
            i == k * y + i % k,
            0 <= i % k,
    ;
    assert(y < n) by (nonlinear_arith)
        requires
            k * y <= i,
            i < n * k,
            0 < k,
    ;
    assert(0 <= y);
    assert(byte_index(x, y, n) == y * k + i % k);
    assert(y * k == k * y) by (nonlinear_arith);
}

/// Two bytes with the same eight bits are the same byte.
proof fn lemma_u8_eq_by_bits(p: u8, q: u8)
    by (bit_vector)
    requires
        (p >> 7u8) & 1 == (q >> 7u8) & 1,
        (p >> 6u8) & 1 == (q >> 6u8) & 1,
        (p >> 5u8) & 1 == (q >> 5u8) & 1,
        (p >> 4u8) & 1 == (q >> 4u8) & 1,
        (p >> 3u8) & 1 == (q >> 3u8) & 1,
        (p >> 2u8) & 1 == (q >> 2u8) & 1,
        (p >> 1u8) & 1 == (q >> 1u8) & 1,
        (p >> 0u8) & 1 == (q >> 0u8) & 1,
    ensures
        p == q,
{
}

/// A packed grid is determined by its cells: two buffers of equal length
/// whose in-range cells agree, and whose bytes past the grid agree, are
/// equal byte for byte.
pub proof fn lemma_grid_extensional(a: Seq<u8>, b: Seq<u8>, n: int)
    requires
        grid_wf(a, n),
        a.len() == b.len(),
        forall|x: int, y: int| 0 <= x < n && 0 <= y < n ==> #[trigger] cell(a, x, y, n) == cell(b, x, y, n),
        forall|i: int| grid_bytes(n) <= i < a.len() ==> a[i] == b[i],
    ensures
        a == b,
{
    assert forall|i: int| 0 <= i < a.len() implies a[i] == b[i] by {
        if i < grid_bytes(n) {
            lemma_fundamental_div_mod(n, 8);
            assert(8 <= n) by (nonlinear_arith)
                requires
                    0 <= n,
                    n == 8 * (n / 8),
                    0 < n * (n / 8),
            ;
            let k = n / 8;
            let x0 = 8 * (i % k);
            let y = i / k;
            lemma_byte_cells(i, 0, n);
            lemma_byte_cells(i, 1, n);
            lemma_byte_cells(i, 2, n);
            lemma_byte_cells(i, 3, n);
            lemma_byte_cells(i, 4, n);
            lemma_byte_cells(i, 5, n);
            lemma_byte_cells(i, 6, n);
            lemma_byte_cells(i, 7, n);
            assert(cell(a, x0 + 0, y, n) == cell(b, x0 + 0, y, n));
            assert(cell(a, x0 + 1, y, n) == cell(b, x0 + 1, y, n));
            assert(cell(a, x0 + 2, y, n) == cell(b, x0 + 2, y, n));
            assert(cell(a, x0 + 3, y, n) == cell(b, x0 + 3, y, n));
            assert(cell(a, x0 + 4, y, n) == cell(b, x0 + 4, y, n));
            assert(cell(a, x0 + 5, y, n) == cell(b, x0 + 5, y, n));
            assert(cell(a, x0 + 6, y, n) == cell(b, x0 + 6, y, n));
            assert(cell(a, x0 + 7, y, n) == cell(b, x0 + 7, y, n));
            lemma_u8_eq_by_bits(a[i], b[i]);
        }
    }
    assert(a =~= b);
}

} // verus!

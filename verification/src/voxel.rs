//! Mapping between the cells of an `N`×`N`×`N` grid and offsets into its flat
//! storage, with `x` varying fastest.
use vstd::prelude::*;

verus! {

/// Offset of the cell `(x, y, z)` in the flat storage of a grid with `n` cells
/// per axis.
pub open spec fn linear_index(x: int, y: int, z: int, n: int) -> int {
    x + y * n + z * (n * n)
}

/// Whether `(x, y, z)` names a cell of a grid with `n` cells per axis.
pub open spec fn in_grid(x: int, y: int, z: int, n: int) -> bool {
    0 <= x < n && 0 <= y < n && 0 <= z < n
}

/// Number of cells of a grid with `n` cells per axis.
pub open spec fn cell_count(n: int) -> int {
    n * n * n
}

/// Largest number of cells per axis for which the number of cells, and so
/// every offset, fits in 32 bits.
pub const MAX_GRID_SIZE: u32 = 1625;

/// The coordinates `(x, y, z)` that the offset `idx` stands for.
pub open spec fn coords_of(idx: int, n: int) -> (int, int, int) {
    let plane = n * n;
    let rem = idx % plane;
    (rem % n, rem / n, idx / plane)
}

/// Every cell of the grid has an offset below the number of cells.
pub proof fn lemma_index_in_range(x: int, y: int, z: int, n: int)
    requires
        in_grid(x, y, z, n),
    ensures
        0 <= linear_index(x, y, z, n) < cell_count(n),
        0 <= y * n <= linear_index(x, y, z, n),
        0 <= z * n <= z * (n * n) <= linear_index(x, y, z, n),
        x + y * n < n * n,
{
    assert(0 <= y * n <= (n - 1) * n) by (nonlinear_arith)
        requires
            0 <= y <= n - 1,
            n > 0,
    ;
    assert(0 <= z * n <= z * (n * n) <= (n - 1) * (n * n)) by (nonlinear_arith)
        requires
            0 <= z <= n - 1,
            n > 0,
    ;
    assert((n - 1) * (n * n) + (n - 1) * n + (n - 1) == n * n * n - 1) by (nonlinear_arith);
    assert((n - 1) * n + (n - 1) == n * n - 1) by (nonlinear_arith);
}

/// Taking an offset apart gives back the cell it was computed from.
pub proof fn lemma_coords_of_linear_index(x: int, y: int, z: int, n: int)
    requires
        in_grid(x, y, z, n),
    ensures
        coords_of(linear_index(x, y, z, n), n) == (x, y, z),
{
    let plane = n * n;
    let low = x + y * n;
    lemma_index_in_range(x, y, z, n);
    assert(0 <= low < plane);
    vstd::arithmetic::div_mod::lemma_fundamental_div_mod_converse(
        linear_index(x, y, z, n),
        plane,
        z,
        low,
    );
    vstd::arithmetic::div_mod::lemma_fundamental_div_mod_converse(low, n, y, x);
}

/// No two cells of one grid share an offset.
pub proof fn lemma_linear_index_injective(
    x1: int,
    y1: int,
    z1: int,
    x2: int,
    y2: int,
    z2: int,
    n: int,
)
    requires
        in_grid(x1, y1, z1, n),
        in_grid(x2, y2, z2, n),
        linear_index(x1, y1, z1, n) == linear_index(x2, y2, z2, n),
    ensures
        x1 == x2,
        y1 == y2,
        z1 == z2,
{
    lemma_coords_of_linear_index(x1, y1, z1, n);
    lemma_coords_of_linear_index(x2, y2, z2, n);
}

/// Putting the coordinates of an offset together gives back the offset, and
/// the coordinates name a cell of the grid exactly when the offset is below
/// the number of cells.
pub proof fn lemma_linear_index_of_coords(idx: int, n: int)
    requires
        0 <= idx,
        0 < n,
    ensures
        ({
            let (x, y, z) = coords_of(idx, n);
            &&& linear_index(x, y, z, n) == idx
            &&& 0 <= x < n
            &&& 0 <= y < n
            &&& 0 <= z
            &&& (z < n <==> idx < cell_count(n))
        }),
{
    let plane = n * n;
    assert(plane >= n) by (nonlinear_arith)
        requires
            plane == n * n,
            n >= 1,
    ;
    let rem = idx % plane;
    let z = idx / plane;
    vstd::arithmetic::div_mod::lemma_fundamental_div_mod(idx, plane);
    vstd::arithmetic::div_mod::lemma_fundamental_div_mod(rem, n);
    vstd::arithmetic::div_mod::lemma_mod_bound(idx, plane);
    vstd::arithmetic::div_mod::lemma_mod_bound(rem, n);
    vstd::arithmetic::div_mod::lemma_div_pos_is_pos(idx, plane);
    vstd::arithmetic::div_mod::lemma_div_pos_is_pos(rem, n);
    assert(rem / n < n) by (nonlinear_arith)
        requires
            0 <= rem < n * n,
            n > 0,
            rem == n * (rem / n) + rem % n,
            0 <= rem % n,
    ;
    assert(z * plane == plane * z) by (nonlinear_arith);
    assert((rem / n) * n == n * (rem / n)) by (nonlinear_arith);
    assert(z < n <==> idx < n * n * n) by (nonlinear_arith)
        requires
            idx == plane * z + rem,
            0 <= rem < plane,
            plane == n * n,
            n > 0,
            z >= 0,
    ;
}

/// Number of cells of a grid with `grid_size` cells per axis, or `None` where
/// it does not fit in 32 bits.
pub fn checked_cell_count(grid_size: u32) -> (r: Option<u32>)
    ensures
        r is Some <==> cell_count(grid_size as int) <= u32::MAX,
        r is Some <==> grid_size <= MAX_GRID_SIZE,
        r is Some ==> r->Some_0 == cell_count(grid_size as int),
{
    if grid_size > MAX_GRID_SIZE {
        assert(cell_count(grid_size as int) > u32::MAX) by (nonlinear_arith)
            requires
                grid_size >= 1626,
        ;
        return None;
    }
    assert(0 <= cell_count(grid_size as int) <= 4_291_015_625) by (nonlinear_arith)
        requires
            0 <= grid_size <= 1625,
    ;
    assert(grid_size * grid_size <= 1625 * 1625) by (nonlinear_arith)
        requires
            0 <= grid_size <= 1625,
    ;
    Some(grid_size * grid_size * grid_size)
}

/// A cell of the grid, by its integer coordinates.
#[derive(Clone, Copy, Debug, PartialEq, Eq, Structural)]
pub struct Voxel {
    pub x: u32,
    pub y: u32,
    pub z: u32,
}

impl Voxel {
    /// Whether this is a cell of a grid with `grid_size` cells per axis.
    pub open spec fn within(self, grid_size: u32) -> bool {
        in_grid(self.x as int, self.y as int, self.z as int, grid_size as int)
    }

    /// The offset of this cell, as a mathematical integer.
    pub open spec fn offset(self, grid_size: u32) -> int {
        linear_index(self.x as int, self.y as int, self.z as int, grid_size as int)
    }

    /// Offset of this cell in the flat storage of the grid.
    pub fn idx(&self, grid_size: u32) -> (r: u32)
        requires
            self.within(grid_size),
            self.offset(grid_size) <= u32::MAX,
        ensures
            r == self.offset(grid_size),
            r < cell_count(grid_size as int),
    {
        proof {
            lemma_index_in_range(
                self.x as int,
                self.y as int,
                self.z as int,
                grid_size as int,
            );
            assert(self.z * grid_size * grid_size == self.z * (grid_size * grid_size))
                by (nonlinear_arith);
        }
        self.x + self.y * grid_size + self.z * grid_size * grid_size
    }

    /// Offset of this cell, or `None` where the cell lies outside the grid or
    /// the offset does not fit in 32 bits.
    pub fn checked_idx(&self, grid_size: u32) -> (r: Option<u32>)
        ensures
            r is Some <==> self.within(grid_size) && self.offset(grid_size) <= u32::MAX,
            r is Some ==> r->Some_0 == self.offset(grid_size),
    {
        if self.x >= grid_size || self.y >= grid_size || self.z >= grid_size {
            return None;
        }
        let n: u128 = grid_size as u128;
        proof {
            assert(n * n <= 0xFFFF_FFFF * 0xFFFF_FFFF) by (nonlinear_arith)
                requires
                    0 <= n <= 0xFFFF_FFFF,
            ;
            assert(self.y * n <= 0xFFFF_FFFF * 0xFFFF_FFFF) by (nonlinear_arith)
                requires
                    0 <= self.y <= 0xFFFF_FFFF,
                    0 <= n <= 0xFFFF_FFFF,
            ;
            assert(self.z * (n * n) <= 0xFFFF_FFFF * (0xFFFF_FFFF * 0xFFFF_FFFF))
                by (nonlinear_arith)
                requires
                    0 <= self.z <= 0xFFFF_FFFF,
                    0 <= n * n <= 0xFFFF_FFFF * 0xFFFF_FFFF,
            ;
        }
        let total: u128 = self.x as u128 + self.y as u128 * n + self.z as u128 * (n * n);
        if total > u32::MAX as u128 {
            None
        } else {
            Some(total as u32)
        }
    }

    /// The cell that the offset `idx` stands for.
    ///
    /// The result always has `x` and `y` below `grid_size`; its `z` is below
    /// `grid_size` exactly when `idx` is below the number of cells.
    pub fn from_idx(idx: u32, grid_size: u32) -> (v: Voxel)
        requires
            grid_size > 0,
        ensures
            (v.x as int, v.y as int, v.z as int) == coords_of(idx as int, grid_size as int),
            v.offset(grid_size) == idx,
            v.x < grid_size,
            v.y < grid_size,
            v.within(grid_size) <==> idx < cell_count(grid_size as int),
    {
        let n: u64 = grid_size as u64;
        proof {
            lemma_linear_index_of_coords(idx as int, grid_size as int);
            assert(1 <= n * n <= 0xFFFF_FFFF * 0xFFFF_FFFF) by (nonlinear_arith)
                requires
                    1 <= n <= 0xFFFF_FFFF,
            ;
        }
        let plane: u64 = n * n;
        let z: u64 = idx as u64 / plane;
        let rem: u64 = idx as u64 % plane;
        let y: u64 = rem / n;
        let x: u64 = rem % n;
        Voxel { x: x as u32, y: y as u32, z: z as u32 }
    }
}

} // verus!

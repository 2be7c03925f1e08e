//! The intensity store that consumes decoded hits.
//!
//! The store keeps one intensity per cell of the grid, as a whole number of
//! intensity units, in the order of the cells' offsets.  It is owned by a
//! single writer: every change goes through a call that holds the store
//! exclusively, so two hits on one cell are applied one after the other and
//! neither is lost.  Sums of whole units do not depend on the order of the
//! hits.  A hit on a cell that the store does not hold, one whose sample
//! stands for no number of units, and one that would take an intensity past
//! what 64 bits hold, is refused and reported, and leaves the store as it
//! was.
use vstd::prelude::*;
use crate::hit::{sample_units, units_of_sample, VoxelHitEvent};
use crate::voxel::{cell_count, checked_cell_count, lemma_index_in_range, Voxel};

verus! {

/// Why the store refused a call.
#[derive(Clone, Copy, Debug, PartialEq, Eq, Structural)]
pub enum StoreError {
    /// The store was populated before.
    AlreadyInitialized,
    /// The grid has more cells than offsets of 32 bits can name.
    GridTooLarge,
    /// The store holds no such cell.
    UnknownVoxel,
    /// The intensity of the cell would not fit in 64 bits.
    Overflow,
    /// The sample is negative, infinite or NaN, or stands for more units
    /// than 64 bits hold.
    BadSample,
}

/// The intensity store.
#[derive(Debug)]
pub struct VoxelGridStore {
    pub grid_size: u32,
    pub initialized: bool,
    pub grid: Vec<u64>,
}

/// The store as its content.
pub struct GridView {
    pub grid_size: u32,
    pub initialized: bool,
    pub cells: Seq<u64>,
}

/// What a hit of `delta` units makes of a cell's intensity: `row` is the
/// intensity that the store holds for the cell, or `None` where it holds no
/// such cell.
pub open spec fn accumulated(row: Option<u64>, delta: u64) -> Result<u64, StoreError> {
    match row {
        None => Err(StoreError::UnknownVoxel),
        Some(value) => if value + delta > u64::MAX {
            Err(StoreError::Overflow)
        } else {
            Ok((value + delta) as u64)
        },
    }
}

/// Raises a cell's intensity by `delta` units.  A cell that the store does
/// not hold, and a sum that does not fit in 64 bits, are refused.
pub fn accumulate(row: Option<u64>, delta: u64) -> (r: Result<u64, StoreError>)
    ensures
        r == accumulated(row, delta),
{
    match row {
        None => Err(StoreError::UnknownVoxel),
        Some(value) => match value.checked_add(delta) {
            None => Err(StoreError::Overflow),
            Some(sum) => Ok(sum),
        },
    }
}

impl GridView {
    /// A populated store holds one intensity for each cell of its grid, and
    /// each cell's offset fits in 32 bits; a store not yet populated holds
    /// none.
    pub open spec fn wf(self) -> bool {
        &&& self.cells.len() == cell_count(self.grid_size as int)
        &&& self.cells.len() <= u32::MAX
        &&& !self.initialized ==> self.grid_size == 0
    }

    /// The store before it is populated.
    pub open spec fn empty() -> GridView {
        GridView { grid_size: 0, initialized: false, cells: Seq::empty() }
    }

    /// The store right after it was populated for a grid of `grid_size` cells
    /// per axis: every intensity is zero.
    pub open spec fn zeroed(grid_size: u32) -> GridView {
        GridView {
            grid_size,
            initialized: true,
            cells: Seq::new(cell_count(grid_size as int) as nat, |i: int| 0u64),
        }
    }

    /// What populating the store for a grid of `grid_size` cells per axis
    /// gives.
    pub open spec fn init(self, grid_size: u32) -> Result<GridView, StoreError> {
        if self.initialized {
            Err(StoreError::AlreadyInitialized)
        } else if cell_count(grid_size as int) > u32::MAX {
            Err(StoreError::GridTooLarge)
        } else {
            Ok(GridView::zeroed(grid_size))
        }
    }

    /// The intensity that the store holds for the cell at offset
    /// `voxel_index`, if it holds that cell.
    pub open spec fn row(self, voxel_index: u32) -> Option<u64> {
        if voxel_index < self.cells.len() {
            Some(self.cells[voxel_index as int])
        } else {
            None
        }
    }

    /// What a hit of `delta` units on the cell at offset `voxel_index` gives:
    /// the store with that cell's intensity raised by `delta`, or the reason
    /// why the hit is refused.
    pub open spec fn apply_hit(self, voxel_index: u32, delta: u64) -> Result<GridView, StoreError> {
        match accumulated(self.row(voxel_index), delta) {
            Ok(sum) => Ok(GridView { cells: self.cells.update(voxel_index as int, sum), ..self }),
            Err(e) => Err(e),
        }
    }

    /// What a hit of `value` units on the cell `voxel` gives.
    pub open spec fn update_voxel(self, voxel: Voxel, value: u64) -> Result<GridView, StoreError> {
        if !voxel.within(self.grid_size) {
            Err(StoreError::UnknownVoxel)
        } else {
            self.apply_hit(voxel.offset(self.grid_size) as u32, value)
        }
    }
}

impl GridView {
    /// What a forwarded hit gives: the store with the hit's cell raised by
    /// the units that the hit's sample stands for.
    pub open spec fn apply_event(self, event: VoxelHitEvent) -> Result<GridView, StoreError> {
        match sample_units(event.value_bits) {
            Some(units) => if units <= u64::MAX {
                self.update_voxel(event.voxel, units as u64)
            } else {
                Err(StoreError::BadSample)
            },
            None => Err(StoreError::BadSample),
        }
    }
}

impl View for VoxelGridStore {
    type V = GridView;

    open spec fn view(&self) -> GridView {
        GridView { grid_size: self.grid_size, initialized: self.initialized, cells: self.grid@ }
    }
}

/// Whether a call that was to give `expected` returned `r` and left the
/// store as `after`, having found it as `before`.
pub open spec fn settled(
    expected: Result<GridView, StoreError>,
    r: Result<(), StoreError>,
    before: GridView,
    after: GridView,
) -> bool {
    match expected {
        Ok(next) => r is Ok && after == next,
        Err(e) => r == Err::<(), StoreError>(e) && after == before,
    }
}

impl VoxelGridStore {
    /// A store that is not populated yet.
    pub fn new() -> (store: VoxelGridStore)
        ensures
            store@ == GridView::empty(),
            store@.wf(),
    {
        assert(cell_count(0) == 0) by (nonlinear_arith);
        VoxelGridStore { grid_size: 0, initialized: false, grid: Vec::new() }
    }

    /// Tells whether the store is well formed: it holds one intensity for
    /// each cell of its grid, and none before it is populated.
    pub fn is_valid(&self) -> (r: bool)
        ensures
            r == self@.wf(),
    {
        if !self.initialized && self.grid_size != 0 {
            return false;
        }
        match checked_cell_count(self.grid_size) {
            None => {
                proof {
                    if self@.wf() {
                        assert(self@.cells.len() <= u32::MAX);
                    }
                }
                false
            },
            Some(cells) => self.grid.len() == cells as usize,
        }
    }

    /// Populates the store with one zero intensity for each cell of a grid
    /// with `grid_size` cells per axis.  This succeeds once: a populated
    /// store refuses it, and so does a grid too large for 32-bit offsets.
    pub fn init(&mut self, grid_size: u32) -> (r: Result<(), StoreError>)
        requires
            old(self)@.wf(),
        ensures
            settled(old(self)@.init(grid_size), r, old(self)@, final(self)@),
            final(self)@.wf(),
    {
        if self.initialized {
            return Err(StoreError::AlreadyInitialized);
        }
        let cells: u32 = match checked_cell_count(grid_size) {
            None => {
                return Err(StoreError::GridTooLarge);
            },
            Some(cells) => cells,
        };
        let mut grid: Vec<u64> = Vec::new();
        let mut i: u32 = 0;
        while i < cells
            invariant
                i <= cells,
                grid@.len() == i,
                forall|j: int| 0 <= j < i ==> grid@[j] == 0,
            decreases cells - i,
        {
            grid.push(0);
            i += 1;
        }
        assert(grid@ =~= GridView::zeroed(grid_size).cells);
        self.grid_size = grid_size;
        self.initialized = true;
        self.grid = grid;
        Ok(())
    }

    /// Raises the intensity of the cell at offset `voxel_index` by `delta`
    /// units.
    pub fn apply_hit(&mut self, voxel_index: u32, delta: u64) -> (r: Result<(), StoreError>)
        requires
            old(self)@.wf(),
        ensures
            settled(old(self)@.apply_hit(voxel_index, delta), r, old(self)@, final(self)@),
            final(self)@.wf(),
    {
        let row = self.value(voxel_index);
        match accumulate(row, delta) {
            Err(e) => Err(e),
            Ok(sum) => {
                self.grid.set(voxel_index as usize, sum);
                Ok(())
            },
        }
    }

    /// Raises the intensity of the cell `voxel` by `value` units.  A cell
    /// outside the store's grid is refused as unknown.
    pub fn update_voxel(&mut self, voxel: Voxel, value: u64) -> (r: Result<(), StoreError>)
        requires
            old(self)@.wf(),
        ensures
            settled(old(self)@.update_voxel(voxel, value), r, old(self)@, final(self)@),
            final(self)@.wf(),
    {
        match voxel.checked_idx(self.grid_size) {
            None => {
                proof {
                    if voxel.within(self.grid_size) {
                        lemma_index_in_range(
                            voxel.x as int,
                            voxel.y as int,
                            voxel.z as int,
                            self.grid_size as int,
                        );
                    }
                }
                Err(StoreError::UnknownVoxel)
            },
            Some(idx) => self.apply_hit(idx, value),
        }
    }

    /// Accumulates a forwarded hit: raises the intensity of the hit's cell by
    /// the units that the hit's sample stands for.
    pub fn apply_event(&mut self, event: VoxelHitEvent) -> (r: Result<(), StoreError>)
        requires
            old(self)@.wf(),
        ensures
            settled(old(self)@.apply_event(event), r, old(self)@, final(self)@),
            final(self)@.wf(),
    {
        match units_of_sample(event.value_bits) {
            None => Err(StoreError::BadSample),
            Some(units) => self.update_voxel(event.voxel, units),
        }
    }

    /// The intensity of the cell at offset `voxel_index`, if the store holds
    /// that cell.
    pub fn value(&self, voxel_index: u32) -> (r: Option<u64>)
        ensures
            r == self@.row(voxel_index),
    {
        let at: usize = voxel_index as usize;
        if at < self.grid.len() {
            Some(self.grid[at])
        } else {
            None
        }
    }

    /// All intensities, in the order of the cells' offsets.
    pub fn snapshot(&self) -> (cells: Vec<u64>)
        ensures
            cells@ == self@.cells,
    {
        let mut cells: Vec<u64> = Vec::with_capacity(self.grid.len());
        let mut i: usize = 0;
        while i < self.grid.len()
            invariant
                i <= self.grid@.len(),
                cells@ == self.grid@.take(i as int),
            decreases self.grid@.len() - i,
        {
            cells.push(self.grid[i]);
            assert(cells@ =~= self.grid@.take(i + 1));
            i += 1;
        }
        assert(self.grid@.take(self.grid@.len() as int) =~= self.grid@);
        cells
    }
}

/// Two hits on one cell add up: whichever is applied first, the cell ends
/// with its old intensity raised by both, and every other cell is as it was.
pub proof fn lemma_hits_accumulate(grid: GridView, voxel_index: u32, delta1: u64, delta2: u64)
    requires
        grid.wf(),
        voxel_index < grid.cells.len(),
        grid.cells[voxel_index as int] + delta1 + delta2 <= u64::MAX,
    ensures
        grid.apply_hit(voxel_index, delta1) is Ok,
        grid.apply_hit(voxel_index, delta2) is Ok,
        grid.apply_hit(voxel_index, delta1)->Ok_0.apply_hit(voxel_index, delta2) == Ok::<
            GridView,
            StoreError,
        >(
            GridView {
                cells: grid.cells.update(
                    voxel_index as int,
                    (grid.cells[voxel_index as int] + delta1 + delta2) as u64,
                ),
                ..grid
            },
        ),
        grid.apply_hit(voxel_index, delta1)->Ok_0.apply_hit(voxel_index, delta2)
            == grid.apply_hit(voxel_index, delta2)->Ok_0.apply_hit(voxel_index, delta1),
{
    let sum = (grid.cells[voxel_index as int] + delta1 + delta2) as u64;
    let first = grid.apply_hit(voxel_index, delta1)->Ok_0;
    let second = grid.apply_hit(voxel_index, delta2)->Ok_0;
    assert(first.cells.update(voxel_index as int, sum) =~= grid.cells.update(
        voxel_index as int,
        sum,
    ));
    assert(second.cells.update(voxel_index as int, sum) =~= grid.cells.update(
        voxel_index as int,
        sum,
    ));
}

/// Two hits that are both accepted one after the other are accepted in the
/// other order as well, and leave the same store behind: which of two
/// writers comes first makes no difference, and neither hit is lost.
pub proof fn lemma_hits_commute(
    grid: GridView,
    index1: u32,
    delta1: u64,
    index2: u32,
    delta2: u64,
)
    requires
        grid.wf(),
        grid.apply_hit(index1, delta1) is Ok,
        grid.apply_hit(index1, delta1)->Ok_0.apply_hit(index2, delta2) is Ok,
    ensures
        grid.apply_hit(index2, delta2) is Ok,
        grid.apply_hit(index2, delta2)->Ok_0.apply_hit(index1, delta1) == grid.apply_hit(
            index1,
            delta1,
        )->Ok_0.apply_hit(index2, delta2),
{
    let first = grid.apply_hit(index1, delta1)->Ok_0;
    let both = first.apply_hit(index2, delta2)->Ok_0;
    let second = grid.apply_hit(index2, delta2)->Ok_0;
    let other = second.apply_hit(index1, delta1)->Ok_0;
    assert(second.apply_hit(index1, delta1) is Ok);
    assert(other.cells =~= both.cells);
}

/// A hit keeps the store well formed, changes no cell but its own and leaves
/// the size of the grid alone.
pub proof fn lemma_hit_is_local(grid: GridView, voxel_index: u32, delta: u64, other: int)
    requires
        grid.wf(),
        grid.apply_hit(voxel_index, delta) is Ok,
        0 <= other < grid.cells.len(),
        other != voxel_index,
    ensures
        grid.apply_hit(voxel_index, delta)->Ok_0.wf(),
        grid.apply_hit(voxel_index, delta)->Ok_0.cells[other] == grid.cells[other],
        grid.apply_hit(voxel_index, delta)->Ok_0.cells[voxel_index as int]
            == grid.cells[voxel_index as int] + delta,
{
}

} // verus!

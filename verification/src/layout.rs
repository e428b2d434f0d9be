//! The region assignment engine: the witness grid, selector activations,
//! copy-constraint recording, and the floor planner that maps each logical
//! region onto a fresh block of absolute rows.
//!
//! A `Layouter` owns the grid between regions.  Opening a region consumes
//! the layouter and returns a `Region`; closing the region hands the
//! layouter back and commits the block of rows the region actually used.
//! Because at most one region is ever open and each region starts at the
//! first row no earlier region touched, two regions can never share an
//! absolute row — overlap is prevented structurally rather than detected.

use vstd::prelude::*;

use crate::field::FieldOps;
use crate::system::Column;
use crate::system::ColumnKind;
use crate::system::ConstraintSystem;
use crate::system::Selector;

verus! {

/// A synthesis-time failure.
#[derive(Clone, Copy, Debug, PartialEq, Eq, Structural)]
pub enum Error {
    /// A required witness value was absent when assignment demanded one
    /// (for example, a key-generation pass run without a witness).
    Synthesis,
    /// A copy constraint was requested on a column that was not marked
    /// equality-enabled during configuration.
    ColumnNotEqualityEnabled,
    /// A cell already holding a value was assigned a different one.
    DoubleAssignment,
}

/// The identity of one cell of the grid: a column (by allocation index)
/// and an absolute row.
#[derive(Clone, Copy, Debug, PartialEq, Eq, Structural)]
pub struct Cell {
    pub column: usize,
    pub row: usize,
}

/// A cell together with the value that was assigned to it.
#[derive(Clone, Copy, Debug)]
pub struct AssignedCell<F: FieldOps> {
    pub cell: Cell,
    pub val: F,
}

/// The absolute-row block a completed region occupied.
#[derive(Debug)]
pub struct RegionSpan {
    pub name: String,
    pub start: usize,
    pub size: usize,
}

/// The witness grid and everything recorded while filling it.
///
/// `grid` holds one (ragged) column of optional values per allocated
/// column; a missing entry means the cell was never assigned.  `sel_rows`
/// holds, per selector, the rows at which it was enabled.  `pairs` is the
/// copy-constraint record: each entry declares its two cells equal.
#[derive(Debug)]
pub struct Layouter<F: FieldOps> {
    pub grid: Vec<Vec<Option<F>>>,
    pub sel_rows: Vec<Vec<bool>>,
    pub eq_enabled: Vec<bool>,
    pub pairs: Vec<(Cell, Cell)>,
    pub regions: Vec<RegionSpan>,
    pub next_row: usize,
}

/// An open region: the layouter, the absolute row its block starts at,
/// and the number of relative rows used so far.  The block is committed
/// when `finish` is called.
#[derive(Debug)]
pub struct Region<F: FieldOps> {
    pub lay: Layouter<F>,
    pub name: String,
    pub start: usize,
    pub used: usize,
}

impl<F: FieldOps> Layouter<F> {
    /// The value of the cell at column `c`, absolute row `r`; `None` when
    /// the cell was never assigned.
    pub open spec fn value_at(self, c: int, r: int) -> Option<F> {
        if 0 <= c < self.grid@.len() && 0 <= r < self.grid@[c]@.len() {
            self.grid@[c]@[r]
        } else {
            None
        }
    }

    /// Whether selector `s` is enabled at absolute row `r`.  Selectors
    /// default to off everywhere.
    pub open spec fn sel_on(self, s: int, r: int) -> bool {
        &&& 0 <= s < self.sel_rows@.len()
        &&& 0 <= r < self.sel_rows@[s]@.len()
        &&& self.sel_rows@[s]@[r]
    }

    /// Every assigned cell and enabled selector lies below `bound`.
    pub open spec fn rows_bounded(self, bound: int) -> bool {
        &&& forall|c: int| 0 <= c < self.grid@.len() ==> #[trigger] self.grid@[c]@.len() <= bound
        &&& forall|s: int|
            0 <= s < self.sel_rows@.len() ==> #[trigger] self.sel_rows@[s]@.len() <= bound
    }

    /// The committed regions lie below `next_row`, in order and pairwise
    /// disjoint.
    pub open spec fn regions_wf(self) -> bool {
        &&& forall|i: int|
            0 <= i < self.regions@.len() ==> #[trigger] self.regions@[i].start
                + self.regions@[i].size <= self.next_row
        &&& forall|i: int, j: int|
            0 <= i < j < self.regions@.len() ==> #[trigger] self.regions@[i].start
                + self.regions@[i].size <= #[trigger] self.regions@[j].start
    }

    /// The layouter invariant between regions.
    pub open spec fn wf(self) -> bool {
        &&& self.eq_enabled@.len() == self.grid@.len()
        &&& self.regions_wf()
        &&& self.rows_bounded(self.next_row as int)
    }

    /// The layouter was built for `cs`: one grid column per allocated
    /// column, one selector track per selector, the same equality flags.
    pub open spec fn matches_system(self, cs: ConstraintSystem) -> bool {
        &&& self.grid@.len() == cs.columns@.len()
        &&& self.sel_rows@.len() == cs.num_selectors
        &&& self.eq_enabled@ == cs.eq_enabled@
    }

    /// A fresh, empty layouter for the given constraint system: no cell
    /// assigned, no selector enabled, no copy constraint, no region.
    pub fn new(cs: &ConstraintSystem) -> (lay: Layouter<F>)
        requires
            cs.wf(),
        ensures
            lay.wf(),
            lay.matches_system(*cs),
            lay.next_row == 0,
            lay.regions@.len() == 0,
            lay.pairs@.len() == 0,
            forall|c: int, r: int| #[trigger] lay.value_at(c, r) is None,
            forall|s: int, r: int| !(#[trigger] lay.sel_on(s, r)),
    {
        let mut grid: Vec<Vec<Option<F>>> = Vec::new();
        let mut i: usize = 0;
        while i < cs.columns.len()
            invariant
                i == grid@.len(),
                i <= cs.columns@.len(),
                forall|c: int| 0 <= c < grid@.len() ==> #[trigger] grid@[c]@.len() == 0,
            decreases cs.columns@.len() - i,
        {
            grid.push(Vec::new());
            i = i + 1;
        }
        let mut sel_rows: Vec<Vec<bool>> = Vec::new();
        let mut s: usize = 0;
        while s < cs.num_selectors
            invariant
                s == sel_rows@.len(),
                s <= cs.num_selectors,
                forall|t: int| 0 <= t < sel_rows@.len() ==> #[trigger] sel_rows@[t]@.len() == 0,
            decreases cs.num_selectors - s,
        {
            sel_rows.push(Vec::new());
            s = s + 1;
        }
        let mut eq_enabled: Vec<bool> = Vec::new();
        let mut e: usize = 0;
        while e < cs.eq_enabled.len()
            invariant
                e == eq_enabled@.len(),
                e <= cs.eq_enabled@.len(),
                forall|k: int| 0 <= k < e ==> eq_enabled@[k] == cs.eq_enabled@[k],
            decreases cs.eq_enabled@.len() - e,
        {
            eq_enabled.push(cs.eq_enabled[e]);
            e = e + 1;
        }
        let lay = Layouter {
            grid,
            sel_rows,
            eq_enabled,
            pairs: Vec::new(),
            regions: Vec::new(),
            next_row: 0,
        };
        proof {
            assert(lay.eq_enabled@ =~= cs.eq_enabled@);
        }
        lay
    }

    /// Opens a region whose block starts at the first untouched row.  The
    /// layouter moves into the region; it comes back through `finish`,
    /// which is what makes overlapping regions impossible to express.
    pub fn begin_region(self, name: String) -> (rg: Region<F>)
        requires
            self.wf(),
        ensures
            rg.wf(),
            rg.lay == self,
            rg.name@ == name@,
            rg.start == self.next_row,
            rg.used == 0,
    {
        Region { start: self.next_row, used: 0, name, lay: self }
    }

    /// Declares two cells equal.  Both columns must have been marked
    /// equality-enabled during configuration; nothing else changes, and
    /// the satisfiability checker later holds the two values to each
    /// other.  Unlike `copy_advice`, this writes no value: a recorded
    /// cell that never receives one is reported by the checker as a
    /// failing constraint, not filled in by propagation.
    pub fn record_equal(&mut self, a: Cell, b: Cell) -> (res: Result<(), Error>)
        requires
            old(self).wf(),
            a.column < old(self).eq_enabled@.len(),
            b.column < old(self).eq_enabled@.len(),
        ensures
            final(self).wf(),
            final(self).grid@ == old(self).grid@,
            final(self).sel_rows@ == old(self).sel_rows@,
            final(self).eq_enabled@ == old(self).eq_enabled@,
            final(self).regions@ == old(self).regions@,
            final(self).next_row == old(self).next_row,
            res is Ok <==> (old(self).eq_enabled@[a.column as int]
                && old(self).eq_enabled@[b.column as int]),
            res is Ok ==> final(self).pairs@ == old(self).pairs@.push((a, b)),
            res is Err ==> final(self).pairs@ == old(self).pairs@ && res == Result::<
                (),
                Error,
            >::Err(Error::ColumnNotEqualityEnabled),
    {
        if self.eq_enabled[a.column] && self.eq_enabled[b.column] {
            self.pairs.push((a, b));
            Ok(())
        } else {
            Err(Error::ColumnNotEqualityEnabled)
        }
    }

    /// The value a cell resolves to, `None` when it was never assigned.
    /// Copies propagate their source's value into the destination cell at
    /// assignment time, so one lookup resolves any member of an
    /// equivalence class built by `copy_advice`.  A cell linked only by
    /// `record_equal` and never assigned resolves to `None`: resolution
    /// reads the grid, it does not chase recorded pairs.
    pub fn resolve(&self, cell: Cell) -> (r: Option<F>)
        ensures
            r == self.value_at(cell.column as int, cell.row as int),
    {
        if cell.column < self.grid.len() {
            let col = &self.grid[cell.column];
            if cell.row < col.len() {
                col[cell.row]
            } else {
                None
            }
        } else {
            None
        }
    }
}

/// Grows `v` with `None` entries until `row` is in range, then writes
/// `Some(val)` there; every other entry keeps its old value.
fn grid_write<F: FieldOps>(v: &mut Vec<Option<F>>, row: usize, val: F)
    requires
        row < usize::MAX,
    ensures
        final(v)@.len() == (if old(v)@.len() >= row + 1 {
            old(v)@.len() as int
        } else {
            row + 1
        }),
        final(v)@[row as int] == Some(val),
        forall|i: int|
            0 <= i < final(v)@.len() && i != row ==> final(v)@[i] == (if i < old(v)@.len() {
                old(v)@[i]
            } else {
                None::<F>
            }),
{
    while v.len() < row + 1
        invariant
            row < usize::MAX,
            v@.len() >= old(v)@.len(),
            v@.len() <= row + 1 || v@.len() == old(v)@.len(),
            forall|i: int|
                0 <= i < v@.len() ==> v@[i] == (if i < old(v)@.len() {
                    old(v)@[i]
                } else {
                    None::<F>
                }),
        decreases row + 1 - v@.len(),
    {
        v.push(None);
    }
    let elem = &mut v[row];
    *elem = Some(val);
}

/// Grows `v` with `false` entries until `row` is in range, then writes
/// `true` there; every other entry keeps its old value.
fn sel_write(v: &mut Vec<bool>, row: usize)
    requires
        row < usize::MAX,
    ensures
        final(v)@.len() == (if old(v)@.len() >= row + 1 {
            old(v)@.len() as int
        } else {
            row + 1
        }),
        final(v)@[row as int] == true,
        forall|i: int|
            0 <= i < final(v)@.len() && i != row ==> final(v)@[i] == (if i < old(v)@.len() {
                old(v)@[i]
            } else {
                false
            }),
{
    while v.len() < row + 1
        invariant
            row < usize::MAX,
            v@.len() >= old(v)@.len(),
            v@.len() <= row + 1 || v@.len() == old(v)@.len(),
            forall|i: int|
                0 <= i < v@.len() ==> v@[i] == (if i < old(v)@.len() {
                    old(v)@[i]
                } else {
                    false
                }),
        decreases row + 1 - v@.len(),
    {
        v.push(false);
    }
    let elem = &mut v[row];
    *elem = true;
}

/// Two distinct committed regions never share an absolute row: a row
/// inside one region's block lies outside the other's.
pub proof fn lemma_regions_disjoint<F: FieldOps>(lay: Layouter<F>, i: int, j: int, r: int)
    requires
        lay.wf(),
        0 <= i < lay.regions@.len(),
        0 <= j < lay.regions@.len(),
        i != j,
        lay.regions@[i].start <= r < lay.regions@[i].start + lay.regions@[i].size,
    ensures
        !(lay.regions@[j].start <= r < lay.regions@[j].start + lay.regions@[j].size),
{
    if i < j {
        assert(lay.regions@[i].start + lay.regions@[i].size <= lay.regions@[j].start);
    } else {
        assert(lay.regions@[j].start + lay.regions@[j].size <= lay.regions@[i].start);
    }
}

impl<F: FieldOps> Region<F> {
    /// The region invariant: the layouter's committed state is as it was
    /// when the region opened, and every row touched so far lies inside
    /// the region's block.
    pub open spec fn wf(self) -> bool {
        &&& self.lay.eq_enabled@.len() == self.lay.grid@.len()
        &&& self.lay.regions_wf()
        &&& self.start == self.lay.next_row
        &&& self.start + self.used <= usize::MAX
        &&& self.lay.rows_bounded(self.start + self.used)
    }

    /// Enables `sel` at relative row `offset` of this region.  A gate
    /// guarded by `sel` is checked at exactly the rows enabled this way;
    /// enabling a row twice is harmless.
    pub fn enable_selector(&mut self, sel: Selector, offset: usize)
        requires
            old(self).wf(),
            sel.index < old(self).lay.sel_rows@.len(),
            old(self).start + offset < usize::MAX,
        ensures
            final(self).wf(),
            final(self).start == old(self).start,
            final(self).name@ == old(self).name@,
            final(self).used == (if old(self).used >= offset + 1 {
                old(self).used as int
            } else {
                offset + 1
            }),
            final(self).lay.grid@ == old(self).lay.grid@,
            final(self).lay.sel_rows@.len() == old(self).lay.sel_rows@.len(),
            final(self).lay.eq_enabled@ == old(self).lay.eq_enabled@,
            final(self).lay.pairs@ == old(self).lay.pairs@,
            final(self).lay.regions@ == old(self).lay.regions@,
            final(self).lay.next_row == old(self).lay.next_row,
            final(self).lay.sel_on(sel.index as int, (old(self).start + offset) as int),
            forall|s: int, r: int|
                !(s == sel.index && r == old(self).start + offset) ==> #[trigger] final(self).lay.sel_on(s, r) == old(self).lay.sel_on(s, r),
    {
        let row = self.start + offset;
        let track = &mut self.lay.sel_rows[sel.index];
        sel_write(track, row);
        if self.used < offset + 1 {
            self.used = offset + 1;
        }
    }

    /// Writes a fresh value into an advice cell of this region.
    ///
    /// An absent value is the missing-witness case and fails with
    /// `Synthesis` rather than defaulting to zero; writing a value
    /// different from one the cell already holds fails with
    /// `DoubleAssignment`.  On failure nothing changes.
    pub fn assign_advice(&mut self, col: Column, offset: usize, val: Option<F>) -> (res: Result<
        AssignedCell<F>,
        Error,
    >)
        requires
            old(self).wf(),
            col.kind == ColumnKind::Advice,
            col.index < old(self).lay.grid@.len(),
            old(self).start + offset < usize::MAX,
        ensures
            final(self).wf(),
            final(self).start == old(self).start,
            final(self).name@ == old(self).name@,
            final(self).lay.eq_enabled@ == old(self).lay.eq_enabled@,
            final(self).lay.pairs@ == old(self).lay.pairs@,
            final(self).lay.regions@ == old(self).lay.regions@,
            final(self).lay.next_row == old(self).lay.next_row,
            final(self).lay.sel_rows@ == old(self).lay.sel_rows@,
            final(self).lay.grid@.len() == old(self).lay.grid@.len(),
            res is Ok <==> (val is Some && (old(self).lay.value_at(
                col.index as int,
                (old(self).start + offset) as int,
            ) is None || old(self).lay.value_at(col.index as int, (old(self).start + offset) as int)
                == val)),
            res matches Ok(ac) ==> {
                &&& val == Some(ac.val)
                &&& ac.cell == (Cell { column: col.index, row: (old(self).start + offset) as usize })
                &&& final(self).lay.value_at(col.index as int, (old(self).start + offset) as int)
                    == Some(ac.val)
                &&& final(self).used == (if old(self).used >= offset + 1 {
                    old(self).used as int
                } else {
                    offset + 1
                })
                &&& forall|c: int, r: int|
                    !(c == col.index && r == old(self).start + offset) ==> #[trigger] final(self).lay.value_at(c, r) == old(self).lay.value_at(c, r)
            },
            res matches Err(e) ==> {
                &&& *final(self) == *old(self)
                &&& (e == Error::Synthesis <==> val is None)
                &&& (e == Error::DoubleAssignment <==> val is Some)
            },
    {
        let row = self.start + offset;
        match val {
            None => Err(Error::Synthesis),
            Some(v) => {
                let existing = self.lay.resolve(Cell { column: col.index, row });
                match existing {
                    Some(w) => {
                        if w.eq_elem(&v) {
                            self.write_cell(col.index, offset, v);
                            Ok(AssignedCell { cell: Cell { column: col.index, row }, val: v })
                        } else {
                            Err(Error::DoubleAssignment)
                        }
                    },
                    None => {
                        self.write_cell(col.index, offset, v);
                        Ok(AssignedCell { cell: Cell { column: col.index, row }, val: v })
                    },
                }
            },
        }
    }

    /// Writes a circuit constant into a fixed cell of this region.
    /// Constants are baked into the circuit, so there is no absent-value
    /// case; rewriting a cell with a different constant still fails with
    /// `DoubleAssignment`, and on failure nothing changes.
    pub fn assign_fixed(&mut self, col: Column, offset: usize, val: F) -> (res: Result<
        AssignedCell<F>,
        Error,
    >)
        requires
            old(self).wf(),
            col.kind == ColumnKind::Fixed,
            col.index < old(self).lay.grid@.len(),
            old(self).start + offset < usize::MAX,
        ensures
            final(self).wf(),
            final(self).start == old(self).start,
            final(self).name@ == old(self).name@,
            final(self).lay.eq_enabled@ == old(self).lay.eq_enabled@,
            final(self).lay.pairs@ == old(self).lay.pairs@,
            final(self).lay.regions@ == old(self).lay.regions@,
            final(self).lay.next_row == old(self).lay.next_row,
            final(self).lay.sel_rows@ == old(self).lay.sel_rows@,
            final(self).lay.grid@.len() == old(self).lay.grid@.len(),
            res is Ok <==> (old(self).lay.value_at(
                col.index as int,
                (old(self).start + offset) as int,
            ) is None || old(self).lay.value_at(col.index as int, (old(self).start + offset) as int)
                == Some(val)),
            res matches Ok(ac) ==> {
                &&& ac.val == val
                &&& ac.cell == (Cell { column: col.index, row: (old(self).start + offset) as usize })
                &&& final(self).lay.value_at(col.index as int, (old(self).start + offset) as int)
                    == Some(val)
                &&& final(self).used == (if old(self).used >= offset + 1 {
                    old(self).used as int
                } else {
                    offset + 1
                })
                &&& forall|c: int, r: int|
                    !(c == col.index && r == old(self).start + offset) ==> #[trigger] final(self).lay.value_at(c, r) == old(self).lay.value_at(c, r)
            },
            res matches Err(e) ==> {
                &&& *final(self) == *old(self)
                &&& e == Error::DoubleAssignment
            },
    {
        let row = self.start + offset;
        let existing = self.lay.resolve(Cell { column: col.index, row });
        match existing {
            Some(w) => {
                if w.eq_elem(&val) {
                    self.write_cell(col.index, offset, val);
                    Ok(AssignedCell { cell: Cell { column: col.index, row }, val })
                } else {
                    Err(Error::DoubleAssignment)
                }
            },
            None => {
                self.write_cell(col.index, offset, val);
                Ok(AssignedCell { cell: Cell { column: col.index, row }, val })
            },
        }
    }

    /// Writes the value already held by `src` into the cell at
    /// (`col`, `offset`) of this region and records a copy constraint
    /// between the two cells.  Both columns must be equality-enabled, and
    /// the source must already hold a value.
    pub fn copy_advice(&mut self, src: Cell, col: Column, offset: usize) -> (res: Result<
        AssignedCell<F>,
        Error,
    >)
        requires
            old(self).wf(),
            col.kind == ColumnKind::Advice,
            col.index < old(self).lay.grid@.len(),
            src.column < old(self).lay.eq_enabled@.len(),
            old(self).start + offset < usize::MAX,
        ensures
            final(self).wf(),
            final(self).start == old(self).start,
            final(self).name@ == old(self).name@,
            final(self).lay.eq_enabled@ == old(self).lay.eq_enabled@,
            final(self).lay.regions@ == old(self).lay.regions@,
            final(self).lay.next_row == old(self).lay.next_row,
            final(self).lay.sel_rows@ == old(self).lay.sel_rows@,
            final(self).lay.grid@.len() == old(self).lay.grid@.len(),
            res is Ok <==> (old(self).lay.eq_enabled@[src.column as int] && old(self).lay.eq_enabled@[col.index as int] && old(self).lay.value_at(
                src.column as int,
                src.row as int,
            ) is Some && (old(self).lay.value_at(col.index as int, (old(self).start + offset) as int)
                is None || old(self).lay.value_at(
                col.index as int,
                (old(self).start + offset) as int,
            ) == old(self).lay.value_at(src.column as int, src.row as int))),
            res matches Ok(ac) ==> {
                &&& old(self).lay.value_at(src.column as int, src.row as int) == Some(ac.val)
                &&& ac.cell == (Cell { column: col.index, row: (old(self).start + offset) as usize })
                &&& final(self).lay.value_at(col.index as int, (old(self).start + offset) as int)
                    == Some(ac.val)
                &&& final(self).lay.pairs@ == old(self).lay.pairs@.push((src, ac.cell))
                &&& final(self).used == (if old(self).used >= offset + 1 {
                    old(self).used as int
                } else {
                    offset + 1
                })
                &&& forall|c: int, r: int|
                    !(c == col.index && r == old(self).start + offset) ==> #[trigger] final(self).lay.value_at(c, r) == old(self).lay.value_at(c, r)
            },
            res matches Err(e) ==> {
                &&& *final(self) == *old(self)
                &&& (e == Error::ColumnNotEqualityEnabled <==> !(old(self).lay.eq_enabled@[src.column as int]
                    && old(self).lay.eq_enabled@[col.index as int]))
                &&& (e == Error::Synthesis <==> (old(self).lay.eq_enabled@[src.column as int] && old(self).lay.eq_enabled@[col.index as int] && old(self).lay.value_at(
                    src.column as int,
                    src.row as int,
                ) is None))
            },
    {
        let row = self.start + offset;
        if !(self.lay.eq_enabled[src.column] && self.lay.eq_enabled[col.index]) {
            return Err(Error::ColumnNotEqualityEnabled);
        }
        let source_val = self.lay.resolve(src);
        match source_val {
            None => Err(Error::Synthesis),
            Some(v) => {
                let dst = Cell { column: col.index, row };
                let existing = self.lay.resolve(dst);
                let conflict = match existing {
                    Some(w) => !w.eq_elem(&v),
                    None => false,
                };
                if conflict {
                    Err(Error::DoubleAssignment)
                } else {
                    self.write_cell(col.index, offset, v);
                    let ghost mid = *self;
                    self.lay.pairs.push((src, dst));
                    proof {
                        assert forall|c: int, r: int|
                            !(c == col.index && r == old(self).start + offset) implies #[trigger] self.lay.value_at(
                            c,
                            r,
                        ) == old(self).lay.value_at(c, r) by {
                            assert(self.lay.value_at(c, r) == mid.lay.value_at(c, r));
                            assert(mid.lay.value_at(c, r) == old(self).lay.value_at(c, r));
                        }
                    }
                    Ok(AssignedCell { cell: dst, val: v })
                }
            },
        }
    }

    /// Writes `Some(val)` at (`c`, `start + offset`) and widens the
    /// region to cover the row.  Shared by the two assignment primitives.
    fn write_cell(&mut self, c: usize, offset: usize, val: F)
        requires
            old(self).wf(),
            c < old(self).lay.grid@.len(),
            old(self).start + offset < usize::MAX,
        ensures
            final(self).wf(),
            final(self).start == old(self).start,
            final(self).name@ == old(self).name@,
            final(self).lay.eq_enabled@ == old(self).lay.eq_enabled@,
            final(self).lay.pairs@ == old(self).lay.pairs@,
            final(self).lay.regions@ == old(self).lay.regions@,
            final(self).lay.next_row == old(self).lay.next_row,
            final(self).lay.sel_rows@ == old(self).lay.sel_rows@,
            final(self).lay.grid@.len() == old(self).lay.grid@.len(),
            final(self).lay.value_at(c as int, (old(self).start + offset) as int) == Some(val),
            final(self).used == (if old(self).used >= offset + 1 {
                old(self).used as int
            } else {
                offset + 1
            }),
            forall|cc: int, r: int|
                !(cc == c && r == old(self).start + offset) ==> #[trigger] final(self).lay.value_at(cc, r) == old(self).lay.value_at(cc, r),
    {
        let row = self.start + offset;
        let col_vec = &mut self.lay.grid[c];
        grid_write(col_vec, row, val);
        if self.used < offset + 1 {
            self.used = offset + 1;
        }
    }

    /// Closes the region: commits its block (at the size of the highest
    /// relative row actually used) and hands the layouter back.  Every
    /// cell, selector and copy constraint recorded so far is preserved.
    pub fn finish(self) -> (lay: Layouter<F>)
        requires
            self.wf(),
        ensures
            lay.wf(),
            lay.grid@ == self.lay.grid@,
            lay.sel_rows@ == self.lay.sel_rows@,
            lay.eq_enabled@ == self.lay.eq_enabled@,
            lay.pairs@ == self.lay.pairs@,
            lay.next_row == self.start + self.used,
            lay.regions@.len() == self.lay.regions@.len() + 1,
            lay.regions@.subrange(0, self.lay.regions@.len() as int) == self.lay.regions@,
            lay.regions@.last().name@ == self.name@,
            lay.regions@.last().start == self.start,
            lay.regions@.last().size == self.used,
    {
        let Region { lay: mut lay, name, start, used } = self;
        lay.regions.push(RegionSpan { name, start, size: used });
        lay.next_row = start + used;
        proof {
            assert(lay.regions@.subrange(0, lay.regions@.len() - 1) =~= self.lay.regions@);
        }
        lay
    }
}

} // verus!

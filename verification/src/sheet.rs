//! A single sheet: a sparse grid with row and column defaults, addressed
//! through the shell offset.
use vstd::prelude::*;

use std::collections::BTreeMap;

use crate::cell::{CellIdx, Value, value_like};

verus! {

broadcast use vstd::laws_cmp::group_laws_cmp;

/// Where a looked-up value came from: the cell itself, or one of the two
/// default maps.
#[derive(Debug, Clone, Copy, PartialEq, Eq, Structural)]
pub enum ValueSource {
    Native,
    RowDefault,
    ColDefault,
}

/// The result of a value fetch from a sheet: the value together with its
/// provenance.
#[derive(Debug)]
pub struct ValueResult {
    pub value: Value,
    pub source: ValueSource,
}

impl ValueResult {
    pub fn new(val: Value, source: ValueSource) -> (r: Self)
        ensures
            r == (ValueResult { value: val, source }),
    {
        Self { value: val, source }
    }

    pub fn native(val: Value) -> (r: Self)
        ensures
            r == (ValueResult { value: val, source: ValueSource::Native }),
    {
        Self::new(val, ValueSource::Native)
    }

    pub fn row(val: Value) -> (r: Self)
        ensures
            r == (ValueResult { value: val, source: ValueSource::RowDefault }),
    {
        Self::new(val, ValueSource::RowDefault)
    }

    pub fn col(val: Value) -> (r: Self)
        ensures
            r == (ValueResult { value: val, source: ValueSource::ColDefault }),
    {
        Self::new(val, ValueSource::ColDefault)
    }

    pub fn value(self) -> (r: Value)
        ensures
            r == self.value,
    {
        self.value
    }

    /// Applies a function to the value, keeping the provenance.
    pub fn map<F: FnOnce(Value) -> Value>(self, f: F) -> (r: Self)
        requires
            f.requires((self.value,)),
        ensures
            f.ensures((self.value,), r.value),
            r.source == self.source,
    {
        let source = self.source;
        ValueResult { value: f(self.value), source }
    }

    pub fn get_mut(&mut self) -> (r: &mut Value)
        ensures
            *r == old(self).value,
            final(self).value == *final(r),
            final(self).source == old(self).source,
    {
        &mut self.value
    }
}

impl PartialEq for ValueResult {
    fn eq(&self, other: &Self) -> (r: bool) {
        self.value == other.value && self.source == other.source
    }
}

impl vstd::std_specs::cmp::PartialEqSpecImpl for ValueResult {
    open spec fn obeys_eq_spec() -> bool {
        true
    }

    open spec fn eq_spec(&self, other: &Self) -> bool {
        crate::cell::value_eq(self.value, other.value) && self.source == other.source
    }
}

impl Default for ValueResult {
    fn default() -> (r: Self)
        ensures
            r == (ValueResult { value: Value::Empty, source: ValueSource::Native }),
    {
        ValueResult { value: Value::Empty, source: ValueSource::Native }
    }
}

/// The identifier of a sheet: an index allocated by the engine's monotonic
/// counter, never reused.
#[derive(Debug, Clone, Copy, PartialEq, Eq, Structural)]
pub struct SheetIdx(pub u64);

impl SheetIdx {
    /// The next identifier after this one.
    pub fn next(self) -> (r: Self)
        requires
            self.0 < u64::MAX,
        ensures
            r.0 == self.0 + 1,
    {
        SheetIdx(self.0 + 1)
    }
}

/// The one-dimensional key a cell is stored under: cells are grouped in
/// concentric square shells around the origin, each shell walked from its
/// top-right corner down and then left.
pub open spec fn spec_shell_off(row: int, col: int) -> int {
    let m = if row >= col {
        row
    } else {
        col
    };
    m * m + m + row - col
}

/// The shell offset is injective over pairs of non-negative indices.
pub proof fn lemma_shell_off_injective(r1: int, c1: int, r2: int, c2: int)
    requires
        0 <= r1,
        0 <= c1,
        0 <= r2,
        0 <= c2,
        spec_shell_off(r1, c1) == spec_shell_off(r2, c2),
    ensures
        r1 == r2,
        c1 == c2,
{
    let m1 = if r1 >= c1 {
        r1
    } else {
        c1
    };
    let m2 = if r2 >= c2 {
        r2
    } else {
        c2
    };
    assert(m1 * m1 <= spec_shell_off(r1, c1) <= m1 * m1 + 2 * m1);
    assert(m2 * m2 <= spec_shell_off(r2, c2) <= m2 * m2 + 2 * m2);
    assert(m1 == m2) by (nonlinear_arith)
        requires
            0 <= m1,
            0 <= m2,
            m1 * m1 <= m2 * m2 + 2 * m2,
            m2 * m2 <= m1 * m1 + 2 * m1,
    ;
}

/// Converts a cell address to its shell offset.
///
/// The result fits in `u128` for every pair of `u64` indices: with
/// `m = max(row, col)` the offset is at most `m*m + 2*m < (m+1)^2 <= 2^128`.
pub fn cell_ref_to_shell_off(cref: CellIdx) -> (r: u128)
    ensures
        r as int == spec_shell_off(cref.row as int, cref.col as int),
{
    let row: u128 = cref.row as u128;
    let col: u128 = cref.col as u128;
    let m: u128 = if row >= col {
        row
    } else {
        col
    };
    proof {
        assert(m * m + m + row <= u128::MAX) by (nonlinear_arith)
            requires
                0 <= m < 0x10000000000000000,
                0 <= row <= m,
                u128::MAX == 0xffffffffffffffffffffffffffffffff,
        ;
    }
    m * m + m + row - col
}

/// A sheet of values: a name, a sparse cell map keyed by shell offset, and
/// the per-row and per-column default maps. A missing cell reads as
/// `Value::Empty`; writing `Value::Empty` removes the entry, so no map ever
/// stores an empty value.
#[derive(Debug)]
pub struct Sheet {
    pub name: String,
    cells: BTreeMap<u128, Value>,
    row_defaults: BTreeMap<u64, Value>,
    col_defaults: BTreeMap<u64, Value>,
}

impl Sheet {
    /// The sheet's name, as characters.
    pub closed spec fn spec_name(self) -> Seq<char> {
        self.name@
    }

    /// The cell map, keyed by shell offset.
    pub closed spec fn spec_cells(self) -> Map<u128, Value> {
        self.cells@
    }

    /// The row-default map.
    pub closed spec fn spec_row_defaults(self) -> Map<u64, Value> {
        self.row_defaults@
    }

    /// The column-default map.
    pub closed spec fn spec_col_defaults(self) -> Map<u64, Value> {
        self.col_defaults@
    }

    /// No map of the sheet stores an empty value.
    pub open spec fn wf(self) -> bool {
        &&& forall|k: u128| self.spec_cells().contains_key(k) ==> !(#[trigger] self.spec_cells()[k]
            is Empty)
        &&& forall|k: u64| self.spec_row_defaults().contains_key(k) ==> !(
        #[trigger] self.spec_row_defaults()[k] is Empty)
        &&& forall|k: u64| self.spec_col_defaults().contains_key(k) ==> !(
        #[trigger] self.spec_col_defaults()[k] is Empty)
    }

    /// Whether the sheet's name equals the given string.
    pub fn name_eq(&self, other: &String) -> (r: bool)
        ensures
            r == (self.spec_name() == other@),
    {
        self.name == *other
    }

    pub fn new(name: &str) -> (r: Self)
        ensures
            r.spec_name() == name@,
            r.spec_cells() == Map::<u128, Value>::empty(),
            r.spec_row_defaults() == Map::<u64, Value>::empty(),
            r.spec_col_defaults() == Map::<u64, Value>::empty(),
            r.wf(),
    {
        Self {
            name: name.to_owned(),
            cells: BTreeMap::new(),
            row_defaults: BTreeMap::new(),
            col_defaults: BTreeMap::new(),
        }
    }

    /// Inserts a new default value for a row; inserting `Empty` removes the
    /// default. Returns the previous default of that row, `Empty` when there
    /// was none.
    pub fn insert_row_default(&mut self, row: u64, val: Value) -> (r: Value)
        ensures
            final(self).spec_name() == old(self).spec_name(),
            final(self).spec_cells() == old(self).spec_cells(),
            final(self).spec_col_defaults() == old(self).spec_col_defaults(),
            final(self).spec_row_defaults() == if val is Empty {
                old(self).spec_row_defaults().remove(row)
            } else {
                old(self).spec_row_defaults().insert(row, val)
            },
            r == if old(self).spec_row_defaults().contains_key(row) {
                old(self).spec_row_defaults()[row]
            } else {
                Value::Empty
            },
            old(self).wf() ==> final(self).wf(),
    {
        let prev: Option<Value> = if matches!(val, Value::Empty) {
            self.row_defaults.remove(&row)
        } else {
            self.row_defaults.insert(row, val)
        };
        match prev {
            Some(v) => v,
            None => Value::Empty,
        }
    }

    /// Inserts a new default value for a column; inserting `Empty` removes
    /// the default. Returns the previous default of that column, `Empty`
    /// when there was none.
    pub fn insert_col_default(&mut self, col: u64, val: Value) -> (r: Value)
        ensures
            final(self).spec_name() == old(self).spec_name(),
            final(self).spec_cells() == old(self).spec_cells(),
            final(self).spec_row_defaults() == old(self).spec_row_defaults(),
            final(self).spec_col_defaults() == if val is Empty {
                old(self).spec_col_defaults().remove(col)
            } else {
                old(self).spec_col_defaults().insert(col, val)
            },
            r == if old(self).spec_col_defaults().contains_key(col) {
                old(self).spec_col_defaults()[col]
            } else {
                Value::Empty
            },
            old(self).wf() ==> final(self).wf(),
    {
        let prev: Option<Value> = if matches!(val, Value::Empty) {
            self.col_defaults.remove(&col)
        } else {
            self.col_defaults.insert(col, val)
        };
        match prev {
            Some(v) => v,
            None => Value::Empty,
        }
    }

    /// Inserts a value at a cell; inserting `Empty` removes the entry.
    /// Returns the previous value of that cell, `Empty` when there was none.
    pub fn insert(&mut self, cref: CellIdx, val: Value) -> (r: Value)
        ensures
            final(self).spec_name() == old(self).spec_name(),
            final(self).spec_row_defaults() == old(self).spec_row_defaults(),
            final(self).spec_col_defaults() == old(self).spec_col_defaults(),
            ({
                let off = spec_shell_off(cref.row as int, cref.col as int) as u128;
                &&& final(self).spec_cells() == if val is Empty {
                    old(self).spec_cells().remove(off)
                } else {
                    old(self).spec_cells().insert(off, val)
                }
                &&& r == if old(self).spec_cells().contains_key(off) {
                    old(self).spec_cells()[off]
                } else {
                    Value::Empty
                }
            }),
            old(self).wf() ==> final(self).wf(),
    {
        let offset: u128 = cell_ref_to_shell_off(cref);
        let prev: Option<Value> = if matches!(val, Value::Empty) {
            self.cells.remove(&offset)
        } else {
            self.cells.insert(offset, val)
        };
        match prev {
            Some(v) => v,
            None => Value::Empty,
        }
    }

    /// Returns the raw, uncalculated value at the given address, with its
    /// provenance: the native cell value if present, else the column
    /// default, else the row default, else `Empty`.
    pub fn get_formula(&self, cref: CellIdx) -> (r: ValueResult)
        ensures
            ({
                let off = spec_shell_off(cref.row as int, cref.col as int) as u128;
                if self.spec_cells().contains_key(off) {
                    r.source == ValueSource::Native && value_like(r.value, self.spec_cells()[off])
                } else if self.spec_col_defaults().contains_key(cref.col) {
                    r.source == ValueSource::ColDefault && value_like(
                        r.value,
                        self.spec_col_defaults()[cref.col],
                    )
                } else if self.spec_row_defaults().contains_key(cref.row) {
                    r.source == ValueSource::RowDefault && value_like(
                        r.value,
                        self.spec_row_defaults()[cref.row],
                    )
                } else {
                    r == (ValueResult { value: Value::Empty, source: ValueSource::Native })
                }
            }),
    {
        let offset: u128 = cell_ref_to_shell_off(cref);
        match self.cells.get(&offset) {
            Some(v) => ValueResult::native(v.duplicate()),
            None => match self.col_defaults.get(&cref.col) {
                Some(v) => ValueResult::col(v.duplicate()),
                None => match self.row_defaults.get(&cref.row) {
                    Some(v) => ValueResult::row(v.duplicate()),
                    None => ValueResult::native(Value::Empty),
                },
            },
        }
    }

    /// Returns the raw default of a row, `Empty` when there is none.
    pub fn get_row_default(&self, row: u64) -> (r: Value)
        ensures
            if self.spec_row_defaults().contains_key(row) {
                value_like(r, self.spec_row_defaults()[row])
            } else {
                r == Value::Empty
            },
    {
        match self.row_defaults.get(&row) {
            Some(v) => v.duplicate(),
            None => Value::Empty,
        }
    }

    /// Returns the raw default of a column, `Empty` when there is none.
    pub fn get_col_default(&self, col: u64) -> (r: Value)
        ensures
            if self.spec_col_defaults().contains_key(col) {
                value_like(r, self.spec_col_defaults()[col])
            } else {
                r == Value::Empty
            },
    {
        match self.col_defaults.get(&col) {
            Some(v) => v.duplicate(),
            None => Value::Empty,
        }
    }
}

} // verus!

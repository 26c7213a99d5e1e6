//! A spreadsheet computation engine: a sparse multi-sheet cell store with a
//! formula language, a demand-driven evaluator, a memoizing value cache with
//! cycle detection, and a reverse-dependency index that invalidates cached
//! results when inputs change.
pub mod cell;
pub mod formula;
pub mod language;
pub mod numeric;
pub mod parser;
pub mod sheet;

use vstd::prelude::*;

use std::collections::BTreeMap;

use crate::cell::{CellIdx, Value, ValueV, value_view};
use crate::language::{eval, eval_pure};
use crate::sheet::{Sheet, SheetIdx, ValueResult, ValueSource, spec_shell_off};
use vstd::std_specs::iter::IteratorSpec;

verus! {

broadcast use vstd::laws_cmp::group_laws_cmp;

/// The errors surfaced by evaluation and insertion.
#[derive(Debug, Clone, Copy, PartialEq, Eq, Structural)]
pub enum Error {
    MaxRecursionReached,
    CyclicDependencyDetected,
    InconsistentCaching,
    RefMustBeNumber,
    OperationUnavailable,
    FunctionNotAvailable,
    DivideByZero,
    InsufficientArgs,
    TooManyArgs,
    SheetNotFound,
}

/// A memoized entry: the sentinel installed while a formula is being
/// calculated, or the finished value. Reading the sentinel back proves a
/// cyclic dependency.
#[derive(Debug)]
pub enum CacheEntry {
    Calculating,
    Calculated(Value),
}

/// The deepest chain of formula dereferences that `get` follows before it
/// fails with `MaxRecursionReached`. Cycles are caught by the sentinel well
/// before this bound.
pub const MAX_EVAL_DEPTH: u64 = 32;

/// A cache or dependency key: sheet index, row, column.
pub type EngineKey = (u64, u64, u64);

/// The key of a cell within the engine's cache and dependency maps.
pub open spec fn spec_key(sref: SheetIdx, cref: CellIdx) -> EngineKey {
    (sref.0, cref.row, cref.col)
}

/// One edge of the recorded reverse-dependency graph: `b` is listed as a
/// dependent of `a`.
pub open spec fn deps_step(g: Map<EngineKey, Vec<EngineKey>>, a: EngineKey, b: EngineKey) -> bool {
    g.contains_key(a) && g[a]@.contains(b)
}

/// A walk along recorded dependency edges.
pub open spec fn is_deps_path(g: Map<EngineKey, Vec<EngineKey>>, p: Seq<EngineKey>) -> bool {
    &&& p.len() >= 1
    &&& forall|i: int| 0 <= i < p.len() - 1 ==> deps_step(g, #[trigger] p[i], p[i + 1])
}

/// Whether `to` transitively depends on `from` in the recorded graph:
/// some walk leads from one to the other. Every key reaches itself.
pub open spec fn reaches(g: Map<EngineKey, Vec<EngineKey>>, from: EngineKey, to: EngineKey) -> bool {
    exists|p: Seq<EngineKey>| is_deps_path(g, p) && p.first() == from && p.last() == to
}

/// A walk that starts inside a successor-closed set ends inside it.
proof fn lemma_path_stays_in_closed(
    g: Map<EngineKey, Vec<EngineKey>>,
    s: Set<EngineKey>,
    p: Seq<EngineKey>,
)
    requires
        is_deps_path(g, p),
        s.contains(p.first()),
        forall|k: EngineKey, d: EngineKey| s.contains(k) && deps_step(g, k, d) ==> s.contains(d),
    ensures
        s.contains(p.last()),
    decreases p.len(),
{
    if p.len() > 1 {
        assert(deps_step(g, p[0], p[1]));
        assert(s.contains(p[1]));
        let q = p.drop_first();
        assert(q.first() == p[1]);
        assert(q.last() == p.last());
        assert forall|i: int| 0 <= i < q.len() - 1 implies deps_step(g, #[trigger] q[i], q[i + 1]) by {
            assert(q[i] == p[i + 1]);
            assert(q[i + 1] == p[i + 2]);
        }
        lemma_path_stays_in_closed(g, s, q);
    }
}

/// Everything reachable from a member of a successor-closed set is in the
/// set.
proof fn lemma_reach_within_closed(
    g: Map<EngineKey, Vec<EngineKey>>,
    s: Set<EngineKey>,
    from: EngineKey,
)
    requires
        s.contains(from),
        forall|k: EngineKey, d: EngineKey| s.contains(k) && deps_step(g, k, d) ==> s.contains(d),
    ensures
        forall|to: EngineKey| reaches(g, from, to) ==> s.contains(to),
{
    assert forall|to: EngineKey| reaches(g, from, to) implies s.contains(to) by {
        let p = choose|p: Seq<EngineKey>|
            is_deps_path(g, p) && p.first() == from && p.last() == to;
        lemma_path_stays_in_closed(g, s, p);
    }
}

/// The first sheet index at or after `i` but below the bound whose sheet
/// carries the given name.
pub open spec fn spec_first_named_from(
    sheets: Map<u64, Sheet>,
    bound: u64,
    name: Seq<char>,
    i: u64,
) -> Option<u64>
    decreases bound - i,
{
    if i < bound {
        if sheets.contains_key(i) && sheets[i].spec_name() == name {
            Some(i)
        } else {
            spec_first_named_from(sheets, bound, name, (i + 1) as u64)
        }
    } else {
        None
    }
}

/// The first sheet with the given name: name lookup returns the earliest
/// allocated match.
pub open spec fn spec_first_sheet_named(sheets: Map<u64, Sheet>, bound: u64, name: Seq<char>) -> Option<
    u64,
> {
    spec_first_named_from(sheets, bound, name, 0)
}

/// The raw value and provenance a lookup of the cell yields against the
/// given sheet map: the native cell value if present, else the column
/// default, else the row default, else `Empty`; a missing sheet reads as
/// all empty.
pub open spec fn spec_raw_of(sheets: Map<u64, Sheet>, sref: SheetIdx, cref: CellIdx) -> (
    ValueV,
    ValueSource,
) {
    if sheets.contains_key(sref.0) {
        let sh = sheets[sref.0];
        let off = spec_shell_off(cref.row as int, cref.col as int) as u128;
        if sh.spec_cells().contains_key(off) {
            (value_view(sh.spec_cells()[off]), ValueSource::Native)
        } else if sh.spec_col_defaults().contains_key(cref.col) {
            (value_view(sh.spec_col_defaults()[cref.col]), ValueSource::ColDefault)
        } else if sh.spec_row_defaults().contains_key(cref.row) {
            (value_view(sh.spec_row_defaults()[cref.row]), ValueSource::RowDefault)
        } else {
            (ValueV::Empty, ValueSource::Native)
        }
    } else {
        (ValueV::Empty, ValueSource::Native)
    }
}

/// What a reference expression resolves to, when its row, column and sheet
/// subexpressions are all state-independent: the target sheet and cell
/// (coordinates truncated toward zero), or the error the resolution raises.
/// `None` leaves the resolution unsettled.
pub open spec fn resolve_pure_ref(
    sheets: Map<u64, Sheet>,
    bound: u64,
    curr: SheetIdx,
    ev: crate::language::ExprV,
) -> Option<Result<(SheetIdx, CellIdx), Error>> {
    match ev {
        crate::language::ExprV::CellRef(sheet_e, row_e, col_e) => match (
            eval_pure(*row_e),
            eval_pure(*col_e),
        ) {
            (Some(Ok(ValueV::Number(rb))), Some(Ok(ValueV::Number(cb)))) => {
                let cref = CellIdx {
                    row: crate::numeric::trunc_bits(rb),
                    col: crate::numeric::trunc_bits(cb),
                };
                match sheet_e {
                    None => Some(Ok((curr, cref))),
                    Some(se) => match eval_pure(*se) {
                        Some(Ok(ValueV::Text(nm))) => match spec_first_sheet_named(
                            sheets,
                            bound,
                            nm,
                        ) {
                            Some(j) => Some(Ok((SheetIdx(j), cref))),
                            None => Some(Err(Error::SheetNotFound)),
                        },
                        Some(Ok(_)) => Some(Err(Error::RefMustBeNumber)),
                        Some(Err(e)) => Some(Err(e)),
                        None => None,
                    },
                }
            },
            (Some(Ok(ValueV::Number(_))), Some(Ok(_))) => Some(Err(Error::RefMustBeNumber)),
            (Some(Ok(ValueV::Number(_))), Some(Err(e))) => Some(Err(e)),
            (Some(Ok(ValueV::Number(_))), None) => None,
            (Some(Ok(_)), _) => Some(Err(Error::RefMustBeNumber)),
            (Some(Err(e)), _) => Some(Err(e)),
            (None, _) => None,
        },
        _ => None,
    }
}

/// The result of evaluation, for the fragment whose value the sheets alone
/// determine: the state-independent expressions, references whose
/// coordinates settle, and dereferences whose target holds a plain value
/// rather than a formula. Function calls and dereferences of formula cells
/// are left to the stateful contracts (`None`).
pub open spec fn eval_read(
    sheets: Map<u64, Sheet>,
    bound: u64,
    curr: SheetIdx,
    ev: crate::language::ExprV,
) -> Option<Result<ValueV, Error>>
    decreases ev,
{
    match ev {
        crate::language::ExprV::Number(b) => Some(Ok(ValueV::Number(b))),
        crate::language::ExprV::Text(t) => Some(Ok(ValueV::Text(t))),
        crate::language::ExprV::Bool(b) => Some(Ok(ValueV::Bool(b))),
        crate::language::ExprV::Sheet(nm) => Some(Ok(ValueV::Text(nm))),
        crate::language::ExprV::CellRef(sheet_e, row_e, col_e) => match eval_read(
            sheets,
            bound,
            curr,
            *row_e,
        ) {
            Some(Ok(ValueV::Number(rb))) => match eval_read(sheets, bound, curr, *col_e) {
                Some(Ok(ValueV::Number(cb))) => {
                    let cref = CellIdx {
                        row: crate::numeric::trunc_bits(rb),
                        col: crate::numeric::trunc_bits(cb),
                    };
                    match sheet_e {
                        None => Some(Ok(ValueV::Ref { sref: curr, cref })),
                        Some(se) => match eval_read(sheets, bound, curr, *se) {
                            Some(Ok(ValueV::Text(nm))) => match spec_first_sheet_named(
                                sheets,
                                bound,
                                nm,
                            ) {
                                Some(j) => Some(Ok(ValueV::Ref { sref: SheetIdx(j), cref })),
                                None => Some(Err(Error::SheetNotFound)),
                            },
                            Some(Ok(_)) => Some(Err(Error::RefMustBeNumber)),
                            Some(Err(e)) => Some(Err(e)),
                            None => None,
                        },
                    }
                },
                Some(Ok(_)) => Some(Err(Error::RefMustBeNumber)),
                Some(Err(e)) => Some(Err(e)),
                None => None,
            },
            Some(Ok(_)) => Some(Err(Error::RefMustBeNumber)),
            Some(Err(e)) => Some(Err(e)),
            None => None,
        },
        crate::language::ExprV::CellDeref(inner) => match eval_read(sheets, bound, curr, *inner) {
            Some(Ok(v)) => match v {
                ValueV::Ref { sref, cref } => {
                    let raw = spec_raw_of(sheets, sref, cref);
                    if raw.0 is Formula {
                        None
                    } else {
                        Some(Ok(raw.0))
                    }
                },
                _ => Some(Err(Error::RefMustBeNumber)),
            },
            Some(Err(e)) => Some(Err(e)),
            None => None,
        },
        crate::language::ExprV::Neg(b) => match eval_read(sheets, bound, curr, *b) {
            Some(Ok(v)) => Some(crate::cell::neg_v(v)),
            Some(Err(e)) => Some(Err(e)),
            None => None,
        },
        crate::language::ExprV::Add(a, b) => match eval_read(sheets, bound, curr, *a) {
            Some(Ok(va)) => match eval_read(sheets, bound, curr, *b) {
                Some(Ok(vb)) => Some(crate::cell::add_v(va, vb)),
                Some(Err(e)) => Some(Err(e)),
                None => None,
            },
            Some(Err(e)) => Some(Err(e)),
            None => None,
        },
        crate::language::ExprV::Sub(a, b) => match eval_read(sheets, bound, curr, *a) {
            Some(Ok(va)) => match eval_read(sheets, bound, curr, *b) {
                Some(Ok(vb)) => Some(crate::cell::sub_v(va, vb)),
                Some(Err(e)) => Some(Err(e)),
                None => None,
            },
            Some(Err(e)) => Some(Err(e)),
            None => None,
        },
        crate::language::ExprV::Mul(a, b) => match eval_read(sheets, bound, curr, *a) {
            Some(Ok(va)) => match eval_read(sheets, bound, curr, *b) {
                Some(Ok(vb)) => Some(crate::cell::mul_v(va, vb)),
                Some(Err(e)) => Some(Err(e)),
                None => None,
            },
            Some(Err(e)) => Some(Err(e)),
            None => None,
        },
        crate::language::ExprV::Div(a, b) => match eval_read(sheets, bound, curr, *a) {
            Some(Ok(va)) => match eval_read(sheets, bound, curr, *b) {
                Some(Ok(vb)) => Some(crate::cell::div_v(va, vb)),
                Some(Err(e)) => Some(Err(e)),
                None => None,
            },
            Some(Err(e)) => Some(Err(e)),
            None => None,
        },
        crate::language::ExprV::Call(_, _) => None,
    }
}

/// The result of a demand-driven read, as far as it is settled by the
/// engine state at the start of the call: a non-formula cell yields its raw
/// value; a cached formula yields the cached value; the sentinel yields the
/// cycle error; a fresh formula at exhausted depth yields the recursion
/// error; and a fresh formula is evaluated — pinned when its tree is
/// state-independent, and followed one dereference at a time, under the
/// sentinel just installed, when it is a dereference of a resolvable
/// reference.
pub open spec fn get_cases(
    sheets: Map<u64, Sheet>,
    bound: u64,
    cache: Map<EngineKey, CacheEntry>,
    sref: SheetIdx,
    cref: CellIdx,
    depth: u64,
    r: Result<Value, Error>,
) -> bool
    decreases depth,
{
    let raw = spec_raw_of(sheets, sref, cref);
    let key = spec_key(sref, cref);
    &&& (!(raw.0 is Formula) ==> (match r {
        Ok(v) => value_view(v) == raw.0,
        Err(_) => false,
    }))
    &&& ((raw.0 is Formula && cache.contains_key(key) && cache[key] is Calculated) ==> (match r {
        Ok(v) => value_view(v) == value_view(cache[key]->Calculated_0),
        Err(_) => false,
    }))
    &&& ((raw.0 is Formula && cache.contains_key(key) && cache[key] is Calculating) ==> r == Err::<
        Value,
        Error,
    >(Error::CyclicDependencyDetected))
    &&& ((raw.0 is Formula && !cache.contains_key(key) && depth == 0) ==> r == Err::<
        Value,
        Error,
    >(Error::MaxRecursionReached))
    &&& ((raw.0 is Formula && !cache.contains_key(key) && depth > 0) ==> (match raw.0 {
        ValueV::Formula(_, ev) => {
            &&& (match eval_read(sheets, bound, sref, ev) {
                Some(res) => (match (r, res) {
                    (Ok(v), Ok(w)) => value_view(v) == w,
                    (Err(e1), Err(e2)) => e1 == e2,
                    _ => false,
                }),
                None => true,
            })
            &&& (match ev {
                crate::language::ExprV::CellDeref(inner) => match resolve_pure_ref(
                    sheets,
                    bound,
                    sref,
                    *inner,
                ) {
                    Some(Ok(sc)) => get_cases(
                        sheets,
                        bound,
                        cache.insert(key, CacheEntry::Calculating),
                        sc.0,
                        sc.1,
                        (depth - 1) as u64,
                        r,
                    ),
                    Some(Err(e)) => r == Err::<Value, Error>(e),
                    None => true,
                },
                _ => true,
            })
        },
        _ => true,
    }))
}

/// Every listed cell records the given dependent: reading it later will
/// invalidate the dependent.
pub open spec fn records_dependents(post: Spanleaf, ds: Seq<EngineKey>, dependent: EngineKey) -> bool {
    forall|j: int|
        0 <= j < ds.len() ==> post.spec_deps().contains_key(#[trigger] ds[j])
            && post.spec_deps()[ds[j]]@.contains(dependent)
}

/// The value half of a read result: the provenance dropped, the error kept.
pub open spec fn res_value_of(r: Result<ValueResult, Error>) -> Result<Value, Error> {
    match r {
        Ok(vr) => Ok(vr.value),
        Err(e) => Err(e),
    }
}

/// A key with no recorded dependents reaches only itself.
proof fn lemma_reaches_no_entry(g: Map<EngineKey, Vec<EngineKey>>, a: EngineKey, to: EngineKey)
    requires
        !g.contains_key(a),
        reaches(g, a, to),
    ensures
        to == a,
{
    let p = choose|p: Seq<EngineKey>| is_deps_path(g, p) && p.first() == a && p.last() == to;
    if p.len() > 1 {
        assert(deps_step(g, p[0], p[1]));
    }
}

/// Walking the original graph from a key whose entry is gone ends on a
/// cleared key: either the key was removed before this step, and the old
/// closure fact applies, or the step removed it, and the step's own closure
/// carries the walk as far as entries survived into the step.
proof fn lemma_g0_path_cleared(
    g0: Map<EngineKey, Vec<EngineKey>>,
    cache1: Map<EngineKey, CacheEntry>,
    deps1: Map<EngineKey, Vec<EngineKey>>,
    cache2: Map<EngineKey, CacheEntry>,
    deps2: Map<EngineKey, Vec<EngineKey>>,
    p: Seq<EngineKey>,
)
    requires
        forall|k: EngineKey| #[trigger]
            deps1.contains_key(k) ==> g0.contains_key(k) && deps1[k] == g0[k],
        forall|n: EngineKey, to: EngineKey|
            g0.contains_key(n) && !deps1.contains_key(n) && #[trigger] reaches(g0, n, to)
                ==> !cache1.contains_key(to) && !deps1.contains_key(to),
        forall|k: EngineKey| #[trigger]
            deps2.contains_key(k) ==> deps1.contains_key(k) && deps2[k] == deps1[k],
        forall|k: EngineKey| #[trigger] cache2.contains_key(k) ==> cache1.contains_key(k),
        forall|n: EngineKey, to: EngineKey|
            deps1.contains_key(n) && !deps2.contains_key(n) && #[trigger] reaches(deps1, n, to)
                ==> !cache2.contains_key(to) && !deps2.contains_key(to),
        is_deps_path(g0, p),
        g0.contains_key(p.first()),
        !deps2.contains_key(p.first()),
    ensures
        !cache2.contains_key(p.last()) && !deps2.contains_key(p.last()),
    decreases p.len(),
{
    let n = p.first();
    if !deps1.contains_key(n) {
        assert(reaches(g0, n, p.last()));
        assert(!cache1.contains_key(p.last()) && !deps1.contains_key(p.last()));
    } else {
        if p.len() == 1 {
            assert(is_deps_path(deps1, seq![n]));
            assert(seq![n].first() == n && seq![n].last() == n);
            assert(reaches(deps1, n, n));
        } else {
            assert(deps_step(g0, p[0], p[1]));
            assert(deps1[n]@ == g0[n]@);
            assert(deps_step(deps1, n, p[1]));
            assert(is_deps_path(deps1, seq![n, p[1]])) by {
                assert(seq![n, p[1]][0] == n);
                assert(seq![n, p[1]][1] == p[1]);
            }
            assert(seq![n, p[1]].first() == n && seq![n, p[1]].last() == p[1]);
            assert(reaches(deps1, n, p[1]));
            assert(!cache2.contains_key(p[1]) && !deps2.contains_key(p[1]));
            if p.len() == 2 {
                assert(p.last() == p[1]);
            } else {
                let q = p.drop_first();
                assert(q.first() == p[1]);
                assert(q.last() == p.last());
                assert forall|i: int|
                    0 <= i < q.len() - 1 implies deps_step(g0, #[trigger] q[i], q[i + 1]) by {
                    assert(q[i] == p[i + 1]);
                    assert(q[i + 1] == p[i + 2]);
                }
                assert(deps_step(g0, q[0], q[1]));
                assert(g0.contains_key(p[1]));
                lemma_g0_path_cleared(g0, cache1, deps1, cache2, deps2, q);
            }
        }
    }
}

/// The removed-closure property survives one more invalidation step.
proof fn lemma_removed_closure_compose(
    g0: Map<EngineKey, Vec<EngineKey>>,
    cache1: Map<EngineKey, CacheEntry>,
    deps1: Map<EngineKey, Vec<EngineKey>>,
    cache2: Map<EngineKey, CacheEntry>,
    deps2: Map<EngineKey, Vec<EngineKey>>,
)
    requires
        forall|k: EngineKey| #[trigger]
            deps1.contains_key(k) ==> g0.contains_key(k) && deps1[k] == g0[k],
        forall|n: EngineKey, to: EngineKey|
            g0.contains_key(n) && !deps1.contains_key(n) && #[trigger] reaches(g0, n, to)
                ==> !cache1.contains_key(to) && !deps1.contains_key(to),
        forall|k: EngineKey| #[trigger]
            deps2.contains_key(k) ==> deps1.contains_key(k) && deps2[k] == deps1[k],
        forall|k: EngineKey| #[trigger] cache2.contains_key(k) ==> cache1.contains_key(k),
        forall|n: EngineKey, to: EngineKey|
            deps1.contains_key(n) && !deps2.contains_key(n) && #[trigger] reaches(deps1, n, to)
                ==> !cache2.contains_key(to) && !deps2.contains_key(to),
    ensures
        forall|n: EngineKey, to: EngineKey|
            g0.contains_key(n) && !deps2.contains_key(n) && #[trigger] reaches(g0, n, to)
                ==> !cache2.contains_key(to) && !deps2.contains_key(to),
{
    assert forall|n: EngineKey, to: EngineKey|
        g0.contains_key(n) && !deps2.contains_key(n) && #[trigger] reaches(g0, n, to)
            implies !cache2.contains_key(to) && !deps2.contains_key(to) by {
        let p = choose|p: Seq<EngineKey>| is_deps_path(g0, p) && p.first() == n && p.last() == to;
        lemma_g0_path_cleared(g0, cache1, deps1, cache2, deps2, p);
    }
}

/// The engine: the sheets, the value cache and the reverse-dependency
/// index. `dependencies[k]` lists the cells whose cached values must be
/// invalidated when the cell at `k` changes.
#[derive(Debug)]
pub struct Spanleaf {
    sheets: BTreeMap<u64, Sheet>,
    next_sheet: SheetIdx,
    cache: BTreeMap<EngineKey, CacheEntry>,
    dependencies: BTreeMap<EngineKey, Vec<EngineKey>>,
}

impl Spanleaf {
    /// The sheet map, keyed by sheet index.
    pub closed spec fn spec_sheets(self) -> Map<u64, Sheet> {
        self.sheets@
    }

    /// The next sheet index to be allocated.
    pub closed spec fn spec_next_sheet(self) -> SheetIdx {
        self.next_sheet
    }

    /// The value cache.
    pub closed spec fn spec_cache(self) -> Map<EngineKey, CacheEntry> {
        self.cache@
    }

    /// The reverse-dependency index.
    pub closed spec fn spec_deps(self) -> Map<EngineKey, Vec<EngineKey>> {
        self.dependencies@
    }

    /// Sheet indices are exactly those below the allocation counter, and
    /// every sheet is well formed.
    pub open spec fn sheets_wf(self) -> bool {
        &&& forall|i: u64| #[trigger]
            self.spec_sheets().contains_key(i) <==> i < self.spec_next_sheet().0
        &&& forall|i: u64|
            self.spec_sheets().contains_key(i) ==> (#[trigger] self.spec_sheets()[i]).wf()
    }

    /// The cache holds no `Calculating` sentinel: none survives any public
    /// call.
    pub open spec fn calc_free(self) -> bool {
        forall|k: EngineKey|
            self.spec_cache().contains_key(k) ==> !(#[trigger] self.spec_cache()[k]
                is Calculating)
    }

    /// The engine invariant between public calls.
    pub open spec fn wf(self) -> bool {
        &&& self.sheets_wf()
        &&& self.calc_free()
    }

    /// Whether the cache holds the sentinel at a key.
    pub open spec fn is_calculating(self, k: EngineKey) -> bool {
        self.spec_cache().contains_key(k) && self.spec_cache()[k] is Calculating
    }

    /// How evaluation may change the cache: every entry present before is
    /// untouched, and every new entry is a finished value, never a
    /// sentinel. In particular the set of sentinels is exactly preserved.
    pub open spec fn cache_preserved(pre: Spanleaf, post: Spanleaf) -> bool {
        &&& forall|k: EngineKey| #[trigger]
            pre.spec_cache().contains_key(k) ==> post.spec_cache().contains_key(k)
                && post.spec_cache()[k] == pre.spec_cache()[k]
        &&& forall|k: EngineKey| #[trigger]
            post.spec_cache().contains_key(k) ==> pre.spec_cache().contains_key(k) || !(
            post.spec_cache()[k] is Calculating)
    }

    /// The dependency index only grows: every entry present before is still
    /// there, its list extended at most at the end.
    pub open spec fn deps_extended(pre: Spanleaf, post: Spanleaf) -> bool {
        forall|k: EngineKey| #[trigger]
            pre.spec_deps().contains_key(k) ==> post.spec_deps().contains_key(k)
                && post.spec_deps()[k]@.len() >= pre.spec_deps()[k]@.len() && (forall|i: int|
                0 <= i < pre.spec_deps()[k]@.len() ==> post.spec_deps()[k]@[i] == #[trigger] pre.spec_deps()[k]@[i])
    }

    /// What evaluation never touches: the sheets, the sheet counter, the
    /// cache discipline of [`Spanleaf::cache_preserved`], and the recorded
    /// dependencies, which only grow.
    pub open spec fn eval_frame(pre: Spanleaf, post: Spanleaf) -> bool {
        &&& post.spec_sheets() == pre.spec_sheets()
        &&& post.spec_next_sheet() == pre.spec_next_sheet()
        &&& Spanleaf::cache_preserved(pre, post)
        &&& Spanleaf::deps_extended(pre, post)
    }

    /// The evaluation frame composes.
    pub proof fn lemma_eval_frame_trans(a: Spanleaf, b: Spanleaf, c: Spanleaf)
        requires
            Spanleaf::eval_frame(a, b),
            Spanleaf::eval_frame(b, c),
        ensures
            Spanleaf::eval_frame(a, c),
    {
        assert forall|k: EngineKey| #[trigger]
            c.spec_cache().contains_key(k) implies a.spec_cache().contains_key(k) || !(
        c.spec_cache()[k] is Calculating) by {
            if !a.spec_cache().contains_key(k) {
                if b.spec_cache().contains_key(k) {
                    assert(!(b.spec_cache()[k] is Calculating));
                    assert(c.spec_cache()[k] == b.spec_cache()[k]);
                }
            }
        }
        assert forall|k: EngineKey| #[trigger]
            a.spec_deps().contains_key(k) implies c.spec_deps().contains_key(k)
                && c.spec_deps()[k]@.len() >= a.spec_deps()[k]@.len() && (forall|i: int|
            0 <= i < a.spec_deps()[k]@.len() ==> c.spec_deps()[k]@[i] == #[trigger] a.spec_deps()[k]@[i]) by {
            assert(b.spec_deps().contains_key(k));
            assert forall|i: int|
                0 <= i < a.spec_deps()[k]@.len() implies c.spec_deps()[k]@[i]
                    == #[trigger] a.spec_deps()[k]@[i] by {
                assert(b.spec_deps()[k]@[i] == a.spec_deps()[k]@[i]);
                assert(c.spec_deps()[k]@[i] == b.spec_deps()[k]@[i]);
            }
        }
    }

    /// Dependency growth composes.
    pub proof fn lemma_deps_extended_trans(a: Spanleaf, b: Spanleaf, c: Spanleaf)
        requires
            Spanleaf::deps_extended(a, b),
            Spanleaf::deps_extended(b, c),
        ensures
            Spanleaf::deps_extended(a, c),
    {
        assert forall|k: EngineKey| #[trigger]
            a.spec_deps().contains_key(k) implies c.spec_deps().contains_key(k)
                && c.spec_deps()[k]@.len() >= a.spec_deps()[k]@.len() && (forall|i: int|
            0 <= i < a.spec_deps()[k]@.len() ==> c.spec_deps()[k]@[i] == #[trigger] a.spec_deps()[k]@[i]) by {
            assert(b.spec_deps().contains_key(k));
            assert forall|i: int|
                0 <= i < a.spec_deps()[k]@.len() implies c.spec_deps()[k]@[i]
                    == #[trigger] a.spec_deps()[k]@[i] by {
                assert(b.spec_deps()[k]@[i] == a.spec_deps()[k]@[i]);
                assert(c.spec_deps()[k]@[i] == b.spec_deps()[k]@[i]);
            }
        }
    }

    /// The raw value and provenance that a lookup of the cell yields: the
    /// native cell value if present, else the column default, else the row
    /// default, else `Empty`; a missing sheet reads as all empty.
    pub open spec fn spec_raw(self, sref: SheetIdx, cref: CellIdx) -> (ValueV, ValueSource) {
        spec_raw_of(self.spec_sheets(), sref, cref)
    }

    pub fn new() -> (r: Self)
        ensures
            r.spec_sheets() == Map::<u64, Sheet>::empty(),
            r.spec_next_sheet() == SheetIdx(0),
            r.spec_cache() == Map::<EngineKey, CacheEntry>::empty(),
            r.spec_deps() == Map::<EngineKey, Vec<EngineKey>>::empty(),
            r.wf(),
    {
        Spanleaf {
            sheets: BTreeMap::new(),
            next_sheet: SheetIdx(0),
            cache: BTreeMap::new(),
            dependencies: BTreeMap::new(),
        }
    }

    /// Adds a new sheet under the next free index. Names need not be
    /// unique: lookup by name returns the first match.
    pub fn insert_sheet(&mut self, name: &str) -> (r: SheetIdx)
        requires
            old(self).spec_next_sheet().0 < u64::MAX,
        ensures
            r == old(self).spec_next_sheet(),
            final(self).spec_next_sheet().0 == old(self).spec_next_sheet().0 + 1,
            final(self).spec_cache() == old(self).spec_cache(),
            final(self).spec_deps() == old(self).spec_deps(),
            ({
                let sh = final(self).spec_sheets()[r.0];
                &&& final(self).spec_sheets() == old(self).spec_sheets().insert(r.0, sh)
                &&& sh.spec_name() == name@
                &&& sh.spec_cells() == Map::<u128, Value>::empty()
                &&& sh.spec_row_defaults() == Map::<u64, Value>::empty()
                &&& sh.spec_col_defaults() == Map::<u64, Value>::empty()
            }),
            old(self).sheets_wf() ==> final(self).sheets_wf(),
            old(self).calc_free() ==> final(self).calc_free(),
    {
        let sref = self.next_sheet;
        let sheet = Sheet::new(name);
        self.sheets.insert(sref.0, sheet);
        self.next_sheet = sref.next();
        proof {
            if old(self).sheets_wf() {
                assert forall|i: u64| #[trigger]
                    self.spec_sheets().contains_key(i) implies i < self.spec_next_sheet().0 by {
                    if i != sref.0 {
                        assert(old(self).spec_sheets().contains_key(i));
                    }
                }
                assert forall|i: u64|
                    i < self.spec_next_sheet().0 implies #[trigger] self.spec_sheets().contains_key(
                    i,
                ) by {
                    if i < sref.0 {
                        assert(old(self).spec_sheets().contains_key(i));
                    }
                }
                assert forall|i: u64|
                    self.spec_sheets().contains_key(i) implies (#[trigger] self.spec_sheets()[i]).wf() by {
                    if i != sref.0 {
                        assert(old(self).spec_sheets().contains_key(i));
                        assert(old(self).spec_sheets()[i].wf());
                    }
                }
            }
        }
        sref
    }

    /// Returns the uncalculated value of the cell, with its provenance.
    /// Useful for displaying the formula itself rather than its result.
    pub fn get_raw_value(&self, sref: SheetIdx, cref: CellIdx) -> (r: ValueResult)
        ensures
            value_view(r.value) == self.spec_raw(sref, cref).0,
            r.source == self.spec_raw(sref, cref).1,
    {
        match self.sheets.get(&sref.0) {
            Some(s) => s.get_formula(cref),
            None => ValueResult { value: Value::Empty, source: ValueSource::Native },
        }
    }

    /// Returns the raw default of a row, `Empty` when there is none.
    pub fn get_row_default(&self, sref: SheetIdx, row: u64) -> (r: ValueResult)
        ensures
            r.source == ValueSource::RowDefault,
            value_view(r.value) == if self.spec_sheets().contains_key(sref.0)
                && self.spec_sheets()[sref.0].spec_row_defaults().contains_key(row) {
                value_view(self.spec_sheets()[sref.0].spec_row_defaults()[row])
            } else {
                ValueV::Empty
            },
    {
        ValueResult {
            value: match self.sheets.get(&sref.0) {
                Some(s) => s.get_row_default(row),
                None => Value::Empty,
            },
            source: ValueSource::RowDefault,
        }
    }

    /// Returns the raw default of a column, `Empty` when there is none.
    pub fn get_col_default(&self, sref: SheetIdx, col: u64) -> (r: ValueResult)
        ensures
            r.source == ValueSource::ColDefault,
            value_view(r.value) == if self.spec_sheets().contains_key(sref.0)
                && self.spec_sheets()[sref.0].spec_col_defaults().contains_key(col) {
                value_view(self.spec_sheets()[sref.0].spec_col_defaults()[col])
            } else {
                ValueV::Empty
            },
    {
        ValueResult {
            value: match self.sheets.get(&sref.0) {
                Some(s) => s.get_col_default(col),
                None => Value::Empty,
            },
            source: ValueSource::ColDefault,
        }
    }

    /// Finds the sheet with the given name that has the smallest index.
    pub fn find_sheet(&self, name: &String) -> (r: Option<SheetIdx>)
        requires
            self.sheets_wf(),
        ensures
            match r {
                Some(idx) => idx.0 < self.spec_next_sheet().0 && self.spec_sheets()[idx.0].spec_name()
                    == name@ && forall|j: u64|
                    j < idx.0 ==> (#[trigger] self.spec_sheets()[j]).spec_name() != name@,
                None => forall|j: u64|
                    j < self.spec_next_sheet().0 ==> (#[trigger] self.spec_sheets()[j]).spec_name()
                        != name@,
            },
            match r {
                Some(idx) => spec_first_sheet_named(
                    self.spec_sheets(),
                    self.spec_next_sheet().0,
                    name@,
                ) == Some(idx.0),
                None => spec_first_sheet_named(
                    self.spec_sheets(),
                    self.spec_next_sheet().0,
                    name@,
                ) is None,
            },
    {
        let bound = self.next_sheet.0;
        let mut i: u64 = 0;
        while i < bound
            invariant
                self.sheets_wf(),
                bound == self.spec_next_sheet().0,
                i <= bound,
                forall|j: u64| j < i ==> (#[trigger] self.spec_sheets()[j]).spec_name() != name@,
                spec_first_named_from(self.spec_sheets(), bound, name@, 0)
                    == spec_first_named_from(self.spec_sheets(), bound, name@, i),
            decreases bound - i,
        {
            match self.sheets.get(&i) {
                Some(s) => {
                    if s.name_eq(name) {
                        return Some(SheetIdx(i));
                    }
                },
                None => {},
            }
            i = i + 1;
        }
        None
    }

    /// Removes the cached value of the cell, and, transitively, of every
    /// cell recorded as depending on it. Entries are only ever removed,
    /// never altered; the cell itself and all its recorded dependents are
    /// gone afterwards.
    pub fn clear_from_cache(&mut self, sref: SheetIdx, cref: CellIdx)
        ensures
            final(self).spec_sheets() == old(self).spec_sheets(),
            final(self).spec_next_sheet() == old(self).spec_next_sheet(),
            forall|k: EngineKey| #[trigger]
                final(self).spec_cache().contains_key(k) ==> old(self).spec_cache().contains_key(k)
                    && final(self).spec_cache()[k] == old(self).spec_cache()[k],
            forall|k: EngineKey| #[trigger]
                final(self).spec_deps().contains_key(k) ==> old(self).spec_deps().contains_key(k)
                    && final(self).spec_deps()[k] == old(self).spec_deps()[k],
            !final(self).spec_cache().contains_key(spec_key(sref, cref)),
            !final(self).spec_deps().contains_key(spec_key(sref, cref)),
            old(self).spec_deps().contains_key(spec_key(sref, cref)) ==> forall|i: int|
                0 <= i < old(self).spec_deps()[spec_key(sref, cref)]@.len()
                    ==> !final(self).spec_cache().contains_key(
                    #[trigger] old(self).spec_deps()[spec_key(sref, cref)]@[i],
                ) && !final(self).spec_deps().contains_key(
                    old(self).spec_deps()[spec_key(sref, cref)]@[i],
                ),
            forall|to: EngineKey| #[trigger]
                reaches(old(self).spec_deps(), spec_key(sref, cref), to)
                    ==> !final(self).spec_cache().contains_key(to) && !final(self).spec_deps().contains_key(to),
            forall|n: EngineKey, to: EngineKey|
                old(self).spec_deps().contains_key(n) && !final(self).spec_deps().contains_key(n)
                    && #[trigger] reaches(old(self).spec_deps(), n, to) ==> !final(self).spec_cache().contains_key(to)
                    && !final(self).spec_deps().contains_key(to),
    {
        let key: EngineKey = (sref.0, cref.row, cref.col);
        let ghost self0 = *self;
        let mut work: Vec<EngineKey> = Vec::new();
        work.push(key);
        proof {
            assert(work@[0] == key);
            assert(work@.contains(key));
        }
        let ghost mut done: Set<EngineKey> = Set::empty();
        loop
            invariant
                key == (sref.0, cref.row, cref.col),
                self.spec_sheets() == self0.spec_sheets(),
                self.spec_next_sheet() == self0.spec_next_sheet(),
                forall|k: EngineKey| #[trigger]
                    done.contains(k) ==> !self.spec_cache().contains_key(k)
                        && !self.spec_deps().contains_key(k),
                forall|k: EngineKey| #[trigger]
                    self.spec_cache().contains_key(k) ==> self0.spec_cache().contains_key(k)
                        && self.spec_cache()[k] == self0.spec_cache()[k],
                forall|k: EngineKey| #[trigger]
                    self.spec_deps().contains_key(k) ==> self0.spec_deps().contains_key(k)
                        && self.spec_deps()[k] == self0.spec_deps()[k],
                forall|k: EngineKey|
                    !done.contains(k) && self0.spec_cache().contains_key(k) ==> #[trigger]
                    self.spec_cache().contains_key(k),
                forall|k: EngineKey|
                    !done.contains(k) && self0.spec_deps().contains_key(k) ==> #[trigger]
                    self.spec_deps().contains_key(k),
                done.contains(key) || work@.contains(key),
                forall|k: EngineKey, i: int|
                    #![trigger done.contains(k), self0.spec_deps()[k]@[i]]
                    done.contains(k) && self0.spec_deps().contains_key(k) && 0 <= i
                        < self0.spec_deps()[k]@.len() ==> done.contains(self0.spec_deps()[k]@[i])
                        || work@.contains(self0.spec_deps()[k]@[i]),
            ensures
                done.contains(key),
                forall|k: EngineKey, i: int|
                    #![trigger done.contains(k), self0.spec_deps()[k]@[i]]
                    done.contains(k) && self0.spec_deps().contains_key(k) && 0 <= i
                        < self0.spec_deps()[k]@.len() ==> done.contains(self0.spec_deps()[k]@[i]),
                forall|k: EngineKey| #[trigger]
                    done.contains(k) ==> !self.spec_cache().contains_key(k)
                        && !self.spec_deps().contains_key(k),
                forall|k: EngineKey| #[trigger]
                    self.spec_cache().contains_key(k) ==> self0.spec_cache().contains_key(k)
                        && self.spec_cache()[k] == self0.spec_cache()[k],
                forall|k: EngineKey| #[trigger]
                    self.spec_deps().contains_key(k) ==> self0.spec_deps().contains_key(k)
                        && self.spec_deps()[k] == self0.spec_deps()[k],
                self.spec_sheets() == self0.spec_sheets(),
                self.spec_next_sheet() == self0.spec_next_sheet(),
            decreases self.spec_deps().len(), work@.len(),
        {
            let ghost work_pre = work@;
            let ghost deps_pre = self.spec_deps();
            let popped = work.pop();
            match popped {
                None => {
                    break ;
                },
                Some(k) => {
                    let ghost done_pre = done;
                    proof {
                        assert(work_pre.len() > 0);
                        assert(k == work_pre.last());
                        assert(work@ =~= work_pre.drop_last());
                        done = done.insert(k);
                    }
                    let ghost cache_pre = self.spec_cache();
                    self.cache.remove(&k);
                    proof {
                        assert(self.spec_cache() == cache_pre.remove(k));
                    }
                    let removed = self.dependencies.remove(&k);
                    proof {
                        assert(self.spec_deps() == deps_pre.remove(k));
                    }
                    let ghost mut removed_list: Seq<EngineKey> = Seq::empty();
                    match removed {
                        Some(mut ds) => {
                            proof {
                                removed_list = ds@;
                            }
                            work.append(&mut ds);
                        },
                        None => {},
                    }
                    proof {
                        if deps_pre.contains_key(k) {
                            deps_pre.lemma_remove_key_len(k);
                        }
                        // a key surviving the pop is still reachable
                        assert forall|x: EngineKey|
                            work_pre.contains(x) implies done.contains(x) || work@.contains(
                            x,
                        ) by {
                            if x == k {
                            } else {
                                lemma_contains_after_pop(work_pre, x);
                                assert(work_pre.drop_last().contains(x));
                                lemma_concat_contains_left(
                                    work_pre.drop_last(),
                                    removed_list,
                                    x,
                                );
                            }
                        }
                        // the removed entry's dependents are now on the worklist
                        assert forall|i: int|
                            0 <= i < removed_list.len() implies work@.contains(
                            #[trigger] removed_list[i],
                        ) by {
                            lemma_concat_contains_right(
                                work_pre.drop_last(),
                                removed_list,
                                i,
                            );
                        }
                        // a key first processed now still carries its
                        // original dependency list
                        if !done_pre.contains(k) && self0.spec_deps().contains_key(k) {
                            assert(deps_pre.contains_key(k));
                            assert(deps_pre[k] == self0.spec_deps()[k]);
                            assert(removed matches Some(ds) && ds == deps_pre[k]);
                            assert(removed_list == self0.spec_deps()[k]@);
                        }
                        assert forall|x: EngineKey| done.contains(x) implies !(
                        #[trigger] self.spec_cache().contains_key(x)) && !(
                        #[trigger] self.spec_deps().contains_key(x)) by {
                            assert(self.spec_cache() == cache_pre.remove(k));
                            if x != k {
                                assert(done_pre.contains(x));
                                assert(!cache_pre.contains_key(x));
                            }
                        }
                        assert forall|k2: EngineKey, i: int|
                            done.contains(k2) && self0.spec_deps().contains_key(k2) && 0 <= i
                                < self0.spec_deps()[k2]@.len() implies done.contains(
                            #[trigger] self0.spec_deps()[k2]@[i],
                        ) || work@.contains(self0.spec_deps()[k2]@[i]) by {
                            let d = self0.spec_deps()[k2]@[i];
                            if k2 == k && !done_pre.contains(k) {
                                assert(removed_list == self0.spec_deps()[k]@);
                                assert(work@.contains(d));
                            } else {
                                assert(done_pre.contains(k2));
                                if !done_pre.contains(d) && work_pre.contains(d) {
                                    assert(done.contains(d) || work@.contains(d));
                                }
                            }
                        }
                    }
                },
            }
        }
        proof {
            assert forall|k2: EngineKey, d: EngineKey|
                done.contains(k2) && deps_step(self0.spec_deps(), k2, d) implies done.contains(
                d,
            ) by {
                let i = choose|i: int|
                    0 <= i < self0.spec_deps()[k2]@.len() && self0.spec_deps()[k2]@[i] == d;
                assert(self0.spec_deps()[k2]@[i] == d);
            }
            lemma_reach_within_closed(self0.spec_deps(), done, key);
            assert forall|to: EngineKey| #[trigger]
                reaches(old(self).spec_deps(), spec_key(sref, cref), to)
                    implies !self.spec_cache().contains_key(to)
                    && !self.spec_deps().contains_key(to) by {
                assert(reaches(self0.spec_deps(), key, to));
                assert(done.contains(to));
                assert(!self.spec_cache().contains_key(to));
                assert(!self.spec_deps().contains_key(to));
            }
            assert forall|n: EngineKey, to: EngineKey|
                old(self).spec_deps().contains_key(n) && !self.spec_deps().contains_key(n)
                    && #[trigger] reaches(old(self).spec_deps(), n, to)
                    implies !self.spec_cache().contains_key(to)
                    && !self.spec_deps().contains_key(to) by {
                assert(done.contains(n));
                lemma_reach_within_closed(self0.spec_deps(), done, n);
                assert(done.contains(to));
            }
        }
    }
}

impl Spanleaf {
    /// Writes a value to a cell of the given sheet, returning the previous
    /// value (`Empty` when there was none, or when the sheet does not
    /// exist). Before the write, the cached value of the cell and of every
    /// cell recorded as transitively depending on it are invalidated.
    pub fn insert(&mut self, sheet: SheetIdx, cref: CellIdx, val: Value) -> (r: Value)
        ensures
            final(self).spec_next_sheet() == old(self).spec_next_sheet(),
            forall|k: EngineKey| #[trigger]
                final(self).spec_cache().contains_key(k) ==> old(self).spec_cache().contains_key(k)
                    && final(self).spec_cache()[k] == old(self).spec_cache()[k],
            forall|k: EngineKey| #[trigger]
                final(self).spec_deps().contains_key(k) ==> old(self).spec_deps().contains_key(k)
                    && final(self).spec_deps()[k] == old(self).spec_deps()[k],
            !final(self).spec_cache().contains_key(spec_key(sheet, cref)),
            !final(self).spec_deps().contains_key(spec_key(sheet, cref)),
            old(self).spec_deps().contains_key(spec_key(sheet, cref)) ==> forall|i: int|
                0 <= i < old(self).spec_deps()[spec_key(sheet, cref)]@.len()
                    ==> !final(self).spec_cache().contains_key(
                    #[trigger] old(self).spec_deps()[spec_key(sheet, cref)]@[i],
                ) && !final(self).spec_deps().contains_key(
                    old(self).spec_deps()[spec_key(sheet, cref)]@[i],
                ),
            forall|to: EngineKey| #[trigger]
                reaches(old(self).spec_deps(), spec_key(sheet, cref), to)
                    ==> !final(self).spec_cache().contains_key(to)
                    && !final(self).spec_deps().contains_key(to),
            old(self).spec_sheets().contains_key(sheet.0) ==> ({
                let off = spec_shell_off(cref.row as int, cref.col as int) as u128;
                let sh_old = old(self).spec_sheets()[sheet.0];
                let sh_new = final(self).spec_sheets()[sheet.0];
                &&& final(self).spec_sheets() == old(self).spec_sheets().insert(sheet.0, sh_new)
                &&& sh_new.spec_name() == sh_old.spec_name()
                &&& sh_new.spec_row_defaults() == sh_old.spec_row_defaults()
                &&& sh_new.spec_col_defaults() == sh_old.spec_col_defaults()
                &&& sh_new.spec_cells() == if val is Empty {
                    sh_old.spec_cells().remove(off)
                } else {
                    sh_old.spec_cells().insert(off, val)
                }
                &&& r == if sh_old.spec_cells().contains_key(off) {
                    sh_old.spec_cells()[off]
                } else {
                    Value::Empty
                }
            }),
            !old(self).spec_sheets().contains_key(sheet.0) ==> final(self).spec_sheets() == old(self).spec_sheets() && r == Value::Empty,
            old(self).wf() ==> final(self).wf(),
    {
        self.clear_from_cache(sheet, cref);
        let ghost mid = *self;
        proof {
            assert forall|to: EngineKey| #[trigger]
                reaches(old(self).spec_deps(), spec_key(sheet, cref), to)
                    implies !mid.spec_cache().contains_key(to) && !mid.spec_deps().contains_key(
                to,
            ) by {}
        }
        match self.sheets.remove(&sheet.0) {
            Some(mut s) => {
                let prev = s.insert(cref, val);
                self.sheets.insert(sheet.0, s);
                proof {
                    assert(self.spec_sheets() =~= old(self).spec_sheets().insert(
                        sheet.0,
                        self.spec_sheets()[sheet.0],
                    ));
                    assert(self.spec_cache() == mid.spec_cache());
                    assert(self.spec_deps() == mid.spec_deps());
                }
                prev
            },
            None => {
                proof {
                    assert(self.spec_sheets() =~= old(self).spec_sheets());
                    assert(self.spec_cache() == mid.spec_cache());
                    assert(self.spec_deps() == mid.spec_deps());
                }
                Value::Empty
            },
        }
    }

    /// Writes the default value of a row on the given sheet, returning the
    /// previous default (`Empty` when there was none, or when the sheet
    /// does not exist). Every cell recorded as depending on a cell of that
    /// row of that sheet is invalidated first, transitively: a default can
    /// affect any lookup on its row.
    pub fn insert_row_default(&mut self, sheet: SheetIdx, row: u64, val: Value) -> (r: Value)
        ensures
            final(self).spec_next_sheet() == old(self).spec_next_sheet(),
            forall|k: EngineKey| #[trigger]
                final(self).spec_cache().contains_key(k) ==> old(self).spec_cache().contains_key(k)
                    && final(self).spec_cache()[k] == old(self).spec_cache()[k],
            forall|k: EngineKey| #[trigger]
                final(self).spec_deps().contains_key(k) ==> old(self).spec_deps().contains_key(k)
                    && final(self).spec_deps()[k] == old(self).spec_deps()[k],
            forall|k: EngineKey, i: int|
                #![trigger old(self).spec_deps()[k]@[i]]
                old(self).spec_deps().contains_key(k) && k.0 == sheet.0 && k.1 == row && 0 <= i
                    < old(self).spec_deps()[k]@.len() ==> !final(self).spec_cache().contains_key(
                    old(self).spec_deps()[k]@[i],
                ) && !final(self).spec_deps().contains_key(old(self).spec_deps()[k]@[i]),
            forall|k: EngineKey, i: int, to: EngineKey|
                old(self).spec_deps().contains_key(k) && k.0 == sheet.0 && k.1 == row && 0 <= i
                    < old(self).spec_deps()[k]@.len() && #[trigger] reaches(
                    old(self).spec_deps(),
                    old(self).spec_deps()[k]@[i],
                    to,
                ) ==> !final(self).spec_cache().contains_key(to)
                    && !final(self).spec_deps().contains_key(to),
            old(self).spec_sheets().contains_key(sheet.0) ==> ({
                let sh_old = old(self).spec_sheets()[sheet.0];
                let sh_new = final(self).spec_sheets()[sheet.0];
                &&& final(self).spec_sheets() == old(self).spec_sheets().insert(sheet.0, sh_new)
                &&& sh_new.spec_name() == sh_old.spec_name()
                &&& sh_new.spec_cells() == sh_old.spec_cells()
                &&& sh_new.spec_col_defaults() == sh_old.spec_col_defaults()
                &&& sh_new.spec_row_defaults() == if val is Empty {
                    sh_old.spec_row_defaults().remove(row)
                } else {
                    sh_old.spec_row_defaults().insert(row, val)
                }
                &&& r == if sh_old.spec_row_defaults().contains_key(row) {
                    sh_old.spec_row_defaults()[row]
                } else {
                    Value::Empty
                }
            }),
            !old(self).spec_sheets().contains_key(sheet.0) ==> final(self).spec_sheets() == old(self).spec_sheets() && r == Value::Empty,
            old(self).wf() ==> final(self).wf(),
    {
        let mut to_clear: Vec<EngineKey> = Vec::new();
        let ghost self_pre = *self;
        let mut it = vstd::std_specs::iter::VerusForLoopWrapper::new(
            self.dependencies.iter(),
            Ghost(None),
        );
        loop
            invariant
                *self == self_pre,
                it.wf(),
                it.iter.obeys_prophetic_iter_laws(),
                it.snapshot@ == vstd::std_specs::btree::spec_btree_map_iter(&self_pre.dependencies),
                it.iter.decrease() is Some,
                forall|j: int, i: int|
                    #![trigger it.seq()[j].1@[i]]
                    0 <= j < it.index() && it.seq()[j].0.0 == sheet.0 && it.seq()[j].0.1 == row
                        && 0 <= i < it.seq()[j].1@.len() ==> to_clear@.contains(it.seq()[j].1@[i]),
            ensures
                *self == self_pre,
                it.snapshot@ == vstd::std_specs::btree::spec_btree_map_iter(&self_pre.dependencies),
                forall|j: int, i: int|
                    #![trigger it.seq()[j].1@[i]]
                    0 <= j < it.seq().len() && it.seq()[j].0.0 == sheet.0 && it.seq()[j].0.1 == row
                        && 0 <= i < it.seq()[j].1@.len() ==> to_clear@.contains(it.seq()[j].1@[i]),
            decreases it.iter.decrease()->0,
        {
            match it.next() {
                None => {
                    break ;
                },
                Some(kv) => {
                    let k: &EngineKey = kv.0;
                    let lst: &Vec<EngineKey> = kv.1;
                    if k.0 == sheet.0 && k.1 == row {
                        let mut i: usize = 0;
                        while i < lst.len()
                            invariant
                                i <= lst@.len(),
                                lst == it.seq()[it.index() - 1].1,
                                0 < it.index() <= it.seq().len(),
                                forall|i2: int|
                                    0 <= i2 < i ==> to_clear@.contains(#[trigger] lst@[i2]),
                                forall|j: int, i2: int|
                                    #![trigger it.seq()[j].1@[i2]]
                                    0 <= j < it.index() - 1 && it.seq()[j].0.0 == sheet.0
                                        && it.seq()[j].0.1 == row && 0 <= i2
                                        < it.seq()[j].1@.len() ==> to_clear@.contains(
                                        it.seq()[j].1@[i2],
                                    ),
                            decreases lst@.len() - i,
                        {
                            proof {
                                lemma_push_preserves_contains(to_clear@, lst@[i as int]);
                            }
                            to_clear.push(lst[i]);
                            i = i + 1;
                        }
                    }
                },
            }
        }
        let ghost itg = it;
        self.clear_keys(&to_clear);
        let ghost mid = *self;
        proof {
            assert(forall|k: EngineKey| #[trigger]
                mid.spec_cache().contains_key(k) ==> old(self).spec_cache().contains_key(k)
                    && mid.spec_cache()[k] == old(self).spec_cache()[k]);
            assert forall|k: EngineKey, i: int|
                #![trigger old(self).spec_deps()[k]@[i]]
                old(self).spec_deps().contains_key(k) && k.0 == sheet.0 && k.1 == row && 0 <= i
                    < old(self).spec_deps()[k]@.len() implies !mid.spec_cache().contains_key(
                old(self).spec_deps()[k]@[i],
            ) && !mid.spec_deps().contains_key(old(self).spec_deps()[k]@[i]) by {
                let lst0 = old(self).spec_deps()[k];
                let pairs = itg.seq();
                assert(pairs.contains((&k, &lst0)));
                let j = choose|j: int| 0 <= j < pairs.len() && pairs[j] == (&k, &lst0);
                assert(pairs[j].0.0 == sheet.0 && pairs[j].0.1 == row);
                assert(pairs[j].1@ == lst0@);
                assert(to_clear@.contains(lst0@[i]));
            }
            assert forall|k: EngineKey, i: int, to: EngineKey|
                old(self).spec_deps().contains_key(k) && k.0 == sheet.0 && k.1 == row && 0 <= i
                    < old(self).spec_deps()[k]@.len() && #[trigger] reaches(
                old(self).spec_deps(),
                old(self).spec_deps()[k]@[i],
                to,
            ) implies !mid.spec_cache().contains_key(to) && !mid.spec_deps().contains_key(
                to,
            ) by {
                let lst0 = old(self).spec_deps()[k];
                let pairs = itg.seq();
                assert(pairs.contains((&k, &lst0)));
                let j = choose|j: int| 0 <= j < pairs.len() && pairs[j] == (&k, &lst0);
                assert(pairs[j].1@ == lst0@);
                assert(to_clear@.contains(lst0@[i]));
                let j2 = choose|j2: int| 0 <= j2 < to_clear@.len() && to_clear@[j2] == lst0@[i];
                assert(reaches(old(self).spec_deps(), to_clear@[j2], to));
                assert(!mid.spec_cache().contains_key(to));
                assert(!mid.spec_deps().contains_key(to));
            }
        }
        match self.sheets.remove(&sheet.0) {
            Some(mut s) => {
                let prev = s.insert_row_default(row, val);
                self.sheets.insert(sheet.0, s);
                proof {
                    assert(self.spec_sheets() =~= old(self).spec_sheets().insert(
                        sheet.0,
                        self.spec_sheets()[sheet.0],
                    ));
                    assert(self.spec_cache() == mid.spec_cache());
                    assert(self.spec_deps() == mid.spec_deps());
                }
                prev
            },
            None => {
                proof {
                    assert(self.spec_sheets() =~= old(self).spec_sheets());
                    assert(self.spec_cache() == mid.spec_cache());
                    assert(self.spec_deps() == mid.spec_deps());
                }
                Value::Empty
            },
        }
    }

    /// Writes the default value of a column on the given sheet, returning
    /// the previous default (`Empty` when there was none, or when the sheet
    /// does not exist). Every cell recorded as depending on a cell of that
    /// column of that sheet is invalidated first, transitively.
    pub fn insert_col_default(&mut self, sheet: SheetIdx, col: u64, val: Value) -> (r: Value)
        ensures
            final(self).spec_next_sheet() == old(self).spec_next_sheet(),
            forall|k: EngineKey| #[trigger]
                final(self).spec_cache().contains_key(k) ==> old(self).spec_cache().contains_key(k)
                    && final(self).spec_cache()[k] == old(self).spec_cache()[k],
            forall|k: EngineKey| #[trigger]
                final(self).spec_deps().contains_key(k) ==> old(self).spec_deps().contains_key(k)
                    && final(self).spec_deps()[k] == old(self).spec_deps()[k],
            forall|k: EngineKey, i: int|
                #![trigger old(self).spec_deps()[k]@[i]]
                old(self).spec_deps().contains_key(k) && k.0 == sheet.0 && k.2 == col && 0 <= i
                    < old(self).spec_deps()[k]@.len() ==> !final(self).spec_cache().contains_key(
                    old(self).spec_deps()[k]@[i],
                ) && !final(self).spec_deps().contains_key(old(self).spec_deps()[k]@[i]),
            forall|k: EngineKey, i: int, to: EngineKey|
                old(self).spec_deps().contains_key(k) && k.0 == sheet.0 && k.2 == col && 0 <= i
                    < old(self).spec_deps()[k]@.len() && #[trigger] reaches(
                    old(self).spec_deps(),
                    old(self).spec_deps()[k]@[i],
                    to,
                ) ==> !final(self).spec_cache().contains_key(to)
                    && !final(self).spec_deps().contains_key(to),
            old(self).spec_sheets().contains_key(sheet.0) ==> ({
                let sh_old = old(self).spec_sheets()[sheet.0];
                let sh_new = final(self).spec_sheets()[sheet.0];
                &&& final(self).spec_sheets() == old(self).spec_sheets().insert(sheet.0, sh_new)
                &&& sh_new.spec_name() == sh_old.spec_name()
                &&& sh_new.spec_cells() == sh_old.spec_cells()
                &&& sh_new.spec_row_defaults() == sh_old.spec_row_defaults()
                &&& sh_new.spec_col_defaults() == if val is Empty {
                    sh_old.spec_col_defaults().remove(col)
                } else {
                    sh_old.spec_col_defaults().insert(col, val)
                }
                &&& r == if sh_old.spec_col_defaults().contains_key(col) {
                    sh_old.spec_col_defaults()[col]
                } else {
                    Value::Empty
                }
            }),
            !old(self).spec_sheets().contains_key(sheet.0) ==> final(self).spec_sheets() == old(self).spec_sheets() && r == Value::Empty,
            old(self).wf() ==> final(self).wf(),
    {
        let mut to_clear: Vec<EngineKey> = Vec::new();
        let ghost self_pre = *self;
        let mut it = vstd::std_specs::iter::VerusForLoopWrapper::new(
            self.dependencies.iter(),
            Ghost(None),
        );
        loop
            invariant
                *self == self_pre,
                it.wf(),
                it.iter.obeys_prophetic_iter_laws(),
                it.snapshot@ == vstd::std_specs::btree::spec_btree_map_iter(&self_pre.dependencies),
                it.iter.decrease() is Some,
                forall|j: int, i: int|
                    #![trigger it.seq()[j].1@[i]]
                    0 <= j < it.index() && it.seq()[j].0.0 == sheet.0 && it.seq()[j].0.2 == col
                        && 0 <= i < it.seq()[j].1@.len() ==> to_clear@.contains(it.seq()[j].1@[i]),
            ensures
                *self == self_pre,
                it.snapshot@ == vstd::std_specs::btree::spec_btree_map_iter(&self_pre.dependencies),
                forall|j: int, i: int|
                    #![trigger it.seq()[j].1@[i]]
                    0 <= j < it.seq().len() && it.seq()[j].0.0 == sheet.0 && it.seq()[j].0.2 == col
                        && 0 <= i < it.seq()[j].1@.len() ==> to_clear@.contains(it.seq()[j].1@[i]),
            decreases it.iter.decrease()->0,
        {
            match it.next() {
                None => {
                    break ;
                },
                Some(kv) => {
                    let k: &EngineKey = kv.0;
                    let lst: &Vec<EngineKey> = kv.1;
                    if k.0 == sheet.0 && k.2 == col {
                        let mut i: usize = 0;
                        while i < lst.len()
                            invariant
                                i <= lst@.len(),
                                lst == it.seq()[it.index() - 1].1,
                                0 < it.index() <= it.seq().len(),
                                forall|i2: int|
                                    0 <= i2 < i ==> to_clear@.contains(#[trigger] lst@[i2]),
                                forall|j: int, i2: int|
                                    #![trigger it.seq()[j].1@[i2]]
                                    0 <= j < it.index() - 1 && it.seq()[j].0.0 == sheet.0
                                        && it.seq()[j].0.2 == col && 0 <= i2
                                        < it.seq()[j].1@.len() ==> to_clear@.contains(
                                        it.seq()[j].1@[i2],
                                    ),
                            decreases lst@.len() - i,
                        {
                            proof {
                                lemma_push_preserves_contains(to_clear@, lst@[i as int]);
                            }
                            to_clear.push(lst[i]);
                            i = i + 1;
                        }
                    }
                },
            }
        }
        let ghost itg = it;
        self.clear_keys(&to_clear);
        let ghost mid = *self;
        proof {
            assert(forall|k: EngineKey| #[trigger]
                mid.spec_cache().contains_key(k) ==> old(self).spec_cache().contains_key(k)
                    && mid.spec_cache()[k] == old(self).spec_cache()[k]);
            assert forall|k: EngineKey, i: int|
                #![trigger old(self).spec_deps()[k]@[i]]
                old(self).spec_deps().contains_key(k) && k.0 == sheet.0 && k.2 == col && 0 <= i
                    < old(self).spec_deps()[k]@.len() implies !mid.spec_cache().contains_key(
                old(self).spec_deps()[k]@[i],
            ) && !mid.spec_deps().contains_key(old(self).spec_deps()[k]@[i]) by {
                let lst0 = old(self).spec_deps()[k];
                let pairs = itg.seq();
                assert(pairs.contains((&k, &lst0)));
                let j = choose|j: int| 0 <= j < pairs.len() && pairs[j] == (&k, &lst0);
                assert(pairs[j].0.0 == sheet.0 && pairs[j].0.2 == col);
                assert(pairs[j].1@ == lst0@);
                assert(to_clear@.contains(lst0@[i]));
            }
            assert forall|k: EngineKey, i: int, to: EngineKey|
                old(self).spec_deps().contains_key(k) && k.0 == sheet.0 && k.2 == col && 0 <= i
                    < old(self).spec_deps()[k]@.len() && #[trigger] reaches(
                old(self).spec_deps(),
                old(self).spec_deps()[k]@[i],
                to,
            ) implies !mid.spec_cache().contains_key(to) && !mid.spec_deps().contains_key(
                to,
            ) by {
                let lst0 = old(self).spec_deps()[k];
                let pairs = itg.seq();
                assert(pairs.contains((&k, &lst0)));
                let j = choose|j: int| 0 <= j < pairs.len() && pairs[j] == (&k, &lst0);
                assert(pairs[j].1@ == lst0@);
                assert(to_clear@.contains(lst0@[i]));
                let j2 = choose|j2: int| 0 <= j2 < to_clear@.len() && to_clear@[j2] == lst0@[i];
                assert(reaches(old(self).spec_deps(), to_clear@[j2], to));
                assert(!mid.spec_cache().contains_key(to));
                assert(!mid.spec_deps().contains_key(to));
            }
        }
        match self.sheets.remove(&sheet.0) {
            Some(mut s) => {
                let prev = s.insert_col_default(col, val);
                self.sheets.insert(sheet.0, s);
                proof {
                    assert(self.spec_sheets() =~= old(self).spec_sheets().insert(
                        sheet.0,
                        self.spec_sheets()[sheet.0],
                    ));
                    assert(self.spec_cache() == mid.spec_cache());
                    assert(self.spec_deps() == mid.spec_deps());
                }
                prev
            },
            None => {
                proof {
                    assert(self.spec_sheets() =~= old(self).spec_sheets());
                    assert(self.spec_cache() == mid.spec_cache());
                    assert(self.spec_deps() == mid.spec_deps());
                }
                Value::Empty
            },
        }
    }

    /// Invalidates every listed cell, transitively: afterwards nothing
    /// reachable in the old recorded graph from any listed cell is cached.
    fn clear_keys(&mut self, keys: &Vec<EngineKey>)
        ensures
            final(self).spec_sheets() == old(self).spec_sheets(),
            final(self).spec_next_sheet() == old(self).spec_next_sheet(),
            forall|k: EngineKey| #[trigger]
                final(self).spec_cache().contains_key(k) ==> old(self).spec_cache().contains_key(k)
                    && final(self).spec_cache()[k] == old(self).spec_cache()[k],
            forall|k: EngineKey| #[trigger]
                final(self).spec_deps().contains_key(k) ==> old(self).spec_deps().contains_key(k)
                    && final(self).spec_deps()[k] == old(self).spec_deps()[k],
            forall|i: int|
                0 <= i < keys@.len() ==> !final(self).spec_cache().contains_key(
                    #[trigger] keys@[i],
                ) && !final(self).spec_deps().contains_key(keys@[i]),
            forall|n2: EngineKey, to: EngineKey|
                old(self).spec_deps().contains_key(n2) && !final(self).spec_deps().contains_key(n2)
                    && #[trigger] reaches(old(self).spec_deps(), n2, to) ==> !final(self).spec_cache().contains_key(to)
                    && !final(self).spec_deps().contains_key(to),
            forall|i: int, to: EngineKey|
                0 <= i < keys@.len() && #[trigger] reaches(old(self).spec_deps(), keys@[i], to)
                    ==> !final(self).spec_cache().contains_key(to)
                    && !final(self).spec_deps().contains_key(to),
    {
        let ghost self0 = *self;
        let n = keys.len();
        let mut idx: usize = 0;
        while idx < n
            invariant
                n == keys@.len(),
                idx <= n,
                self.spec_sheets() == self0.spec_sheets(),
                self.spec_next_sheet() == self0.spec_next_sheet(),
                forall|k: EngineKey| #[trigger]
                    self.spec_cache().contains_key(k) ==> self0.spec_cache().contains_key(k)
                        && self.spec_cache()[k] == self0.spec_cache()[k],
                forall|k: EngineKey| #[trigger]
                    self.spec_deps().contains_key(k) ==> self0.spec_deps().contains_key(k)
                        && self.spec_deps()[k] == self0.spec_deps()[k],
                forall|i: int|
                    0 <= i < idx ==> !self.spec_cache().contains_key(#[trigger] keys@[i])
                        && !self.spec_deps().contains_key(keys@[i]),
                forall|n2: EngineKey, to: EngineKey|
                    self0.spec_deps().contains_key(n2) && !self.spec_deps().contains_key(n2)
                        && #[trigger] reaches(self0.spec_deps(), n2, to)
                        ==> !self.spec_cache().contains_key(to)
                        && !self.spec_deps().contains_key(to),
            decreases n - idx,
        {
            let ghost pre = *self;
            let key = keys[idx];
            self.clear_from_cache(SheetIdx(key.0), CellIdx::new(key.1, key.2));
            proof {
                lemma_removed_closure_compose(
                    self0.spec_deps(),
                    pre.spec_cache(),
                    pre.spec_deps(),
                    self.spec_cache(),
                    self.spec_deps(),
                );
            }
            idx = idx + 1;
        }
        proof {
            assert forall|i: int, to: EngineKey|
                0 <= i < keys@.len() && #[trigger] reaches(self0.spec_deps(), keys@[i], to)
                    implies !self.spec_cache().contains_key(to)
                    && !self.spec_deps().contains_key(to) by {
                if self0.spec_deps().contains_key(keys@[i]) {
                    assert(!self.spec_deps().contains_key(keys@[i]));
                } else {
                    lemma_reaches_no_entry(self0.spec_deps(), keys@[i], to);
                    assert(to == keys@[i]);
                }
            }
        }
    }
}

impl Spanleaf {
    /// The recursive, memoized read: resolves the cell, and evaluates its
    /// formula on a cache miss after installing the `Calculating` sentinel,
    /// which is converted into the finished value on success and removed on
    /// error. One unit of depth is spent on each fresh formula evaluation.
    pub(crate) fn get_depth(&mut self, sref: SheetIdx, cref: CellIdx, depth: u64) -> (r: Result<
        ValueResult,
        Error,
    >)
        requires
            old(self).sheets_wf(),
        ensures
            Spanleaf::eval_frame(*old(self), *final(self)),
            final(self).sheets_wf(),
            !(old(self).spec_raw(sref, cref).0 is Formula) ==> final(self).spec_cache() == old(self).spec_cache() && final(self).spec_deps() == old(self).spec_deps() && (match r {
                Ok(vr) => value_view(vr.value) == old(self).spec_raw(sref, cref).0 && vr.source
                    == old(self).spec_raw(sref, cref).1,
                Err(_) => false,
            }),
            (old(self).spec_raw(sref, cref).0 is Formula && old(self).spec_cache().contains_key(
                spec_key(sref, cref),
            ) && old(self).spec_cache()[spec_key(sref, cref)] is Calculated) ==> final(self).spec_cache() == old(self).spec_cache() && final(self).spec_deps() == old(self).spec_deps() && (match r {
                Ok(vr) => value_view(vr.value) == value_view(
                    old(self).spec_cache()[spec_key(sref, cref)]->Calculated_0,
                ) && vr.source == old(self).spec_raw(sref, cref).1,
                Err(_) => false,
            }),
            (old(self).spec_raw(sref, cref).0 is Formula && old(self).is_calculating(
                spec_key(sref, cref),
            )) ==> r == Err::<ValueResult, Error>(Error::CyclicDependencyDetected) && final(self).spec_cache() == old(self).spec_cache() && final(self).spec_deps() == old(self).spec_deps(),
            (old(self).spec_raw(sref, cref).0 is Formula && !old(self).spec_cache().contains_key(
                spec_key(sref, cref),
            ) && depth == 0) ==> r == Err::<ValueResult, Error>(Error::MaxRecursionReached)
                && final(self).spec_cache() == old(self).spec_cache() && final(self).spec_deps()
                == old(self).spec_deps(),
            (old(self).spec_raw(sref, cref).0 is Formula && !old(self).spec_cache().contains_key(
                spec_key(sref, cref),
            ) && depth > 0) ==> match r {
                Ok(vr) => final(self).spec_cache().contains_key(spec_key(sref, cref)) && final(self).spec_cache()[spec_key(sref, cref)] is Calculated && value_view(
                    final(self).spec_cache()[spec_key(sref, cref)]->Calculated_0,
                ) == value_view(vr.value) && vr.source == old(self).spec_raw(sref, cref).1,
                Err(_) => !final(self).spec_cache().contains_key(spec_key(sref, cref)),
            },
            (old(self).spec_raw(sref, cref).0 is Formula && !old(self).spec_cache().contains_key(
                spec_key(sref, cref),
            ) && depth > 0) ==> match old(self).spec_raw(sref, cref).0 {
                ValueV::Formula(_, ev) => match eval_read(
                    old(self).spec_sheets(),
                    old(self).spec_next_sheet().0,
                    sref,
                    ev,
                ) {
                    Some(res) => match (r, res) {
                        (Ok(vr), Ok(w)) => value_view(vr.value) == w,
                        (Err(e1), Err(e2)) => e1 == e2,
                        _ => false,
                    },
                    None => true,
                },
                _ => true,
            },
            get_cases(
                old(self).spec_sheets(),
                old(self).spec_next_sheet().0,
                old(self).spec_cache(),
                sref,
                cref,
                depth,
                res_value_of(r),
            ),
            (old(self).spec_raw(sref, cref).0 is Formula && !old(self).spec_cache().contains_key(
                spec_key(sref, cref),
            ) && depth > 0 && r is Ok) ==> exists|ds: Seq<EngineKey>|
                records_dependents(*final(self), ds, spec_key(sref, cref)),
            (old(self).spec_raw(sref, cref).0 is Formula && !old(self).spec_cache().contains_key(
                spec_key(sref, cref),
            ) && depth > 0 && r is Ok) ==> match old(self).spec_raw(sref, cref).0 {
                ValueV::Formula(_, ev) => match ev {
                    crate::language::ExprV::CellDeref(inner) => match resolve_pure_ref(
                        old(self).spec_sheets(),
                        old(self).spec_next_sheet().0,
                        sref,
                        *inner,
                    ) {
                        Some(Ok(sc)) => final(self).spec_deps().contains_key(spec_key(sc.0, sc.1))
                            && final(self).spec_deps()[spec_key(sc.0, sc.1)]@.contains(
                            spec_key(sref, cref),
                        ),
                        _ => true,
                    },
                    _ => true,
                },
                _ => true,
            },
        decreases depth, 0nat, 0int,
    {
        let val_res = self.get_raw_value(sref, cref);
        let source = val_res.source;
        match val_res.value {
            Value::Formula(f) => {
                let key: EngineKey = (sref.0, cref.row, cref.col);
                match self.cache.get(&key) {
                    Some(CacheEntry::Calculating) => {
                        return Err(Error::CyclicDependencyDetected);
                    },
                    Some(CacheEntry::Calculated(w)) => {
                        let out = w.duplicate();
                        return Ok(ValueResult { value: out, source });
                    },
                    None => {},
                }
                if depth == 0 {
                    return Err(Error::MaxRecursionReached);
                }
                self.cache.insert(key, CacheEntry::Calculating);
                let ghost mid1 = *self;
                let mut dep_list: Vec<(SheetIdx, CellIdx)> = Vec::new();
                let res = eval(&f.expr, self, sref, &mut dep_list, depth - 1);
                let ghost mid2 = *self;
                match res {
                    Err(e) => {
                        self.cache.remove(&key);
                        proof {
                            assert(self.spec_cache() == mid2.spec_cache().remove(key));
                            assert(!old(self).spec_cache().contains_key(key));
                            assert(Spanleaf::deps_extended(*old(self), mid1));
                            assert(Spanleaf::deps_extended(mid2, *self));
                            Spanleaf::lemma_deps_extended_trans(*old(self), mid1, mid2);
                            Spanleaf::lemma_deps_extended_trans(*old(self), mid2, *self);
                            assert forall|k: EngineKey| #[trigger]
                                old(self).spec_cache().contains_key(
                                k,
                            ) implies self.spec_cache().contains_key(k) && self.spec_cache()[k]
                                == old(self).spec_cache()[k] by {
                                assert(k != key);
                                assert(mid1.spec_cache().contains_key(k) && mid1.spec_cache()[k]
                                    == old(self).spec_cache()[k]);
                                assert(mid2.spec_cache().contains_key(k) && mid2.spec_cache()[k]
                                    == mid1.spec_cache()[k]);
                            }
                            assert forall|k: EngineKey| #[trigger]
                                self.spec_cache().contains_key(
                                k,
                            ) implies old(self).spec_cache().contains_key(k) || !(
                            self.spec_cache()[k] is Calculating) by {
                                assert(k != key);
                                assert(mid2.spec_cache().contains_key(k));
                                if mid1.spec_cache().contains_key(k) {
                                    assert(old(self).spec_cache().contains_key(k));
                                } else {
                                    assert(!(mid2.spec_cache()[k] is Calculating));
                                }
                            }
                        }
                        Err(e)
                    },
                    Ok(v) => {
                        let m = dep_list.len();
                        let mut i: usize = 0;
                        let ghost mut reg: Seq<EngineKey> = Seq::empty();
                        while i < m
                            invariant
                                m == dep_list@.len(),
                                i <= m,
                                self.spec_cache() == mid2.spec_cache(),
                                self.spec_sheets() == mid2.spec_sheets(),
                                self.spec_next_sheet() == mid2.spec_next_sheet(),
                                Spanleaf::deps_extended(mid2, *self),
                                reg.len() == i,
                                forall|j2: int|
                                    #![trigger reg[j2]]
                                    0 <= j2 < reg.len() ==> reg[j2] == spec_key(
                                        dep_list@[j2].0,
                                        dep_list@[j2].1,
                                    ),
                                forall|j2: int|
                                    0 <= j2 < reg.len() ==> self.spec_deps().contains_key(
                                        #[trigger] reg[j2],
                                    ) && self.spec_deps()[reg[j2]]@.contains(key),
                            decreases m - i,
                        {
                            let ghost pre_iter = *self;
                            let d = dep_list[i];
                            let dkey: EngineKey = (d.0.0, d.1.row, d.1.col);
                            let mut lst: Vec<EngineKey> = match self.dependencies.remove(&dkey) {
                                Some(l) => l,
                                None => Vec::new(),
                            };
                            let ghost lst0 = lst@;
                            let mut present = false;
                            let ln = lst.len();
                            let mut j: usize = 0;
                            while j < ln
                                invariant
                                    j <= ln,
                                    ln == lst@.len(),
                                    lst@ == lst0,
                                    present <==> exists|j2: int|
                                        0 <= j2 < j && lst0[j2] == key,
                                decreases ln - j,
                            {
                                let entry = lst[j];
                                if entry.0 == key.0 && entry.1 == key.1 && entry.2 == key.2 {
                                    proof {
                                        assert(lst0[j as int] == key);
                                    }
                                    present = true;
                                }
                                j = j + 1;
                            }
                            if !present {
                                lst.push(key);
                            }
                            proof {
                                assert(lst@.contains(key)) by {
                                    if present {
                                        let j2 = choose|j2: int| 0 <= j2 < ln && lst0[j2] == key;
                                        assert(lst@[j2] == key);
                                    } else {
                                        assert(lst@[ln as int] == key);
                                    }
                                }
                            }
                            let ghost reg_pre = reg;
                            let ghost new_list = lst@;
                            self.dependencies.insert(dkey, lst);
                            proof {
                                reg = reg.push(dkey);
                                assert(reg[i as int] == dkey);
                                assert(self.spec_deps()[dkey]@ == new_list);
                                assert forall|j2: int|
                                    0 <= j2 < reg.len() implies self.spec_deps().contains_key(
                                    #[trigger] reg[j2],
                                ) && self.spec_deps()[reg[j2]]@.contains(key) by {
                                    if reg[j2] == dkey {
                                        assert(self.spec_deps()[dkey]@.contains(key));
                                    } else {
                                        assert(j2 < i as int);
                                        assert(reg[j2] == reg_pre[j2]);
                                        assert(self.spec_deps()[reg[j2]]
                                            == pre_iter.spec_deps()[reg[j2]]);
                                    }
                                }
                                assert(Spanleaf::deps_extended(pre_iter, *self)) by {
                                    assert forall|k2: EngineKey| #[trigger]
                                        pre_iter.spec_deps().contains_key(
                                        k2,
                                    ) implies self.spec_deps().contains_key(k2)
                                        && self.spec_deps()[k2]@.len()
                                        >= pre_iter.spec_deps()[k2]@.len() && (forall|i2: int|
                                        0 <= i2 < pre_iter.spec_deps()[k2]@.len()
                                            ==> self.spec_deps()[k2]@[i2] == #[trigger] pre_iter.spec_deps()[k2]@[i2]) by {
                                        if k2 == dkey {
                                            assert(pre_iter.spec_deps()[dkey]@ == lst0);
                                            assert(new_list == lst0 || new_list == lst0.push(key));
                                        }
                                    }
                                }
                                Spanleaf::lemma_deps_extended_trans(mid2, pre_iter, *self);
                            }
                            i = i + 1;
                        }
                        let ghost mid3 = *self;
                        let cached = v.duplicate();
                        let prev = self.cache.insert(key, CacheEntry::Calculated(cached));
                        proof {
                            assert(Spanleaf::deps_extended(*old(self), mid1));
                            Spanleaf::lemma_deps_extended_trans(*old(self), mid1, mid2);
                            Spanleaf::lemma_deps_extended_trans(*old(self), mid2, mid3);
                            assert(Spanleaf::deps_extended(mid3, *self));
                            Spanleaf::lemma_deps_extended_trans(*old(self), mid3, *self);
                            assert(mid3.spec_cache() == mid2.spec_cache());
                            assert(mid1.spec_cache().contains_key(key));
                            assert(mid1.spec_cache()[key] is Calculating);
                            assert(mid2.spec_cache().contains_key(key) && mid2.spec_cache()[key]
                                == mid1.spec_cache()[key]);
                            assert(prev == Some(CacheEntry::Calculating));
                        }
                        match prev {
                            Some(CacheEntry::Calculating) => {},
                            _ => {
                                proof {
                                    assert(false);
                                }
                                return Err(Error::InconsistentCaching);
                            },
                        }
                        proof {
                            assert forall|k: EngineKey| #[trigger]
                                old(self).spec_cache().contains_key(
                                k,
                            ) implies self.spec_cache().contains_key(k) && self.spec_cache()[k]
                                == old(self).spec_cache()[k] by {
                                assert(k != key);
                                assert(mid1.spec_cache().contains_key(k) && mid1.spec_cache()[k]
                                    == old(self).spec_cache()[k]);
                                assert(mid2.spec_cache().contains_key(k) && mid2.spec_cache()[k]
                                    == mid1.spec_cache()[k]);
                            }
                            assert forall|k: EngineKey| #[trigger]
                                self.spec_cache().contains_key(
                                k,
                            ) implies old(self).spec_cache().contains_key(k) || !(
                            self.spec_cache()[k] is Calculating) by {
                                if k != key {
                                    assert(mid2.spec_cache().contains_key(k));
                                    if mid1.spec_cache().contains_key(k) {
                                        assert(old(self).spec_cache().contains_key(k));
                                    } else {
                                        assert(!(mid2.spec_cache()[k] is Calculating));
                                    }
                                }
                            }
                            assert(self.spec_deps() == mid3.spec_deps());
                            assert(records_dependents(*self, reg, key));
                            assert(exists|ds: Seq<EngineKey>|
                                records_dependents(*self, ds, key));
                            match old(self).spec_raw(sref, cref).0 {
                                ValueV::Formula(_, ev) => {
                                    match ev {
                                        crate::language::ExprV::CellDeref(inner) => {
                                            match resolve_pure_ref(
                                                old(self).spec_sheets(),
                                                old(self).spec_next_sheet().0,
                                                sref,
                                                *inner,
                                            ) {
                                                Some(Ok(sc)) => {
                                                    assert(ev == crate::language::expr_view(
                                                        f.expr,
                                                    ));
                                                    assert(dep_list@ == Seq::<
                                                        (SheetIdx, CellIdx),
                                                    >::empty().push(sc));
                                                    assert(dep_list@[0] == sc);
                                                    assert(dep_list@[0].0 == sc.0);
                                                    assert(dep_list@[0].1 == sc.1);
                                                    assert(reg.len() == 1);
                                                    assert(reg[0] == spec_key(
                                                        dep_list@[0].0,
                                                        dep_list@[0].1,
                                                    ));
                                                    assert(reg[0] == spec_key(sc.0, sc.1));
                                                    assert(self.spec_deps().contains_key(
                                                        spec_key(sc.0, sc.1),
                                                    ));
                                                    assert(self.spec_deps()[spec_key(
                                                        sc.0,
                                                        sc.1,
                                                    )]@.contains(key));
                                                },
                                                _ => {},
                                            }
                                        },
                                        _ => {},
                                    }
                                },
                                _ => {},
                            }
                        }
                        Ok(ValueResult { value: v, source })
                    },
                }
            },
            other => Ok(ValueResult { value: other, source }),
        }
    }

    /// Gets the calculated value of the cell: the raw value when it is not
    /// a formula, else the memoized result of evaluating the formula, with
    /// the provenance of the formula itself. A formula whose evaluation
    /// reads the cell being calculated fails with
    /// `CyclicDependencyDetected`; a dereference chain deeper than
    /// `MAX_EVAL_DEPTH` fails with `MaxRecursionReached`. On return the
    /// cache never holds a `Calculating` sentinel, whether the call
    /// succeeded or not.
    pub fn get(&mut self, sref: SheetIdx, cref: CellIdx) -> (r: Result<ValueResult, Error>)
        requires
            old(self).wf(),
        ensures
            final(self).wf(),
            final(self).spec_sheets() == old(self).spec_sheets(),
            final(self).spec_next_sheet() == old(self).spec_next_sheet(),
            Spanleaf::cache_preserved(*old(self), *final(self)),
            !(old(self).spec_raw(sref, cref).0 is Formula) ==> final(self).spec_cache() == old(self).spec_cache() && final(self).spec_deps() == old(self).spec_deps() && (match r {
                Ok(vr) => value_view(vr.value) == old(self).spec_raw(sref, cref).0 && vr.source
                    == old(self).spec_raw(sref, cref).1,
                Err(_) => false,
            }),
            (old(self).spec_raw(sref, cref).0 is Formula && old(self).spec_cache().contains_key(
                spec_key(sref, cref),
            )) ==> final(self).spec_cache() == old(self).spec_cache() && final(self).spec_deps()
                == old(self).spec_deps() && (match r {
                Ok(vr) => old(self).spec_cache()[spec_key(sref, cref)] is Calculated && value_view(
                    vr.value,
                ) == value_view(old(self).spec_cache()[spec_key(sref, cref)]->Calculated_0)
                    && vr.source == old(self).spec_raw(sref, cref).1,
                Err(_) => false,
            }),
            (old(self).spec_raw(sref, cref).0 is Formula && !old(self).spec_cache().contains_key(
                spec_key(sref, cref),
            )) ==> match r {
                Ok(vr) => final(self).spec_cache().contains_key(spec_key(sref, cref)) && final(self).spec_cache()[spec_key(sref, cref)] is Calculated && value_view(
                    final(self).spec_cache()[spec_key(sref, cref)]->Calculated_0,
                ) == value_view(vr.value) && vr.source == old(self).spec_raw(sref, cref).1,
                Err(_) => !final(self).spec_cache().contains_key(spec_key(sref, cref)),
            },
            (old(self).spec_raw(sref, cref).0 is Formula && !old(self).spec_cache().contains_key(
                spec_key(sref, cref),
            )) ==> match old(self).spec_raw(sref, cref).0 {
                ValueV::Formula(_, ev) => match eval_read(
                    old(self).spec_sheets(),
                    old(self).spec_next_sheet().0,
                    sref,
                    ev,
                ) {
                    Some(res) => match (r, res) {
                        (Ok(vr), Ok(w)) => value_view(vr.value) == w,
                        (Err(e1), Err(e2)) => e1 == e2,
                        _ => false,
                    },
                    None => true,
                },
                _ => true,
            },
            Spanleaf::deps_extended(*old(self), *final(self)),
            get_cases(
                old(self).spec_sheets(),
                old(self).spec_next_sheet().0,
                old(self).spec_cache(),
                sref,
                cref,
                MAX_EVAL_DEPTH,
                res_value_of(r),
            ),
            (old(self).spec_raw(sref, cref).0 is Formula && !old(self).spec_cache().contains_key(
                spec_key(sref, cref),
            ) && r is Ok) ==> exists|ds: Seq<EngineKey>|
                records_dependents(*final(self), ds, spec_key(sref, cref)),
            (old(self).spec_raw(sref, cref).0 is Formula && !old(self).spec_cache().contains_key(
                spec_key(sref, cref),
            ) && r is Ok) ==> match old(self).spec_raw(sref, cref).0 {
                ValueV::Formula(_, ev) => match ev {
                    crate::language::ExprV::CellDeref(inner) => match resolve_pure_ref(
                        old(self).spec_sheets(),
                        old(self).spec_next_sheet().0,
                        sref,
                        *inner,
                    ) {
                        Some(Ok(sc)) => final(self).spec_deps().contains_key(spec_key(sc.0, sc.1))
                            && final(self).spec_deps()[spec_key(sc.0, sc.1)]@.contains(
                            spec_key(sref, cref),
                        ),
                        _ => true,
                    },
                    _ => true,
                },
                _ => true,
            },
    {
        let r = self.get_depth(sref, cref, MAX_EVAL_DEPTH);
        proof {
            assert forall|k: EngineKey|
                self.spec_cache().contains_key(k) implies !(#[trigger] self.spec_cache()[k]
                is Calculating) by {
                if old(self).spec_cache().contains_key(k) {
                    assert(self.spec_cache()[k] == old(self).spec_cache()[k]);
                }
            }
        }
        r
    }
}

impl Default for Spanleaf {
    fn default() -> (r: Self)
        ensures
            r.wf(),
            r.spec_sheets() == Map::<u64, Sheet>::empty(),
            r.spec_next_sheet() == SheetIdx(0),
            r.spec_cache() == Map::<EngineKey, CacheEntry>::empty(),
            r.spec_deps() == Map::<EngineKey, Vec<EngineKey>>::empty(),
    {
        Spanleaf::new()
    }
}

/// A sequence that contains a value still contains it after dropping the
/// last element, unless that value stood only at the end.
proof fn lemma_contains_after_pop(s: Seq<EngineKey>, x: EngineKey)
    requires
        s.len() > 0,
        s.contains(x),
    ensures
        s.drop_last().contains(x) || x == s.last(),
{
    let j = choose|j: int| 0 <= j < s.len() && s[j] == x;
    if j < s.len() - 1 {
        assert(s.drop_last()[j] == x);
    }
}

/// Concatenation keeps the members of the left part.
proof fn lemma_concat_contains_left(a: Seq<EngineKey>, b: Seq<EngineKey>, x: EngineKey)
    requires
        a.contains(x),
    ensures
        (a + b).contains(x),
{
    let j = choose|j: int| 0 <= j < a.len() && a[j] == x;
    assert((a + b)[j] == x);
}

/// Pushing keeps every member of a sequence.
proof fn lemma_push_preserves_contains(s: Seq<EngineKey>, e: EngineKey)
    ensures
        forall|x: EngineKey| s.contains(x) ==> #[trigger] s.push(e).contains(x),
        s.push(e).contains(e),
{
    assert forall|x: EngineKey| s.contains(x) implies #[trigger] s.push(e).contains(x) by {
        let j = choose|j: int| 0 <= j < s.len() && s[j] == x;
        assert(s.push(e)[j] == x);
    }
    assert(s.push(e)[s.len() as int] == e);
}

/// Concatenation keeps the members of the right part.
proof fn lemma_concat_contains_right(a: Seq<EngineKey>, b: Seq<EngineKey>, i: int)
    requires
        0 <= i < b.len(),
    ensures
        (a + b).contains(b[i]),
{
    assert((a + b)[a.len() + i] == b[i]);
}

} // verus!

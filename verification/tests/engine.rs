//! End-to-end tests of the engine: insertion, memoized reads, invalidation,
//! cycles and the recursion bound.
use spanleaf_core::Error;
use spanleaf_core::Spanleaf;
use spanleaf_core::cell::{CellIdx, Value};
use spanleaf_core::sheet::ValueSource;

fn num(f: f64) -> Value {
    Value::Number(f.to_bits())
}

fn text(s: &str) -> Value {
    Value::Text(s.to_string())
}

fn formula(s: &str) -> Value {
    Value::try_from(s).unwrap()
}

fn get_value(sl: &mut Spanleaf, s: spanleaf_core::sheet::SheetIdx, row: u64, col: u64) -> Value {
    sl.get(s, CellIdx::new(row, col)).unwrap().value
}

#[test]
fn big_test() {
    let mut sl = Spanleaf::new();
    let s0 = sl.insert_sheet("Sheet1");

    sl.insert(s0, CellIdx::new(0, 0), num(42.0));
    sl.insert(s0, CellIdx::new(0, 1), formula("Hello World!"));
    sl.insert(s0, CellIdx::new(0, 2), formula("=5"));

    assert_eq!(get_value(&mut sl, s0, 0, 0), num(42.0));
    assert_eq!(get_value(&mut sl, s0, 0, 1), text("Hello World!"));
    assert_eq!(get_value(&mut sl, s0, 0, 2), num(5.0));
}

#[test]
fn references() {
    let mut sl = Spanleaf::new();

    let s0 = sl.insert_sheet("sheet_name");
    let s1 = sl.insert_sheet("other_sheet");

    sl.insert(s0, CellIdx::new(0, 0), formula("=sum(1,2,3,4,)"));
    sl.insert(s1, CellIdx::new(1, 1), formula("=sheet_name[0,0]"));

    assert_eq!(get_value(&mut sl, s0, 0, 0), num(10.0));
    assert_eq!(get_value(&mut sl, s1, 1, 1), num(10.0));

    // change source cell
    sl.insert(s0, CellIdx::new(0, 0), num(12.0));

    assert_eq!(get_value(&mut sl, s0, 0, 0), num(12.0));
    assert_eq!(get_value(&mut sl, s1, 1, 1), num(12.0));
}

#[test]
fn straight_line_arithmetic() {
    let mut sl = Spanleaf::new();
    let s0 = sl.insert_sheet("A");
    sl.insert(s0, CellIdx::new(0, 0), formula("=1+2*3"));
    assert_eq!(get_value(&mut sl, s0, 0, 0), num(7.0));
}

#[test]
fn cross_cell_reference() {
    let mut sl = Spanleaf::new();
    let s0 = sl.insert_sheet("A");
    sl.insert(s0, CellIdx::new(0, 0), num(3.14));
    sl.insert(s0, CellIdx::new(0, 1), formula("=[0,0]*2"));
    assert_eq!(get_value(&mut sl, s0, 0, 1), num(6.28));

    sl.insert(s0, CellIdx::new(0, 0), num(10.0));
    assert_eq!(get_value(&mut sl, s0, 0, 1), num(20.0));
}

#[test]
fn cross_sheet_reference() {
    let mut sl = Spanleaf::new();
    let sa = sl.insert_sheet("A");
    let sb = sl.insert_sheet("B");
    sl.insert(sa, CellIdx::new(1, 1), text("hello"));
    sl.insert(sb, CellIdx::new(0, 0), formula("=A[1,1]"));
    assert_eq!(get_value(&mut sl, sb, 0, 0), text("hello"));
}

#[test]
fn cycle_detected_and_cache_recovers() {
    let mut sl = Spanleaf::new();
    let s0 = sl.insert_sheet("A");
    sl.insert(s0, CellIdx::new(0, 0), formula("=[0,1]"));
    sl.insert(s0, CellIdx::new(0, 1), formula("=[0,0]"));

    let err = sl.get(s0, CellIdx::new(0, 0)).unwrap_err();
    assert_eq!(err, Error::CyclicDependencyDetected);

    // no sentinel survives the failed call: breaking the cycle makes the
    // same cell evaluate normally
    sl.insert(s0, CellIdx::new(0, 1), num(5.0));
    assert_eq!(get_value(&mut sl, s0, 0, 0), num(5.0));
}

#[test]
fn row_default_with_invalidation() {
    let mut sl = Spanleaf::new();
    let s0 = sl.insert_sheet("A");
    sl.insert_row_default(s0, 7, num(1.0));
    sl.insert(s0, CellIdx::new(0, 0), formula("=[7,3]+1"));
    assert_eq!(get_value(&mut sl, s0, 0, 0), num(2.0));

    sl.insert_row_default(s0, 7, num(5.0));
    assert_eq!(get_value(&mut sl, s0, 0, 0), num(6.0));
}

#[test]
fn col_default_with_invalidation() {
    let mut sl = Spanleaf::new();
    let s0 = sl.insert_sheet("A");
    sl.insert_col_default(s0, 4, num(3.0));
    sl.insert(s0, CellIdx::new(0, 0), formula("=[9,4]*[8,4]"));
    assert_eq!(get_value(&mut sl, s0, 0, 0), num(9.0));

    sl.insert_col_default(s0, 4, num(2.0));
    assert_eq!(get_value(&mut sl, s0, 0, 0), num(4.0));
}

#[test]
fn sum_folding_with_empties() {
    let mut sl = Spanleaf::new();
    let s0 = sl.insert_sheet("A");
    sl.insert(s0, CellIdx::new(0, 1), num(2.0));
    sl.insert(s0, CellIdx::new(0, 2), num(3.0));
    sl.insert(s0, CellIdx::new(1, 0), formula("=sum([0,0],[0,1],[0,2])"));
    assert_eq!(get_value(&mut sl, s0, 1, 0), num(5.0));
}

#[test]
fn empty_identity_through_engine() {
    let mut sl = Spanleaf::new();
    let s0 = sl.insert_sheet("A");
    // (9,9) holds nothing: every operator returns the other operand
    sl.insert(s0, CellIdx::new(0, 0), formula("=[9,9]+5"));
    sl.insert(s0, CellIdx::new(0, 1), formula("=5-[9,9]"));
    sl.insert(s0, CellIdx::new(0, 2), formula("=[9,9]*5"));
    sl.insert(s0, CellIdx::new(0, 3), formula("=5/[9,9]"));
    assert_eq!(get_value(&mut sl, s0, 0, 0), num(5.0));
    assert_eq!(get_value(&mut sl, s0, 0, 1), num(5.0));
    assert_eq!(get_value(&mut sl, s0, 0, 2), num(5.0));
    assert_eq!(get_value(&mut sl, s0, 0, 3), num(5.0));
}

#[test]
fn max_recursion_reached() {
    let mut sl = Spanleaf::new();
    let s0 = sl.insert_sheet("A");
    // a chain of forty dereferences, no cycle
    for i in 0..40u64 {
        let f = format!("=[0,{}]", i + 1);
        sl.insert(s0, CellIdx::new(0, i), Value::try_from(f.as_str()).unwrap());
    }
    sl.insert(s0, CellIdx::new(0, 40), num(1.0));
    let err = sl.get(s0, CellIdx::new(0, 0)).unwrap_err();
    assert_eq!(err, Error::MaxRecursionReached);

    // close to the end, the chain is short enough
    assert_eq!(get_value(&mut sl, s0, 0, 39), num(1.0));
}

#[test]
fn error_variants_from_evaluation() {
    let mut sl = Spanleaf::new();
    let s0 = sl.insert_sheet("A");

    sl.insert(s0, CellIdx::new(0, 0), formula("=['a', 0]"));
    assert_eq!(sl.get(s0, CellIdx::new(0, 0)).unwrap_err(), Error::RefMustBeNumber);

    sl.insert(s0, CellIdx::new(0, 1), formula("=nosheet[0, 0]"));
    assert_eq!(sl.get(s0, CellIdx::new(0, 1)).unwrap_err(), Error::SheetNotFound);

    sl.insert(s0, CellIdx::new(0, 2), formula("=1+'a'"));
    assert_eq!(sl.get(s0, CellIdx::new(0, 2)).unwrap_err(), Error::OperationUnavailable);

    sl.insert(s0, CellIdx::new(0, 3), formula("=frobnicate(1)"));
    assert_eq!(sl.get(s0, CellIdx::new(0, 3)).unwrap_err(), Error::FunctionNotAvailable);

    sl.insert(s0, CellIdx::new(0, 4), formula("=abs()"));
    assert_eq!(sl.get(s0, CellIdx::new(0, 4)).unwrap_err(), Error::InsufficientArgs);

    sl.insert(s0, CellIdx::new(0, 5), formula("=abs(1, 2)"));
    assert_eq!(sl.get(s0, CellIdx::new(0, 5)).unwrap_err(), Error::TooManyArgs);

    // the parse failure is surfaced at insertion time
    assert!(Value::try_from("=)").is_err());
}

#[test]
fn function_registry_through_engine() {
    let mut sl = Spanleaf::new();
    let s0 = sl.insert_sheet("A");

    sl.insert(s0, CellIdx::new(0, 0), formula("=power(2, 10)"));
    assert_eq!(get_value(&mut sl, s0, 0, 0), num(1024.0));

    sl.insert(s0, CellIdx::new(0, 1), formula("=power(2, 0-2)"));
    assert_eq!(get_value(&mut sl, s0, 0, 1), num(0.25));

    sl.insert(s0, CellIdx::new(0, 2), formula("=abs(0-5)"));
    assert_eq!(get_value(&mut sl, s0, 0, 2), num(5.0));

    sl.insert(s0, CellIdx::new(0, 3), formula("=average(1, 2, 3)"));
    assert_eq!(get_value(&mut sl, s0, 0, 3), num(2.0));

    sl.insert(s0, CellIdx::new(0, 4), formula("=true()"));
    assert_eq!(get_value(&mut sl, s0, 0, 4), Value::Bool(true));

    sl.insert(s0, CellIdx::new(0, 5), formula("=false()"));
    assert_eq!(get_value(&mut sl, s0, 0, 5), Value::Bool(false));

    sl.insert(s0, CellIdx::new(0, 6), formula("=is_blank([9,9])"));
    assert_eq!(get_value(&mut sl, s0, 0, 6), Value::Bool(true));

    sl.insert(s0, CellIdx::new(0, 7), formula("=is_blank(1)"));
    assert_eq!(get_value(&mut sl, s0, 0, 7), Value::Bool(false));

    sl.insert(s0, CellIdx::new(0, 8), formula("=is_formula(1)"));
    assert_eq!(get_value(&mut sl, s0, 0, 8), Value::Bool(false));

    sl.insert(s0, CellIdx::new(0, 9), formula("=average()"));
    assert_eq!(get_value(&mut sl, s0, 0, 9), num(0.0));
}

#[test]
fn division_by_zero_yields_infinity() {
    let mut sl = Spanleaf::new();
    let s0 = sl.insert_sheet("A");
    sl.insert(s0, CellIdx::new(0, 0), formula("=1/0"));
    assert_eq!(get_value(&mut sl, s0, 0, 0), num(f64::INFINITY));

    sl.insert(s0, CellIdx::new(0, 1), formula("=(0-1)/0"));
    assert_eq!(get_value(&mut sl, s0, 0, 1), num(f64::NEG_INFINITY));
}

#[test]
fn truncation_of_reference_coordinates() {
    let mut sl = Spanleaf::new();
    let s0 = sl.insert_sheet("A");
    sl.insert(s0, CellIdx::new(1, 0), num(42.0));
    // fractional coordinates are truncated toward zero
    sl.insert(s0, CellIdx::new(0, 0), formula("=[1.9, 0.2]"));
    assert_eq!(get_value(&mut sl, s0, 0, 0), num(42.0));
}

#[test]
fn reference_values_and_indirection() {
    let mut sl = Spanleaf::new();
    let s0 = sl.insert_sheet("A");
    sl.insert(s0, CellIdx::new(11, 2), text("Lorem Ipsum"));
    // the & form yields the reference itself
    sl.insert(s0, CellIdx::new(12, 2), formula("=&[11, 2]"));
    let v = get_value(&mut sl, s0, 12, 2);
    assert_eq!(v, Value::Ref { sref: s0, cref: CellIdx::new(11, 2) });
    // dereferencing the cell holding the reference yields the reference
    sl.insert(s0, CellIdx::new(13, 2), formula("=[12, 2]"));
    let v2 = get_value(&mut sl, s0, 13, 2);
    assert_eq!(v2, Value::Ref { sref: s0, cref: CellIdx::new(11, 2) });
}

#[test]
fn formula_bar_raw_value() {
    let mut sl = Spanleaf::new();
    let s0 = sl.insert_sheet("A");
    sl.insert(s0, CellIdx::new(0, 0), formula("=1+2"));

    let raw = sl.get_raw_value(s0, CellIdx::new(0, 0));
    assert_eq!(raw.source, ValueSource::Native);
    match raw.value {
        Value::Formula(f) => assert_eq!(f.script, "1+2"),
        other => panic!("expected a formula, got {:?}", other),
    }

    assert_eq!(get_value(&mut sl, s0, 0, 0), num(3.0));

    // the raw value is still the formula after computation
    let raw2 = sl.get_raw_value(s0, CellIdx::new(0, 0));
    assert!(matches!(raw2.value, Value::Formula(_)));
}

#[test]
fn first_sheet_with_name_wins() {
    let mut sl = Spanleaf::new();
    let s0 = sl.insert_sheet("X");
    let s1 = sl.insert_sheet("X");
    sl.insert(s0, CellIdx::new(0, 0), num(1.0));
    sl.insert(s1, CellIdx::new(0, 0), num(2.0));
    sl.insert(s1, CellIdx::new(5, 5), formula("=X[0,0]"));
    assert_eq!(get_value(&mut sl, s1, 5, 5), num(1.0));
}

#[test]
fn engine_defaults_lookup() {
    let mut sl = Spanleaf::new();
    let s0 = sl.insert_sheet("A");
    sl.insert_row_default(s0, 3, num(7.0));
    sl.insert_col_default(s0, 2, text("c"));

    assert_eq!(sl.get_row_default(s0, 3).value, num(7.0));
    assert_eq!(sl.get_row_default(s0, 4).value, Value::Empty);
    assert_eq!(sl.get_col_default(s0, 2).value, text("c"));
    assert_eq!(sl.get_row_default(s0, 3).source, ValueSource::RowDefault);
    assert_eq!(sl.get_col_default(s0, 2).source, ValueSource::ColDefault);

    // removing a default by writing Empty
    sl.insert_row_default(s0, 3, Value::Empty);
    assert_eq!(sl.get_row_default(s0, 3).value, Value::Empty);
}

#[test]
fn insert_returns_previous_value() {
    let mut sl = Spanleaf::new();
    let s0 = sl.insert_sheet("A");
    assert_eq!(sl.insert(s0, CellIdx::new(2, 2), num(1.0)), Value::Empty);
    assert_eq!(sl.insert(s0, CellIdx::new(2, 2), num(2.0)), num(1.0));
    // writing Empty removes the cell and returns what was there
    assert_eq!(sl.insert(s0, CellIdx::new(2, 2), Value::Empty), num(2.0));
    assert_eq!(get_value(&mut sl, s0, 2, 2), Value::Empty);
}

#[test]
fn provenance_survives_computation() {
    let mut sl = Spanleaf::new();
    let s0 = sl.insert_sheet("A");
    // the formula itself lives in a row default; the computed value keeps
    // that provenance
    sl.insert_row_default(s0, 2, formula("=1+1"));
    let vr = sl.get(s0, CellIdx::new(2, 9)).unwrap();
    assert_eq!(vr.value, num(2.0));
    assert_eq!(vr.source, ValueSource::RowDefault);
}

#[test]
fn repeated_get_is_consistent() {
    let mut sl = Spanleaf::new();
    let s0 = sl.insert_sheet("A");
    sl.insert(s0, CellIdx::new(0, 0), formula("=2*21"));
    let first = sl.get(s0, CellIdx::new(0, 0)).unwrap().value;
    // the second read is served from the cache and agrees
    let second = sl.get(s0, CellIdx::new(0, 0)).unwrap().value;
    assert_eq!(first, num(42.0));
    assert_eq!(second, num(42.0));
}

#[test]
fn power_exponent_limits() {
    let mut sl = Spanleaf::new();
    let s0 = sl.insert_sheet("A");

    // a fractional exponent is refused: no exact power on arbitrary
    // doubles is available
    sl.insert(s0, CellIdx::new(0, 0), formula("=power(4, 0.5)"));
    assert_eq!(sl.get(s0, CellIdx::new(0, 0)).unwrap_err(), Error::OperationUnavailable);

    // so is an exponent beyond the supported magnitude
    sl.insert(s0, CellIdx::new(0, 1), formula("=power(2, 100000)"));
    assert_eq!(sl.get(s0, CellIdx::new(0, 1)).unwrap_err(), Error::OperationUnavailable);

    // the largest supported exponent still works
    sl.insert(s0, CellIdx::new(0, 2), formula("=power(2, 16)"));
    assert_eq!(get_value(&mut sl, s0, 0, 2), num(65536.0));

    // negative zero is an integral exponent
    sl.insert(s0, CellIdx::new(0, 3), formula("=power(7, 0-0)"));
    assert_eq!(get_value(&mut sl, s0, 0, 3), num(1.0));
}

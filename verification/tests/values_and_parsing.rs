//! Tests of the value domain, the parser, the evaluator on bare trees, and
//! the sheet with its shell-offset addressing.
use spanleaf_core::Error;
use spanleaf_core::Spanleaf;
use spanleaf_core::cell::{CellIdx, Value};
use spanleaf_core::formula::Formula;
use spanleaf_core::language::{Expr, eval};
use spanleaf_core::sheet::{Sheet, SheetIdx, ValueResult, cell_ref_to_shell_off};

fn num(f: f64) -> Value {
    Value::Number(f.to_bits())
}

fn num_expr(f: f64) -> Expr {
    Expr::Number(f.to_bits())
}

fn evaluate_dummy(expr: &Expr) -> Result<Value, Error> {
    let mut sl = Spanleaf::new();
    let sheet = sl.insert_sheet("dummy");
    let mut dependencies: Vec<(SheetIdx, CellIdx)> = Vec::new();
    eval(expr, &mut sl, sheet, &mut dependencies, 32)
}

#[test]
fn parsing() {
    let good_strings = [
        "1",
        " 1",
        "   1  ",
        "2+2",
        "3.14 / 2.02",
        "6.11e23",
        "9.1093837e-31",
        "-1",
        "-626.1",
        "-1234.5678e-9",
        "(2+2) - (6.1*2)",
        "sum(2, 3, 4)",
        "sum(2, 3, 4,)", // trailing comma let's go
        "[0, 0]",
        "[2, 3]",
        "4 * [2, 2+2]",
        "&[3, [2, 1]]",
        "sheet_name[0, 0]",
        "bad_sheet_name[1, 2]",
        "&sheet_name[6, 6]",
        "'words are words'",
    ];

    for s in good_strings {
        let parsed = Formula::parse(s);
        assert!(parsed.is_ok(), "{} failed to parse", s);
    }
}

#[test]
fn evaluation() {
    let seven = num_expr(7.0);
    let five = num_expr(5.0);

    let sum = Expr::Add(Box::new(seven.duplicate()), Box::new(five.duplicate()));
    let diff = Expr::Sub(Box::new(seven), Box::new(five));
    let sum = Expr::Add(Box::new(sum), Box::new(diff));

    let x = evaluate_dummy(&sum).unwrap();
    assert_eq!(x, num((7.0 + 5.0) + (7.0 - 5.0)));
}

#[test]
fn function() {
    let mut args: Vec<Expr> = Vec::new();
    for _ in 0..1000000 {
        args.push(num_expr(7.0));
    }
    let call = Expr::Call("average".to_string(), args);

    let start = std::time::Instant::now();
    let res = evaluate_dummy(&call).unwrap();
    let end = std::time::Instant::now();

    assert_eq!(res, num(7.0));
    println!("{:?}", end - start);
}

#[test]
fn insert_and_get() {
    let mut sheet = Sheet::new("");
    let nil = sheet.insert(CellIdx::new(12, 12), num(7.0));
    assert_eq!(nil, Value::Empty);

    let seven = sheet.insert(CellIdx::new(12, 12), num(18.0));
    assert_eq!(seven, num(7.0));

    let eighteen = sheet.get_formula(CellIdx::new(12, 12));
    assert_eq!(eighteen.value, num(18.0));
}

#[test]
fn row_col_defaults() {
    let mut sheet = Sheet::new("");
    let row_1 = Value::try_from("row 1").unwrap();
    let col_1 = Value::try_from("col 1").unwrap();
    sheet.insert_row_default(1, row_1.duplicate());
    sheet.insert_col_default(1, col_1.duplicate());

    let r0c0 = sheet.get_formula(CellIdx::new(0, 0));
    let r0c1 = sheet.get_formula(CellIdx::new(0, 1));
    let r1c0 = sheet.get_formula(CellIdx::new(1, 0));
    let r1c1 = sheet.get_formula(CellIdx::new(1, 1));

    assert_eq!(r0c0, ValueResult::native(Value::Empty));
    assert_eq!(r0c1, ValueResult::col(col_1.duplicate()));
    assert_eq!(r1c0, ValueResult::row(row_1));
    // column default takes priority
    assert_eq!(r1c1, ValueResult::col(col_1));
}

#[test]
fn empty_is_identity_of_every_operator() {
    let samples = [num(3.5), Value::Bool(true), Value::Text("t".to_string()), Value::Empty];
    for v in samples {
        assert_eq!(Value::Empty.add(v.duplicate()).unwrap(), v);
        assert_eq!(v.duplicate().add(Value::Empty).unwrap(), v);
        assert_eq!(Value::Empty.sub(v.duplicate()).unwrap(), v);
        assert_eq!(v.duplicate().sub(Value::Empty).unwrap(), v);
        assert_eq!(Value::Empty.mul(v.duplicate()).unwrap(), v);
        assert_eq!(v.duplicate().mul(Value::Empty).unwrap(), v);
        assert_eq!(Value::Empty.div(v.duplicate()).unwrap(), v);
        assert_eq!(v.duplicate().div(Value::Empty).unwrap(), v);
    }
}

#[test]
fn value_operator_matrix() {
    assert_eq!(num(2.0).add(num(3.0)).unwrap(), num(5.0));
    assert_eq!(num(2.0).sub(num(3.0)).unwrap(), num(-1.0));
    assert_eq!(num(2.0).mul(num(3.0)).unwrap(), num(6.0));
    assert_eq!(num(6.0).div(num(3.0)).unwrap(), num(2.0));

    let ab = Value::Text("ab".to_string());
    let cd = Value::Text("cd".to_string());
    assert_eq!(ab.duplicate().add(cd.duplicate()).unwrap(), Value::Text("abcd".to_string()));
    assert_eq!(ab.duplicate().sub(cd.duplicate()).unwrap_err(), Error::OperationUnavailable);
    assert_eq!(
        Value::Bool(true).add(Value::Bool(false)).unwrap_err(),
        Error::OperationUnavailable
    );
    assert_eq!(num(1.0).add(ab).unwrap_err(), Error::OperationUnavailable);

    assert_eq!(num(2.5).neg().unwrap(), num(-2.5));
    assert_eq!(Value::Bool(true).neg().unwrap(), Value::Bool(false));
    assert_eq!(Value::Empty.neg().unwrap(), Value::Empty);
    assert_eq!(cd.neg().unwrap_err(), Error::OperationUnavailable);
}

#[test]
fn value_equality_is_ieee() {
    let nan = Value::Number(f64::NAN.to_bits());
    assert!(nan != nan.duplicate());
    assert_eq!(num(0.0), Value::Number((-0.0f64).to_bits()));
    assert_eq!(num(1.5), num(1.5));
    assert!(num(1.5) != num(2.5));
    // formulas are never equal, not even to themselves
    let f = Value::try_from("=1").unwrap();
    assert!(f != f.duplicate());
}

#[test]
fn formula_round_trips_by_script() {
    let sources = ["1+2*3", "sum(1, 2,)", "  'text' ", "&s[0, 1]"];
    for s in sources {
        let f = Formula::parse(s).unwrap();
        assert_eq!(f.script, s);
    }
    match Value::try_from("=1+2").unwrap() {
        Value::Formula(f) => assert_eq!(f.script, "1+2"),
        other => panic!("expected a formula, got {:?}", other),
    }
}

#[test]
fn string_values_and_bad_formulas() {
    assert_eq!(Value::try_from("hello").unwrap(), Value::Text("hello".to_string()));
    assert_eq!(Value::try_from("").unwrap(), Value::Text(String::new()));
    assert!(Value::try_from("=").is_err());
    assert!(Value::try_from("=1+").is_err());
    assert!(Value::try_from("=('a'").is_err());
    assert!(Value::try_from("=bare_ident").is_err());
    assert!(Value::try_from("=[1]").is_err());
}

#[test]
fn shell_offset_is_injective_near_origin() {
    // every pair in a small square gets a distinct offset
    let side = 20u64;
    let mut seen = std::collections::BTreeSet::new();
    for row in 0..side {
        for col in 0..side {
            let off = cell_ref_to_shell_off(CellIdx::new(row, col));
            assert!(seen.insert(off), "offset collision at ({}, {})", row, col);
        }
    }
    // the documented shell walk: first shells in order
    assert_eq!(cell_ref_to_shell_off(CellIdx::new(0, 0)), 0);
    assert_eq!(cell_ref_to_shell_off(CellIdx::new(0, 1)), 1);
    assert_eq!(cell_ref_to_shell_off(CellIdx::new(1, 1)), 2);
    assert_eq!(cell_ref_to_shell_off(CellIdx::new(1, 0)), 3);
    assert_eq!(cell_ref_to_shell_off(CellIdx::new(0, 2)), 4);
}

#[test]
fn sheet_round_trips_any_pair() {
    let mut sheet = Sheet::new("grid");
    let pairs = [(0u64, 0u64), (0, 1), (1, 0), (1, 1), (2, 1), (1, 2), (1000, 3), (3, 1000)];
    for (i, (r, c)) in pairs.iter().enumerate() {
        sheet.insert(CellIdx::new(*r, *c), num(i as f64));
    }
    for (i, (r, c)) in pairs.iter().enumerate() {
        let got = sheet.get_formula(CellIdx::new(*r, *c));
        assert_eq!(got.value, num(i as f64));
    }
}

#[test]
fn number_literal_forms() {
    let mut sl = Spanleaf::new();
    let s0 = sl.insert_sheet("A");
    let cases: [(&str, f64); 6] = [
        ("=2.5", 2.5),
        ("=6.11e23", 6.11e23),
        ("=9.1093837e-31", 9.1093837e-31),
        ("=1e3", 1000.0),
        ("=0.5e+1", 5.0),
        ("=-626.1", -626.1),
    ];
    for (i, (src, expected)) in cases.iter().enumerate() {
        sl.insert(s0, CellIdx::new(0, i as u64), Value::try_from(*src).unwrap());
        let got = sl.get(s0, CellIdx::new(0, i as u64)).unwrap().value;
        assert_eq!(got, num(*expected), "{}", src);
    }
}

#[test]
fn text_literals_and_concatenation() {
    let mut sl = Spanleaf::new();
    let s0 = sl.insert_sheet("A");
    sl.insert(s0, CellIdx::new(0, 0), Value::try_from("='ab'+'cd'").unwrap());
    assert_eq!(
        sl.get(s0, CellIdx::new(0, 0)).unwrap().value,
        Value::Text("abcd".to_string())
    );
}

#[test]
fn expression_constructors_shape_the_tree() {
    let e = Expr::add(num_expr(1.0), Expr::mul(num_expr(2.0), num_expr(3.0)));
    assert_eq!(evaluate_dummy(&e).unwrap(), num(7.0));
    let e2 = Expr::neg(num_expr(4.0));
    assert_eq!(evaluate_dummy(&e2).unwrap(), num(-4.0));
    let e3 = Expr::sub(num_expr(1.0), num_expr(3.0));
    assert_eq!(evaluate_dummy(&e3).unwrap(), num(-2.0));
    let e4 = Expr::div(num_expr(9.0), num_expr(3.0));
    assert_eq!(evaluate_dummy(&e4).unwrap(), num(3.0));
}

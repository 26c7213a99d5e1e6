//! Cell addresses and the tagged value domain with its partial operators.
use vstd::prelude::*;

use crate::Error;
use crate::formula::Formula;
use crate::numeric::{add_bits, div_bits, mul_bits, sub_bits};
use crate::numeric::{add_bits_exec, div_bits_exec, ieee_eq, mul_bits_exec, neg_bits, sub_bits_exec};
use crate::numeric::{spec_ieee_eq, spec_neg_bits};
use crate::sheet::SheetIdx;

verus! {

/// A cell address: a pair of non-negative row and column indices.
#[derive(Debug, Clone, Copy, PartialEq, Eq, Structural)]
pub struct CellIdx {
    pub row: u64,
    pub col: u64,
}

impl CellIdx {
    pub fn new(row: u64, col: u64) -> (r: Self)
        ensures
            r == (CellIdx { row, col }),
    {
        Self { row, col }
    }
}

/// The content of a cell.
///
/// `Empty` is the absence of content and the identity of the four
/// arithmetic operators. A number is carried as the bit pattern of an
/// IEEE-754 double (see the `numeric` module). A `Ref` is a first-class
/// reference to a cell; a `Formula` is a parsed formula with its source.
#[derive(Debug)]
pub enum Value {
    Empty,
    Bool(bool),
    Number(u64),
    Text(String),
    Ref { sref: SheetIdx, cref: CellIdx },
    Formula(Formula),
}

impl Default for Value {
    fn default() -> (r: Self)
        ensures
            r == Value::Empty,
    {
        Value::Empty
    }
}

/// The mathematical model of a value: the same variant with strings
/// replaced by their character sequences and a formula by its source
/// characters and tree model.
pub enum ValueV {
    Empty,
    Bool(bool),
    Number(u64),
    Text(Seq<char>),
    Ref { sref: SheetIdx, cref: CellIdx },
    Formula(Seq<char>, crate::language::ExprV),
}

/// The model of a value.
pub open spec fn value_view(v: Value) -> ValueV {
    match v {
        Value::Empty => ValueV::Empty,
        Value::Bool(b) => ValueV::Bool(b),
        Value::Number(x) => ValueV::Number(x),
        Value::Text(s) => ValueV::Text(s@),
        Value::Ref { sref, cref } => ValueV::Ref { sref, cref },
        Value::Formula(f) => ValueV::Formula(f.script@, crate::language::expr_view(f.expr)),
    }
}

/// Two values are alike when they have the same model: the same variant
/// with the same content, with strings compared by their characters and
/// formulas compared by source and tree. A copy is like the original.
pub open spec fn value_like(a: Value, b: Value) -> bool {
    value_view(a) == value_view(b)
}

impl Value {
    /// Interprets a string as a cell value: a leading `=` promotes the rest
    /// to a formula parse, failing with `InvalidFormula` exactly when the
    /// grammar rejects it; any other string is stored verbatim as text.
    pub fn try_from(value: &str) -> (r: Result<Value, crate::formula::FormulaError>)
        ensures
            match r {
                Ok(v) => if value@.len() > 0 && value@[0] == '=' {
                    match v {
                        Value::Formula(f) => f.script@ == value@.subrange(1, value@.len() as int)
                            && crate::parser::sp_parse(f.script@) == Some(
                            crate::language::expr_view(f.expr),
                        ),
                        _ => false,
                    }
                } else {
                    value_view(v) == ValueV::Text(value@)
                },
                Err(e) => e == crate::formula::FormulaError::InvalidFormula && value@.len() > 0
                    && value@[0] == '=' && crate::parser::sp_parse(
                    value@.subrange(1, value@.len() as int),
                ) is None,
            },
    {
        let n = value.unicode_len();
        if n > 0 && value.get_char(0) == '=' {
            let body = value.substring_char(1, n);
            match Formula::parse(body) {
                Ok(f) => Ok(Value::Formula(f)),
                Err(e) => Err(e),
            }
        } else {
            Ok(Value::Text(value.to_owned()))
        }
    }

    /// A deep copy, like the original in the sense of [`value_like`].
    pub fn duplicate(&self) -> (r: Value)
        ensures
            value_like(r, *self),
    {
        match self {
            Value::Empty => Value::Empty,
            Value::Bool(b) => Value::Bool(*b),
            Value::Number(x) => Value::Number(*x),
            Value::Text(s) => Value::Text(s.clone()),
            Value::Ref { sref, cref } => Value::Ref { sref: *sref, cref: *cref },
            Value::Formula(f) => Value::Formula(
                Formula { script: f.script.clone(), expr: f.expr.duplicate() },
            ),
        }
    }
}

/// Equality of values: numbers compare as IEEE-754 doubles (a NaN equals
/// nothing), formulas are never equal, and the other variants compare by
/// their content.
pub open spec fn value_eq(a: Value, b: Value) -> bool {
    match (a, b) {
        (Value::Empty, Value::Empty) => true,
        (Value::Bool(x), Value::Bool(y)) => x == y,
        (Value::Number(x), Value::Number(y)) => spec_ieee_eq(x, y),
        (Value::Text(x), Value::Text(y)) => x@ == y@,
        (Value::Ref { sref: xs, cref: xc }, Value::Ref { sref: ys, cref: yc }) => xs == ys && xc
            == yc,
        _ => false,
    }
}

impl PartialEq for Value {
    fn eq(&self, other: &Self) -> (r: bool) {
        match (self, other) {
            (Value::Empty, Value::Empty) => true,
            (Value::Bool(x), Value::Bool(y)) => *x == *y,
            (Value::Number(x), Value::Number(y)) => ieee_eq(*x, *y),
            (Value::Text(x), Value::Text(y)) => *x == *y,
            (Value::Ref { sref: xs, cref: xc }, Value::Ref { sref: ys, cref: yc }) => *xs == *ys
                && *xc == *yc,
            _ => false,
        }
    }
}

impl vstd::std_specs::cmp::PartialEqSpecImpl for Value {
    open spec fn obeys_eq_spec() -> bool {
        true
    }

    open spec fn eq_spec(&self, other: &Self) -> bool {
        value_eq(*self, *other)
    }
}

/// The model of an operator result: the model of the value on success, the
/// error unchanged.
pub open spec fn res_view(r: Result<Value, Error>) -> Result<ValueV, Error> {
    match r {
        Ok(v) => Ok(value_view(v)),
        Err(e) => Err(e),
    }
}

/// The models of a sequence of values, element by element.
pub open spec fn values_view(s: Seq<Value>) -> Seq<ValueV>
    decreases s,
{
    if s.len() == 0 {
        Seq::empty()
    } else {
        seq![value_view(s[0])] + values_view(s.drop_first())
    }
}

/// The model sequence has the same length and the element models in place.
pub proof fn lemma_values_view_index(s: Seq<Value>)
    ensures
        values_view(s).len() == s.len(),
        forall|i: int| 0 <= i < s.len() ==> values_view(s)[i] == value_view(#[trigger] s[i]),
    decreases s.len(),
{
    if s.len() > 0 {
        lemma_values_view_index(s.drop_first());
        assert forall|i: int| 0 <= i < s.len() implies values_view(s)[i] == value_view(
            #[trigger] s[i],
        ) by {
            if i > 0 {
                assert(s.drop_first()[i - 1] == s[i]);
                assert(values_view(s)[i] == values_view(s.drop_first())[i - 1]);
            }
        }
    }
}

/// Model of a pushed sequence: the model of the sequence with the model of
/// the element at the end.
pub proof fn lemma_values_view_push(s: Seq<Value>, v: Value)
    ensures
        values_view(s.push(v)) == values_view(s).push(value_view(v)),
    decreases s.len(),
{
    if s.len() == 0 {
        assert(s.push(v)[0] == v);
        assert(s.push(v).drop_first() =~= Seq::<Value>::empty());
        assert(values_view(Seq::<Value>::empty()) == Seq::<ValueV>::empty());
        assert(values_view(s.push(v)) == seq![value_view(v)] + Seq::<ValueV>::empty());
        assert(values_view(s) == Seq::<ValueV>::empty());
        assert(values_view(s.push(v)) =~= values_view(s).push(value_view(v)));
    } else {
        assert(s.push(v)[0] == s[0]);
        assert(s.push(v).drop_first() =~= s.drop_first().push(v));
        lemma_values_view_push(s.drop_first(), v);
        assert(values_view(s.push(v)) == seq![value_view(s[0])] + values_view(
            s.drop_first(),
        ).push(value_view(v)));
        assert(values_view(s.push(v)) =~= values_view(s).push(value_view(v)));
    }
}

/// What addition returns: the other operand beside `Empty`, the IEEE sum
/// of two numbers, the concatenation of two texts, and an error otherwise.
pub open spec fn add_v(a: ValueV, b: ValueV) -> Result<ValueV, Error> {
    match (a, b) {
        (ValueV::Empty, _) => Ok(b),
        (_, ValueV::Empty) => Ok(a),
        (ValueV::Number(x), ValueV::Number(y)) => Ok(ValueV::Number(add_bits(x, y))),
        (ValueV::Text(x), ValueV::Text(y)) => Ok(ValueV::Text(x + y)),
        _ => Err(Error::OperationUnavailable),
    }
}

/// What subtraction returns: the other operand beside `Empty`, the IEEE
/// difference of two numbers, and an error otherwise.
pub open spec fn sub_v(a: ValueV, b: ValueV) -> Result<ValueV, Error> {
    match (a, b) {
        (ValueV::Empty, _) => Ok(b),
        (_, ValueV::Empty) => Ok(a),
        (ValueV::Number(x), ValueV::Number(y)) => Ok(ValueV::Number(sub_bits(x, y))),
        _ => Err(Error::OperationUnavailable),
    }
}

/// What multiplication returns: the other operand beside `Empty`, the IEEE
/// product of two numbers, and an error otherwise.
pub open spec fn mul_v(a: ValueV, b: ValueV) -> Result<ValueV, Error> {
    match (a, b) {
        (ValueV::Empty, _) => Ok(b),
        (_, ValueV::Empty) => Ok(a),
        (ValueV::Number(x), ValueV::Number(y)) => Ok(ValueV::Number(mul_bits(x, y))),
        _ => Err(Error::OperationUnavailable),
    }
}

/// What division returns: the other operand beside `Empty`, the IEEE
/// quotient of two numbers (a zero divisor yields an infinity or a NaN,
/// never an error), and an error otherwise.
pub open spec fn div_v(a: ValueV, b: ValueV) -> Result<ValueV, Error> {
    match (a, b) {
        (ValueV::Empty, _) => Ok(b),
        (_, ValueV::Empty) => Ok(a),
        (ValueV::Number(x), ValueV::Number(y)) => Ok(ValueV::Number(div_bits(x, y))),
        _ => Err(Error::OperationUnavailable),
    }
}

/// What negation returns: `Empty` unchanged, the logical complement of a
/// boolean, the IEEE negation of a number, and an error otherwise.
pub open spec fn neg_v(a: ValueV) -> Result<ValueV, Error> {
    match a {
        ValueV::Empty => Ok(ValueV::Empty),
        ValueV::Bool(b) => Ok(ValueV::Bool(!b)),
        ValueV::Number(x) => Ok(ValueV::Number(spec_neg_bits(x))),
        _ => Err(Error::OperationUnavailable),
    }
}

impl Value {
    pub fn add(self, rhs: Value) -> (r: Result<Value, Error>)
        ensures
            res_view(r) == add_v(value_view(self), value_view(rhs)),
    {
        match (self, rhs) {
            (Value::Empty, other) => Ok(other),
            (other, Value::Empty) => Ok(other),
            (Value::Number(x), Value::Number(y)) => Ok(Value::Number(add_bits_exec(x, y))),
            (Value::Text(x), Value::Text(y)) => Ok(Value::Text(x.concat(y.as_str()))),
            _ => Err(Error::OperationUnavailable),
        }
    }

    pub fn sub(self, rhs: Value) -> (r: Result<Value, Error>)
        ensures
            res_view(r) == sub_v(value_view(self), value_view(rhs)),
    {
        match (self, rhs) {
            (Value::Empty, other) => Ok(other),
            (other, Value::Empty) => Ok(other),
            (Value::Number(x), Value::Number(y)) => Ok(Value::Number(sub_bits_exec(x, y))),
            _ => Err(Error::OperationUnavailable),
        }
    }

    pub fn mul(self, rhs: Value) -> (r: Result<Value, Error>)
        ensures
            res_view(r) == mul_v(value_view(self), value_view(rhs)),
    {
        match (self, rhs) {
            (Value::Empty, other) => Ok(other),
            (other, Value::Empty) => Ok(other),
            (Value::Number(x), Value::Number(y)) => Ok(Value::Number(mul_bits_exec(x, y))),
            _ => Err(Error::OperationUnavailable),
        }
    }

    pub fn div(self, rhs: Value) -> (r: Result<Value, Error>)
        ensures
            res_view(r) == div_v(value_view(self), value_view(rhs)),
    {
        match (self, rhs) {
            (Value::Empty, other) => Ok(other),
            (other, Value::Empty) => Ok(other),
            (Value::Number(x), Value::Number(y)) => Ok(Value::Number(div_bits_exec(x, y))),
            _ => Err(Error::OperationUnavailable),
        }
    }

    pub fn neg(self) -> (r: Result<Value, Error>)
        ensures
            res_view(r) == neg_v(value_view(self)),
    {
        match self {
            Value::Empty => Ok(Value::Empty),
            Value::Bool(b) => Ok(Value::Bool(!b)),
            Value::Number(x) => Ok(Value::Number(neg_bits(x))),
            _ => Err(Error::OperationUnavailable),
        }
    }
}

/// `Empty` is a left and right identity of all four arithmetic operators:
/// `Empty op v` and `v op Empty` both return `v` unchanged, for every value
/// `v` and every operator among addition, subtraction, multiplication and
/// division.
pub proof fn lemma_empty_identity(v: ValueV)
    ensures
        add_v(ValueV::Empty, v) == Ok::<ValueV, Error>(v),
        add_v(v, ValueV::Empty) == Ok::<ValueV, Error>(v),
        sub_v(ValueV::Empty, v) == Ok::<ValueV, Error>(v),
        sub_v(v, ValueV::Empty) == Ok::<ValueV, Error>(v),
        mul_v(ValueV::Empty, v) == Ok::<ValueV, Error>(v),
        mul_v(v, ValueV::Empty) == Ok::<ValueV, Error>(v),
        div_v(ValueV::Empty, v) == Ok::<ValueV, Error>(v),
        div_v(v, ValueV::Empty) == Ok::<ValueV, Error>(v),
{
}

} // verus!

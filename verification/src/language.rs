//! The formula expression tree, the function registry and the recursive
//! evaluator.
use vstd::prelude::*;

use crate::{Error, Spanleaf};
use crate::cell::{CellIdx, Value, ValueV, add_v, div_v, mul_v, neg_v, res_view, sub_v, value_view, values_view, lemma_values_view_index};
use crate::numeric::{MAGNITUDE_MASK, ONE_BITS, SIGN_MASK, ZERO_BITS};
use crate::numeric::{abs_bits, bits_of_u64, bits_of_u64_exec, div_bits, div_bits_exec, mul_bits, mul_bits_exec, spec_abs_bits, trunc_bits, trunc_bits_exec};
use crate::sheet::SheetIdx;

verus! {

/// A parsed formula expression.
///
/// `CellRef` carries an optional sheet-name expression and the row and
/// column expressions; it evaluates to a first-class reference value.
/// `CellDeref` resolves such a reference to the value of the target cell.
#[derive(Debug)]
pub enum Expr {
    Number(u64),
    Text(String),
    Bool(bool),
    Sheet(String),
    CellRef(Option<Box<Expr>>, Box<Expr>, Box<Expr>),
    CellDeref(Box<Expr>),
    Neg(Box<Expr>),
    Add(Box<Expr>, Box<Expr>),
    Sub(Box<Expr>, Box<Expr>),
    Mul(Box<Expr>, Box<Expr>),
    Div(Box<Expr>, Box<Expr>),
    /// Function name, then the argument list.
    Call(String, Vec<Expr>),
}

/// Structural size of an expression, the termination measure of the
/// evaluator: every node counts, and a call node counts once more than
/// its argument list.
pub open spec fn expr_size(e: Expr) -> nat
    decreases e,
{
    match e {
        Expr::Number(_) => 1,
        Expr::Text(_) => 1,
        Expr::Bool(_) => 1,
        Expr::Sheet(_) => 1,
        Expr::CellRef(sheet, row, col) => {
            let sheet_size: nat = match sheet {
                Some(b) => expr_size(*b),
                None => 0,
            };
            1 + sheet_size + expr_size(*row) + expr_size(*col)
        },
        Expr::CellDeref(b) => 1 + expr_size(*b),
        Expr::Neg(b) => 1 + expr_size(*b),
        Expr::Add(a, b) => 1 + expr_size(*a) + expr_size(*b),
        Expr::Sub(a, b) => 1 + expr_size(*a) + expr_size(*b),
        Expr::Mul(a, b) => 1 + expr_size(*a) + expr_size(*b),
        Expr::Div(a, b) => 1 + expr_size(*a) + expr_size(*b),
        Expr::Call(_, args) => 2 + exprs_size(args@),
    }
}

/// Total structural size of a sequence of expressions.
pub open spec fn exprs_size(s: Seq<Expr>) -> nat
    decreases s,
{
    if s.len() == 0 {
        0
    } else {
        expr_size(s[0]) + exprs_size(s.drop_first())
    }
}

/// Every element of a sequence is no larger than the whole sequence.
pub proof fn lemma_exprs_size_element(s: Seq<Expr>, i: int)
    requires
        0 <= i < s.len(),
    ensures
        expr_size(s[i]) <= exprs_size(s),
    decreases s.len(),
{
    if i == 0 {
    } else {
        lemma_exprs_size_element(s.drop_first(), i - 1);
        assert(s.drop_first()[i - 1] == s[i]);
    }
}

/// The mathematical model of an expression: the same tree with strings
/// replaced by their character sequences.
pub enum ExprV {
    Number(u64),
    Text(Seq<char>),
    Bool(bool),
    Sheet(Seq<char>),
    CellRef(Option<Box<ExprV>>, Box<ExprV>, Box<ExprV>),
    CellDeref(Box<ExprV>),
    Neg(Box<ExprV>),
    Add(Box<ExprV>, Box<ExprV>),
    Sub(Box<ExprV>, Box<ExprV>),
    Mul(Box<ExprV>, Box<ExprV>),
    Div(Box<ExprV>, Box<ExprV>),
    Call(Seq<char>, Seq<ExprV>),
}

/// The model of an expression tree.
pub open spec fn expr_view(e: Expr) -> ExprV
    decreases e,
{
    match e {
        Expr::Number(b) => ExprV::Number(b),
        Expr::Text(s) => ExprV::Text(s@),
        Expr::Bool(b) => ExprV::Bool(b),
        Expr::Sheet(s) => ExprV::Sheet(s@),
        Expr::CellRef(sheet, row, col) => ExprV::CellRef(
            match sheet {
                Some(b) => Some(Box::new(expr_view(*b))),
                None => None,
            },
            Box::new(expr_view(*row)),
            Box::new(expr_view(*col)),
        ),
        Expr::CellDeref(b) => ExprV::CellDeref(Box::new(expr_view(*b))),
        Expr::Neg(b) => ExprV::Neg(Box::new(expr_view(*b))),
        Expr::Add(a, b) => ExprV::Add(Box::new(expr_view(*a)), Box::new(expr_view(*b))),
        Expr::Sub(a, b) => ExprV::Sub(Box::new(expr_view(*a)), Box::new(expr_view(*b))),
        Expr::Mul(a, b) => ExprV::Mul(Box::new(expr_view(*a)), Box::new(expr_view(*b))),
        Expr::Div(a, b) => ExprV::Div(Box::new(expr_view(*a)), Box::new(expr_view(*b))),
        Expr::Call(name, args) => ExprV::Call(name@, exprs_view(args@)),
    }
}

/// The models of a sequence of expressions, element by element.
pub open spec fn exprs_view(s: Seq<Expr>) -> Seq<ExprV>
    decreases s,
{
    if s.len() == 0 {
        Seq::empty()
    } else {
        seq![expr_view(s[0])] + exprs_view(s.drop_first())
    }
}

/// The model sequence has the same length and the element models in place.
pub proof fn lemma_exprs_view_index(s: Seq<Expr>)
    ensures
        exprs_view(s).len() == s.len(),
        forall|i: int| 0 <= i < s.len() ==> exprs_view(s)[i] == expr_view(#[trigger] s[i]),
    decreases s.len(),
{
    if s.len() > 0 {
        lemma_exprs_view_index(s.drop_first());
        assert forall|i: int| 0 <= i < s.len() implies exprs_view(s)[i] == expr_view(#[trigger] s[i]) by {
            if i > 0 {
                assert(s.drop_first()[i - 1] == s[i]);
                assert(exprs_view(s)[i] == exprs_view(s.drop_first())[i - 1]);
            }
        }
    }
}

/// Two sequences of expressions with equal element models have equal models.
pub proof fn lemma_exprs_view_pointwise(a: Seq<Expr>, b: Seq<Expr>)
    requires
        a.len() == b.len(),
        forall|i: int| 0 <= i < a.len() ==> expr_view(#[trigger] a[i]) == expr_view(b[i]),
    ensures
        exprs_view(a) == exprs_view(b),
    decreases a.len(),
{
    if a.len() > 0 {
        assert forall|i: int| 0 <= i < a.drop_first().len() implies expr_view(
            #[trigger] a.drop_first()[i],
        ) == expr_view(b.drop_first()[i]) by {
            assert(a.drop_first()[i] == a[i + 1]);
            assert(b.drop_first()[i] == b[i + 1]);
        }
        lemma_exprs_view_pointwise(a.drop_first(), b.drop_first());
        assert(expr_view(a[0]) == expr_view(b[0]));
    }
}

/// Model of a pushed sequence: the model of the sequence with the model of
/// the element at the end.
pub proof fn lemma_exprs_view_push(s: Seq<Expr>, e: Expr)
    ensures
        exprs_view(s.push(e)) == exprs_view(s).push(expr_view(e)),
    decreases s.len(),
{
    if s.len() == 0 {
        assert(s.push(e)[0] == e);
        assert(s.push(e).drop_first() =~= Seq::<Expr>::empty());
        assert(exprs_view(Seq::<Expr>::empty()) == Seq::<ExprV>::empty());
        assert(exprs_view(s.push(e)) == seq![expr_view(e)] + Seq::<ExprV>::empty());
        assert(exprs_view(s) == Seq::<ExprV>::empty());
        assert(exprs_view(s.push(e)) =~= exprs_view(s).push(expr_view(e)));
    } else {
        assert(s.push(e)[0] == s[0]);
        assert(s.push(e).drop_first() =~= s.drop_first().push(e));
        lemma_exprs_view_push(s.drop_first(), e);
        assert(exprs_view(s.push(e)) == seq![expr_view(s[0])] + exprs_view(s.drop_first()).push(
            expr_view(e),
        ));
        assert(exprs_view(s.push(e)) =~= exprs_view(s).push(expr_view(e)));
    }
}

/// Two expressions are alike when they have the same model: the same shape,
/// with strings compared by their characters. A copy is like the original.
pub open spec fn expr_like(a: Expr, b: Expr) -> bool {
    expr_view(a) == expr_view(b)
}

impl Expr {
    /// A deep copy, like the original in the sense of [`expr_like`].
    pub fn duplicate(&self) -> (r: Expr)
        ensures
            expr_like(r, *self),
        decreases expr_size(*self),
    {
        match self {
            Expr::Number(x) => Expr::Number(*x),
            Expr::Text(s) => Expr::Text(s.clone()),
            Expr::Bool(b) => Expr::Bool(*b),
            Expr::Sheet(s) => Expr::Sheet(s.clone()),
            Expr::CellRef(sheet, row, col) => {
                let sheet_copy: Option<Box<Expr>> = match sheet {
                    Some(b) => Some(Box::new((**b).duplicate())),
                    None => None,
                };
                Expr::CellRef(sheet_copy, Box::new((**row).duplicate()), Box::new((**col).duplicate()))
            },
            Expr::CellDeref(b) => Expr::CellDeref(Box::new((**b).duplicate())),
            Expr::Neg(b) => Expr::Neg(Box::new((**b).duplicate())),
            Expr::Add(a, b) => Expr::Add(Box::new((**a).duplicate()), Box::new((**b).duplicate())),
            Expr::Sub(a, b) => Expr::Sub(Box::new((**a).duplicate()), Box::new((**b).duplicate())),
            Expr::Mul(a, b) => Expr::Mul(Box::new((**a).duplicate()), Box::new((**b).duplicate())),
            Expr::Div(a, b) => Expr::Div(Box::new((**a).duplicate()), Box::new((**b).duplicate())),
            Expr::Call(name, args) => {
                let mut copies: Vec<Expr> = Vec::new();
                let n = args.len();
                for i in 0..n
                    invariant
                        copies@.len() == i,
                        n == args@.len(),
                        forall|j: int| 0 <= j < i ==> expr_view(#[trigger] copies@[j]) == expr_view(
                            args@[j],
                        ),
                        expr_size(*self) == 2 + exprs_size(args@),
                {
                    proof {
                        lemma_exprs_size_element(args@, i as int);
                    }
                    copies.push(args[i].duplicate());
                }
                proof {
                    lemma_exprs_view_pointwise(copies@, args@);
                }
                Expr::Call(name.clone(), copies)
            },
        }
    }

    pub fn cell_ref(sref: Option<Expr>, row: Expr, col: Expr) -> (r: Self)
        ensures
            r == Expr::CellRef(
                match sref {
                    Some(e) => Some(Box::new(e)),
                    None => None::<Box<Expr>>,
                },
                Box::new(row),
                Box::new(col),
            ),
    {
        match sref {
            Some(e) => Expr::CellRef(Some(Box::new(e)), Box::new(row), Box::new(col)),
            None => Expr::CellRef(None, Box::new(row), Box::new(col)),
        }
    }

    pub fn cell_deref(cref: Expr) -> (r: Self)
        ensures
            r == Expr::CellDeref(Box::new(cref)),
    {
        Expr::CellDeref(Box::new(cref))
    }

    pub fn neg(expr: Expr) -> (r: Self)
        ensures
            r == Expr::Neg(Box::new(expr)),
    {
        Expr::Neg(Box::new(expr))
    }

    pub fn add(lhs: Expr, rhs: Expr) -> (r: Self)
        ensures
            r == Expr::Add(Box::new(lhs), Box::new(rhs)),
    {
        Expr::Add(Box::new(lhs), Box::new(rhs))
    }

    pub fn sub(lhs: Expr, rhs: Expr) -> (r: Self)
        ensures
            r == Expr::Sub(Box::new(lhs), Box::new(rhs)),
    {
        Expr::Sub(Box::new(lhs), Box::new(rhs))
    }

    pub fn mul(lhs: Expr, rhs: Expr) -> (r: Self)
        ensures
            r == Expr::Mul(Box::new(lhs), Box::new(rhs)),
    {
        Expr::Mul(Box::new(lhs), Box::new(rhs))
    }

    pub fn div(lhs: Expr, rhs: Expr) -> (r: Self)
        ensures
            r == Expr::Div(Box::new(lhs), Box::new(rhs)),
    {
        Expr::Div(Box::new(lhs), Box::new(rhs))
    }
}

/// What `is_blank` returns: whether the value is `Empty`.
pub open spec fn is_blank_v(v: ValueV) -> ValueV {
    ValueV::Bool(v is Empty)
}

/// What `is_formula` returns: whether the value is an unevaluated formula.
pub open spec fn is_formula_v(v: ValueV) -> ValueV {
    ValueV::Bool(v is Formula)
}

/// What `abs` returns: the absolute value of a number, an error otherwise.
pub open spec fn abs_v(v: ValueV) -> Result<ValueV, Error> {
    match v {
        ValueV::Number(b) => Ok(ValueV::Number(spec_abs_bits(b))),
        _ => Err(Error::RefMustBeNumber),
    }
}

/// The power of a base by repeated IEEE multiplication: `n` factors of
/// `base` over `1.0`.
pub open spec fn pow_bits(base: u64, n: nat) -> u64
    decreases n,
{
    if n == 0 {
        ONE_BITS
    } else {
        mul_bits(base, pow_bits(base, (n - 1) as nat))
    }
}

/// The largest exponent magnitude `power` accepts.
pub const POWER_EXP_LIMIT: u64 = 65536;

/// Whether a number is an exponent `power` supports: an integer whose
/// magnitude is at most [`POWER_EXP_LIMIT`]. Truncating the magnitude and
/// converting it back reproduces the number exactly when and only when it
/// is integral and in converting range.
pub open spec fn power_exp_ok(e: u64) -> bool {
    &&& bits_of_u64(trunc_bits(spec_abs_bits(e))) == spec_abs_bits(e)
    &&& trunc_bits(spec_abs_bits(e)) <= POWER_EXP_LIMIT
}

/// What `power` returns on two numbers: the base raised to the integer
/// exponent by repeated multiplication, the reciprocal of that power for a
/// negative exponent. A fractional exponent, or one beyond
/// [`POWER_EXP_LIMIT`] in magnitude, is an error: no exact power on
/// arbitrary doubles is available to verified code. Anything but two
/// numbers is an error too.
pub open spec fn power_v(base: ValueV, exp: ValueV) -> Result<ValueV, Error> {
    match (base, exp) {
        (ValueV::Number(b), ValueV::Number(e)) => if !power_exp_ok(e) {
            Err(Error::OperationUnavailable)
        } else if e & SIGN_MASK == 0 {
            Ok(ValueV::Number(pow_bits(b, trunc_bits(e) as nat)))
        } else {
            Ok(
                ValueV::Number(
                    div_bits(ONE_BITS, pow_bits(b, trunc_bits(spec_abs_bits(e)) as nat)),
                ),
            )
        },
        _ => Err(Error::RefMustBeNumber),
    }
}

/// A left fold of addition over values, started from the accumulator; the
/// first error stops the fold.
pub open spec fn sum_v_from(acc: ValueV, vs: Seq<ValueV>) -> Result<ValueV, Error>
    decreases vs.len(),
{
    if vs.len() == 0 {
        Ok(acc)
    } else {
        match add_v(acc, vs[0]) {
            Ok(a2) => sum_v_from(a2, vs.drop_first()),
            Err(e) => Err(e),
        }
    }
}

/// What `sum` returns: addition folded over the values from `Empty`.
pub open spec fn sum_v(vs: Seq<ValueV>) -> Result<ValueV, Error> {
    sum_v_from(ValueV::Empty, vs)
}

/// What `average` returns: the sum divided by the count; zero on an empty
/// argument list.
pub open spec fn average_v(vs: Seq<ValueV>) -> Result<ValueV, Error> {
    if vs.len() == 0 {
        Ok(ValueV::Number(ZERO_BITS))
    } else {
        match sum_v(vs) {
            Ok(s) => div_v(s, ValueV::Number(bits_of_u64(vs.len() as u64))),
            Err(e) => Err(e),
        }
    }
}

/// The result of evaluation, for the expressions whose result does not
/// depend on the engine state: literals, a sheet name, arithmetic over such
/// expressions, and the calls that are decided before their arguments are
/// evaluated (the constant functions, an unknown name, a wrong arity).
/// `None` leaves the result to the stateful contract of the evaluator.
pub open spec fn eval_pure(e: ExprV) -> Option<Result<ValueV, Error>>
    decreases e,
{
    match e {
        ExprV::Number(b) => Some(Ok(ValueV::Number(b))),
        ExprV::Text(t) => Some(Ok(ValueV::Text(t))),
        ExprV::Bool(b) => Some(Ok(ValueV::Bool(b))),
        ExprV::Sheet(name) => Some(Ok(ValueV::Text(name))),
        ExprV::CellRef(_, _, _) => None,
        ExprV::CellDeref(_) => None,
        ExprV::Neg(b) => match eval_pure(*b) {
            Some(Ok(v)) => Some(neg_v(v)),
            Some(Err(e2)) => Some(Err(e2)),
            None => None,
        },
        ExprV::Add(a, b) => match eval_pure(*a) {
            Some(Ok(va)) => match eval_pure(*b) {
                Some(Ok(vb)) => Some(add_v(va, vb)),
                Some(Err(e2)) => Some(Err(e2)),
                None => None,
            },
            Some(Err(e2)) => Some(Err(e2)),
            None => None,
        },
        ExprV::Sub(a, b) => match eval_pure(*a) {
            Some(Ok(va)) => match eval_pure(*b) {
                Some(Ok(vb)) => Some(sub_v(va, vb)),
                Some(Err(e2)) => Some(Err(e2)),
                None => None,
            },
            Some(Err(e2)) => Some(Err(e2)),
            None => None,
        },
        ExprV::Mul(a, b) => match eval_pure(*a) {
            Some(Ok(va)) => match eval_pure(*b) {
                Some(Ok(vb)) => Some(mul_v(va, vb)),
                Some(Err(e2)) => Some(Err(e2)),
                None => None,
            },
            Some(Err(e2)) => Some(Err(e2)),
            None => None,
        },
        ExprV::Div(a, b) => match eval_pure(*a) {
            Some(Ok(va)) => match eval_pure(*b) {
                Some(Ok(vb)) => Some(div_v(va, vb)),
                Some(Err(e2)) => Some(Err(e2)),
                None => None,
            },
            Some(Err(e2)) => Some(Err(e2)),
            None => None,
        },
        ExprV::Call(name, args) => if name == "true"@ {
            Some(Ok(ValueV::Bool(true)))
        } else if name == "false"@ {
            Some(Ok(ValueV::Bool(false)))
        } else if name == "is_blank"@ {
            if args.len() == 0 {
                Some(Err(Error::InsufficientArgs))
            } else if args.len() > 1 {
                Some(Err(Error::TooManyArgs))
            } else {
                match eval_pure(args[0]) {
                    Some(Ok(v)) => Some(Ok(is_blank_v(v))),
                    Some(Err(e)) => Some(Err(e)),
                    None => None,
                }
            }
        } else if name == "is_formula"@ {
            if args.len() == 0 {
                Some(Err(Error::InsufficientArgs))
            } else if args.len() > 1 {
                Some(Err(Error::TooManyArgs))
            } else {
                match eval_pure(args[0]) {
                    Some(Ok(v)) => Some(Ok(is_formula_v(v))),
                    Some(Err(e)) => Some(Err(e)),
                    None => None,
                }
            }
        } else if name == "abs"@ {
            if args.len() == 0 {
                Some(Err(Error::InsufficientArgs))
            } else if args.len() > 1 {
                Some(Err(Error::TooManyArgs))
            } else {
                match eval_pure(args[0]) {
                    Some(Ok(v)) => Some(abs_v(v)),
                    Some(Err(e)) => Some(Err(e)),
                    None => None,
                }
            }
        } else if name == "power"@ {
            if args.len() == 2 {
                match eval_pure(args[0]) {
                    Some(Ok(b)) => match eval_pure(args[1]) {
                        Some(Ok(x)) => Some(power_v(b, x)),
                        Some(Err(e)) => Some(Err(e)),
                        None => None,
                    },
                    Some(Err(e)) => Some(Err(e)),
                    None => None,
                }
            } else if args.len() > 2 {
                Some(Err(Error::TooManyArgs))
            } else {
                Some(Err(Error::InsufficientArgs))
            }
        } else if name == "sum"@ {
            match eval_pure_args(args) {
                Some(Ok(vs)) => Some(sum_v(vs)),
                Some(Err(e)) => Some(Err(e)),
                None => None,
            }
        } else if name == "average"@ {
            match eval_pure_args(args) {
                Some(Ok(vs)) => Some(average_v(vs)),
                Some(Err(e)) => Some(Err(e)),
                None => None,
            }
        } else {
            Some(Err(Error::FunctionNotAvailable))
        },
    }
}

/// The values of a list of state-independent argument expressions, walked
/// left to right; the first error stops the walk, and any state-dependent
/// argument reached leaves the list unsettled.
pub open spec fn eval_pure_args(s: Seq<ExprV>) -> Option<Result<Seq<ValueV>, Error>>
    decreases s,
{
    if s.len() == 0 {
        Some(Ok(Seq::empty()))
    } else {
        match eval_pure(s[0]) {
            Some(Ok(v)) => match eval_pure_args(s.drop_first()) {
                Some(Ok(vs)) => Some(Ok(seq![v] + vs)),
                Some(Err(e)) => Some(Err(e)),
                None => None,
            },
            Some(Err(e)) => Some(Err(e)),
            None => None,
        }
    }
}

/// A settled argument list has exactly one value per argument.
pub proof fn lemma_eval_pure_args_len(s: Seq<ExprV>)
    ensures
        match eval_pure_args(s) {
            Some(Ok(ws)) => ws.len() == s.len(),
            _ => true,
        },
    decreases s,
{
    if s.len() > 0 {
        lemma_eval_pure_args_len(s.drop_first());
    }
}

/// The constant true function of the registry.
pub fn true_fn() -> (r: Value)
    ensures
        r == Value::Bool(true),
{
    Value::Bool(true)
}

/// The constant false function of the registry.
pub fn false_fn() -> (r: Value)
    ensures
        r == Value::Bool(false),
{
    Value::Bool(false)
}

/// Whether a value is blank, that is, `Empty`.
pub fn is_blank(v: &Value) -> (r: Value)
    ensures
        value_view(r) == is_blank_v(value_view(*v)),
{
    Value::Bool(matches!(v, Value::Empty))
}

/// Whether a value is an unevaluated formula.
pub fn is_formula(v: &Value) -> (r: Value)
    ensures
        value_view(r) == is_formula_v(value_view(*v)),
{
    Value::Bool(matches!(v, Value::Formula(_)))
}

/// The absolute value of a number; anything else is an error.
pub fn abs(v: Value) -> (r: Result<Value, Error>)
    ensures
        res_view(r) == abs_v(value_view(v)),
{
    match v {
        Value::Number(b) => Ok(Value::Number(crate::numeric::abs_bits(b))),
        _ => Err(Error::RefMustBeNumber),
    }
}

/// The base raised to an integer exponent of magnitude at most
/// [`POWER_EXP_LIMIT`], by repeated IEEE multiplication; a negative
/// exponent yields the reciprocal. A fractional or over-large exponent is
/// an error, as is anything but two numbers.
pub fn power(base: Value, exponent: Value) -> (r: Result<Value, Error>)
    ensures
        res_view(r) == power_v(value_view(base), value_view(exponent)),
{
    match (base, exponent) {
        (Value::Number(b), Value::Number(e)) => {
            let negative = e & SIGN_MASK != 0;
            let mag = abs_bits(e);
            proof {
                if e & SIGN_MASK == 0 {
                    assert(e & MAGNITUDE_MASK == e) by (bit_vector)
                        requires
                            e & 0x8000_0000_0000_0000 == 0,
                    ;
                }
            }
            let n = trunc_bits_exec(mag);
            if bits_of_u64_exec(n) != mag || n > POWER_EXP_LIMIT {
                return Err(Error::OperationUnavailable);
            }
            let mut acc: u64 = ONE_BITS;
            let mut i: u64 = 0;
            while i < n
                invariant
                    i <= n,
                    acc == pow_bits(b, i as nat),
                decreases n - i,
            {
                acc = mul_bits_exec(b, acc);
                i = i + 1;
            }
            if negative {
                Ok(Value::Number(div_bits_exec(ONE_BITS, acc)))
            } else {
                Ok(Value::Number(acc))
            }
        },
        _ => Err(Error::RefMustBeNumber),
    }
}

/// Addition folded over the values from `Empty`; the first error stops the
/// fold.
pub fn sum(vals: Vec<Value>) -> (r: Result<Value, Error>)
    ensures
        res_view(r) == sum_v(values_view(vals@)),
{
    let ghost full: Seq<ValueV> = values_view(vals@);
    proof {
        lemma_values_view_index(vals@);
        assert(full.skip(0) =~= full);
    }
    let mut acc = Value::Empty;
    let n = vals.len();
    let mut i: usize = 0;
    while i < n
        invariant
            i <= n,
            n == vals@.len(),
            full == values_view(vals@),
            full.len() == n,
            forall|j: int| 0 <= j < n ==> full[j] == value_view(#[trigger] vals@[j]),
            sum_v(full) == sum_v_from(value_view(acc), full.skip(i as int)),
        decreases n - i,
    {
        let v = vals[i].duplicate();
        proof {
            assert(full.skip(i as int).len() > 0);
            assert(full.skip(i as int)[0] == full[i as int]);
            assert(value_view(v) == full[i as int]);
        }
        match acc.add(v) {
            Ok(a2) => {
                proof {
                    assert(full.skip(i as int).drop_first() =~= full.skip(i as int + 1));
                }
                acc = a2;
            },
            Err(e) => {
                return Err(e);
            },
        }
        i = i + 1;
    }
    proof {
        assert(full.skip(n as int) =~= Seq::<ValueV>::empty());
    }
    Ok(acc)
}

/// The sum divided by the count; zero on an empty argument list.
pub fn average(vals: Vec<Value>) -> (r: Result<Value, Error>)
    ensures
        res_view(r) == average_v(values_view(vals@)),
{
    proof {
        lemma_values_view_index(vals@);
    }
    let n = vals.len();
    if n == 0 {
        return Ok(Value::Number(ZERO_BITS));
    }
    let count = bits_of_u64_exec(n as u64);
    match sum(vals) {
        Ok(s) => s.div(Value::Number(count)),
        Err(e) => Err(e),
    }
}

fn name_is(name: &String, lit: &str) -> (r: bool)
    ensures
        r == (name@ == lit@),
{
    *name == lit.to_owned()
}

/// Evaluates an expression against the engine, the sheet the formula lives
/// on, and the list of cells consulted so far, which is only ever appended
/// to. The depth bounds the formula dereference chain.
///
/// The engine is read, and its cache fed, through [`Spanleaf::get_depth`];
/// the sheets themselves are never changed, and no `Calculating` sentinel
/// is created or destroyed on balance (see [`Spanleaf::eval_frame`]). On
/// the state-independent fragment the result is exactly [`eval_pure`].
#[verifier::rlimit(100)]
pub fn eval(
    expr: &Expr,
    sl: &mut Spanleaf,
    curr_sheet: SheetIdx,
    deps: &mut Vec<(SheetIdx, CellIdx)>,
    depth: u64,
) -> (r: Result<Value, Error>)
    requires
        old(sl).sheets_wf(),
    ensures
        Spanleaf::eval_frame(*old(sl), *final(sl)),
        final(sl).sheets_wf(),
        final(deps)@.len() >= old(deps)@.len(),
        forall|i: int| 0 <= i < old(deps)@.len() ==> final(deps)@[i] == old(deps)@[i],
        match eval_pure(expr_view(*expr)) {
            Some(res) => res_view(r) == res,
            None => true,
        },
        eval_pure(expr_view(*expr)) is Some ==> final(sl).spec_cache() == old(sl).spec_cache()
            && final(sl).spec_deps() == old(sl).spec_deps() && final(deps)@ == old(deps)@,
        match crate::eval_read(
            old(sl).spec_sheets(),
            old(sl).spec_next_sheet().0,
            curr_sheet,
            expr_view(*expr),
        ) {
            Some(res) => res_view(r) == res && final(sl).spec_cache() == old(sl).spec_cache()
                && final(sl).spec_deps() == old(sl).spec_deps(),
            None => true,
        },
        match expr_view(*expr) {
            ExprV::CellRef(_, _, _) => {
                &&& (match r {
                    Ok(v) => match v {
                        Value::Ref { sref, cref } => final(deps)@.len() > old(deps)@.len()
                            && final(deps)@.last() == ((sref, cref)),
                        _ => false,
                    },
                    Err(_) => true,
                })
                &&& (match crate::resolve_pure_ref(
                    old(sl).spec_sheets(),
                    old(sl).spec_next_sheet().0,
                    curr_sheet,
                    expr_view(*expr),
                ) {
                    Some(Ok(sc)) => r == Ok::<Value, Error>(Value::Ref { sref: sc.0, cref: sc.1 })
                        && final(deps)@ == old(deps)@.push(sc) && final(sl).spec_cache() == old(
                        sl,
                    ).spec_cache() && final(sl).spec_deps() == old(sl).spec_deps(),
                    Some(Err(e)) => r == Err::<Value, Error>(e) && final(deps)@ == old(deps)@
                        && final(sl).spec_cache() == old(sl).spec_cache() && final(sl).spec_deps()
                        == old(sl).spec_deps(),
                    None => true,
                })
            },
            ExprV::CellDeref(inner) => match crate::resolve_pure_ref(
                old(sl).spec_sheets(),
                old(sl).spec_next_sheet().0,
                curr_sheet,
                *inner,
            ) {
                Some(Ok(sc)) => crate::get_cases(
                    old(sl).spec_sheets(),
                    old(sl).spec_next_sheet().0,
                    old(sl).spec_cache(),
                    sc.0,
                    sc.1,
                    depth,
                    r,
                ) && final(deps)@ == old(deps)@.push(sc),
                Some(Err(e)) => r == Err::<Value, Error>(e) && final(deps)@ == old(deps)@,
                None => match eval_pure(*inner) {
                    Some(Ok(w)) => !(w is Ref) ==> r == Err::<Value, Error>(
                        Error::RefMustBeNumber,
                    ) && final(deps)@ == old(deps)@,
                    Some(Err(e)) => r == Err::<Value, Error>(e) && final(deps)@ == old(deps)@,
                    None => true,
                },
            },
            _ => true,
        },
    decreases depth, expr_size(*expr), 1int,
{
    match expr {
        Expr::Number(b) => Ok(Value::Number(*b)),
        Expr::Text(t) => Ok(Value::Text(t.clone())),
        Expr::Bool(b) => Ok(Value::Bool(*b)),
        Expr::Sheet(name) => Ok(Value::Text(name.clone())),
        Expr::CellRef(_, _, _) => eval_ref(expr, sl, curr_sheet, deps, depth),
        Expr::CellDeref(_) => eval_deref(expr, sl, curr_sheet, deps, depth),
        Expr::Neg(b) => {
            match eval(&**b, sl, curr_sheet, deps, depth) {
                Ok(v) => v.neg(),
                Err(e) => Err(e),
            }
        },
        Expr::Add(a, b) => {
            let ghost sl0 = *sl;
            match eval(&**a, sl, curr_sheet, deps, depth) {
                Ok(va) => {
                    let ghost sl1 = *sl;
                    let out = match eval(&**b, sl, curr_sheet, deps, depth) {
                        Ok(vb) => va.add(vb),
                        Err(e) => Err(e),
                    };
                    proof {
                        Spanleaf::lemma_eval_frame_trans(sl0, sl1, *sl);
                    }
                    out
                },
                Err(e) => Err(e),
            }
        },
        Expr::Sub(a, b) => {
            let ghost sl0 = *sl;
            match eval(&**a, sl, curr_sheet, deps, depth) {
                Ok(va) => {
                    let ghost sl1 = *sl;
                    let out = match eval(&**b, sl, curr_sheet, deps, depth) {
                        Ok(vb) => va.sub(vb),
                        Err(e) => Err(e),
                    };
                    proof {
                        Spanleaf::lemma_eval_frame_trans(sl0, sl1, *sl);
                    }
                    out
                },
                Err(e) => Err(e),
            }
        },
        Expr::Mul(a, b) => {
            let ghost sl0 = *sl;
            match eval(&**a, sl, curr_sheet, deps, depth) {
                Ok(va) => {
                    let ghost sl1 = *sl;
                    let out = match eval(&**b, sl, curr_sheet, deps, depth) {
                        Ok(vb) => va.mul(vb),
                        Err(e) => Err(e),
                    };
                    proof {
                        Spanleaf::lemma_eval_frame_trans(sl0, sl1, *sl);
                    }
                    out
                },
                Err(e) => Err(e),
            }
        },
        Expr::Div(a, b) => {
            let ghost sl0 = *sl;
            match eval(&**a, sl, curr_sheet, deps, depth) {
                Ok(va) => {
                    let ghost sl1 = *sl;
                    let out = match eval(&**b, sl, curr_sheet, deps, depth) {
                        Ok(vb) => va.div(vb),
                        Err(e) => Err(e),
                    };
                    proof {
                        Spanleaf::lemma_eval_frame_trans(sl0, sl1, *sl);
                    }
                    out
                },
                Err(e) => Err(e),
            }
        },
        Expr::Call(fn_name, args) => eval_call(fn_name, args, sl, curr_sheet, deps, depth),
    }
}

/// The reference-node case of the evaluator, split out to keep each proof
/// query small; it carries the same contract as [`eval`].
#[verifier::rlimit(100)]
fn eval_ref(
    expr: &Expr,
    sl: &mut Spanleaf,
    curr_sheet: SheetIdx,
    deps: &mut Vec<(SheetIdx, CellIdx)>,
    depth: u64,
) -> (r: Result<Value, Error>)
    requires
        old(sl).sheets_wf(),
        expr matches Expr::CellRef(_, _, _),
    ensures
        Spanleaf::eval_frame(*old(sl), *final(sl)),
        final(sl).sheets_wf(),
        final(deps)@.len() >= old(deps)@.len(),
        forall|i: int| 0 <= i < old(deps)@.len() ==> final(deps)@[i] == old(deps)@[i],
        match eval_pure(expr_view(*expr)) {
            Some(res) => res_view(r) == res,
            None => true,
        },
        eval_pure(expr_view(*expr)) is Some ==> final(sl).spec_cache() == old(sl).spec_cache()
            && final(sl).spec_deps() == old(sl).spec_deps() && final(deps)@ == old(deps)@,
        match crate::eval_read(
            old(sl).spec_sheets(),
            old(sl).spec_next_sheet().0,
            curr_sheet,
            expr_view(*expr),
        ) {
            Some(res) => res_view(r) == res && final(sl).spec_cache() == old(sl).spec_cache()
                && final(sl).spec_deps() == old(sl).spec_deps(),
            None => true,
        },
        match expr_view(*expr) {
            ExprV::CellRef(_, _, _) => {
                &&& (match r {
                    Ok(v) => match v {
                        Value::Ref { sref, cref } => final(deps)@.len() > old(deps)@.len()
                            && final(deps)@.last() == ((sref, cref)),
                        _ => false,
                    },
                    Err(_) => true,
                })
                &&& (match crate::resolve_pure_ref(
                    old(sl).spec_sheets(),
                    old(sl).spec_next_sheet().0,
                    curr_sheet,
                    expr_view(*expr),
                ) {
                    Some(Ok(sc)) => r == Ok::<Value, Error>(Value::Ref { sref: sc.0, cref: sc.1 })
                        && final(deps)@ == old(deps)@.push(sc) && final(sl).spec_cache() == old(
                        sl,
                    ).spec_cache() && final(sl).spec_deps() == old(sl).spec_deps(),
                    Some(Err(e)) => r == Err::<Value, Error>(e) && final(deps)@ == old(deps)@
                        && final(sl).spec_cache() == old(sl).spec_cache() && final(sl).spec_deps()
                        == old(sl).spec_deps(),
                    None => true,
                })
            },
            ExprV::CellDeref(inner) => match crate::resolve_pure_ref(
                old(sl).spec_sheets(),
                old(sl).spec_next_sheet().0,
                curr_sheet,
                *inner,
            ) {
                Some(Ok(sc)) => crate::get_cases(
                    old(sl).spec_sheets(),
                    old(sl).spec_next_sheet().0,
                    old(sl).spec_cache(),
                    sc.0,
                    sc.1,
                    depth,
                    r,
                ) && final(deps)@ == old(deps)@.push(sc),
                Some(Err(e)) => r == Err::<Value, Error>(e) && final(deps)@ == old(deps)@,
                None => match eval_pure(*inner) {
                    Some(Ok(w)) => !(w is Ref) ==> r == Err::<Value, Error>(
                        Error::RefMustBeNumber,
                    ) && final(deps)@ == old(deps)@,
                    Some(Err(e)) => r == Err::<Value, Error>(e) && final(deps)@ == old(deps)@,
                    None => true,
                },
            },
            _ => true,
        },
    decreases depth, expr_size(*expr), 0int,
{
    match expr {
        Expr::CellRef(sheet_ref, row, col) => {

            let ghost sl0 = *sl;
            let row_bits: u64 = match eval(&**row, sl, curr_sheet, deps, depth) {
                Ok(Value::Number(x)) => x,
                Ok(_) => {
                    return Err(Error::RefMustBeNumber);
                },
                Err(e) => {
                    return Err(e);
                },
            };
            let ghost sl1 = *sl;
            let col_bits: u64 = match eval(&**col, sl, curr_sheet, deps, depth) {
                Ok(Value::Number(x)) => x,
                Ok(_) => {
                    proof {
                        Spanleaf::lemma_eval_frame_trans(sl0, sl1, *sl);
                    }
                    return Err(Error::RefMustBeNumber);
                },
                Err(e) => {
                    proof {
                        Spanleaf::lemma_eval_frame_trans(sl0, sl1, *sl);
                    }
                    return Err(e);
                },
            };
            proof {
                Spanleaf::lemma_eval_frame_trans(sl0, sl1, *sl);
            }
            let ghost sl2 = *sl;
            let sref: SheetIdx = match sheet_ref {
                Some(se) => {
                    match eval(&**se, sl, curr_sheet, deps, depth) {
                        Ok(Value::Text(sheet_name)) => {
                            proof {
                                Spanleaf::lemma_eval_frame_trans(sl0, sl2, *sl);
                            }
                            match sl.find_sheet(&sheet_name) {
                                Some(idx) => idx,
                                None => {
                                    return Err(Error::SheetNotFound);
                                },
                            }
                        },
                        Ok(_) => {
                            proof {
                                Spanleaf::lemma_eval_frame_trans(sl0, sl2, *sl);
                            }
                            return Err(Error::RefMustBeNumber);
                        },
                        Err(e) => {
                            proof {
                                Spanleaf::lemma_eval_frame_trans(sl0, sl2, *sl);
                            }
                            return Err(e);
                        },
                    }
                },
                None => curr_sheet,
            };
            let cref = CellIdx::new(trunc_bits_exec(row_bits), trunc_bits_exec(col_bits));
            deps.push((sref, cref));
            Ok(Value::Ref { sref, cref })
        },
        // unreachable: the precondition fixes the variant
        _ => {
            proof {
                assert(false);
            }
            Err(Error::RefMustBeNumber)
        },
    }
}

/// The dereference-node case of the evaluator, split out to keep each
/// proof query small; it carries the same contract as [`eval`].
#[verifier::rlimit(100)]
fn eval_deref(
    expr: &Expr,
    sl: &mut Spanleaf,
    curr_sheet: SheetIdx,
    deps: &mut Vec<(SheetIdx, CellIdx)>,
    depth: u64,
) -> (r: Result<Value, Error>)
    requires
        old(sl).sheets_wf(),
        expr matches Expr::CellDeref(_),
    ensures
        Spanleaf::eval_frame(*old(sl), *final(sl)),
        final(sl).sheets_wf(),
        final(deps)@.len() >= old(deps)@.len(),
        forall|i: int| 0 <= i < old(deps)@.len() ==> final(deps)@[i] == old(deps)@[i],
        match eval_pure(expr_view(*expr)) {
            Some(res) => res_view(r) == res,
            None => true,
        },
        eval_pure(expr_view(*expr)) is Some ==> final(sl).spec_cache() == old(sl).spec_cache()
            && final(sl).spec_deps() == old(sl).spec_deps() && final(deps)@ == old(deps)@,
        match crate::eval_read(
            old(sl).spec_sheets(),
            old(sl).spec_next_sheet().0,
            curr_sheet,
            expr_view(*expr),
        ) {
            Some(res) => res_view(r) == res && final(sl).spec_cache() == old(sl).spec_cache()
                && final(sl).spec_deps() == old(sl).spec_deps(),
            None => true,
        },
        match expr_view(*expr) {
            ExprV::CellRef(_, _, _) => {
                &&& (match r {
                    Ok(v) => match v {
                        Value::Ref { sref, cref } => final(deps)@.len() > old(deps)@.len()
                            && final(deps)@.last() == ((sref, cref)),
                        _ => false,
                    },
                    Err(_) => true,
                })
                &&& (match crate::resolve_pure_ref(
                    old(sl).spec_sheets(),
                    old(sl).spec_next_sheet().0,
                    curr_sheet,
                    expr_view(*expr),
                ) {
                    Some(Ok(sc)) => r == Ok::<Value, Error>(Value::Ref { sref: sc.0, cref: sc.1 })
                        && final(deps)@ == old(deps)@.push(sc) && final(sl).spec_cache() == old(
                        sl,
                    ).spec_cache() && final(sl).spec_deps() == old(sl).spec_deps(),
                    Some(Err(e)) => r == Err::<Value, Error>(e) && final(deps)@ == old(deps)@
                        && final(sl).spec_cache() == old(sl).spec_cache() && final(sl).spec_deps()
                        == old(sl).spec_deps(),
                    None => true,
                })
            },
            ExprV::CellDeref(inner) => match crate::resolve_pure_ref(
                old(sl).spec_sheets(),
                old(sl).spec_next_sheet().0,
                curr_sheet,
                *inner,
            ) {
                Some(Ok(sc)) => crate::get_cases(
                    old(sl).spec_sheets(),
                    old(sl).spec_next_sheet().0,
                    old(sl).spec_cache(),
                    sc.0,
                    sc.1,
                    depth,
                    r,
                ) && final(deps)@ == old(deps)@.push(sc),
                Some(Err(e)) => r == Err::<Value, Error>(e) && final(deps)@ == old(deps)@,
                None => match eval_pure(*inner) {
                    Some(Ok(w)) => !(w is Ref) ==> r == Err::<Value, Error>(
                        Error::RefMustBeNumber,
                    ) && final(deps)@ == old(deps)@,
                    Some(Err(e)) => r == Err::<Value, Error>(e) && final(deps)@ == old(deps)@,
                    None => true,
                },
            },
            _ => true,
        },
    decreases depth, expr_size(*expr), 0int,
{
    match expr {
        Expr::CellDeref(inner) => {

            let ghost sl0 = *sl;
            match eval(&**inner, sl, curr_sheet, deps, depth) {
                Ok(Value::Ref { sref, cref }) => {
                    let ghost sl1 = *sl;
                    let out = match sl.get_depth(sref, cref, depth) {
                        Ok(vr) => Ok(vr.value()),
                        Err(e) => Err(e),
                    };
                    proof {
                        Spanleaf::lemma_eval_frame_trans(sl0, sl1, *sl);
                    }
                    out
                },
                Ok(_) => Err(Error::RefMustBeNumber),
                Err(e) => Err(e),
            }
        },
        // unreachable: the precondition fixes the variant
        _ => {
            proof {
                assert(false);
            }
            Err(Error::RefMustBeNumber)
        },
    }
}

/// Dispatches a function call of the registry: the constant functions and
/// the arity checks are decided before any argument is evaluated; the
/// others evaluate their arguments in order and apply the corresponding
/// verified value-level function. An unknown name is an error.
#[verifier::rlimit(100)]
fn eval_call(
    fn_name: &String,
    args: &Vec<Expr>,
    sl: &mut Spanleaf,
    curr_sheet: SheetIdx,
    deps: &mut Vec<(SheetIdx, CellIdx)>,
    depth: u64,
) -> (r: Result<Value, Error>)
    requires
        old(sl).sheets_wf(),
    ensures
        Spanleaf::eval_frame(*old(sl), *final(sl)),
        final(sl).sheets_wf(),
        final(deps)@.len() >= old(deps)@.len(),
        forall|i: int| 0 <= i < old(deps)@.len() ==> final(deps)@[i] == old(deps)@[i],
        match eval_pure(ExprV::Call(fn_name@, exprs_view(args@))) {
            Some(res) => res_view(r) == res,
            None => true,
        },
        eval_pure(ExprV::Call(fn_name@, exprs_view(args@))) is Some ==> final(sl).spec_cache()
            == old(sl).spec_cache() && final(sl).spec_deps() == old(sl).spec_deps()
            && final(deps)@ == old(deps)@,
    decreases depth, 2 + exprs_size(args@), 0int,
{
    proof {
        lemma_exprs_view_index(args@);
    }
    if name_is(fn_name, "true") {
        return Ok(true_fn());
    }
    if name_is(fn_name, "false") {
        return Ok(false_fn());
    }
    if name_is(fn_name, "is_blank") {
        if args.len() == 0 {
            return Err(Error::InsufficientArgs);
        }
        if args.len() > 1 {
            return Err(Error::TooManyArgs);
        }
        proof {
            lemma_exprs_size_element(args@, 0);
        }
        return match eval(&args[0], sl, curr_sheet, deps, depth) {
            Ok(v) => Ok(is_blank(&v)),
            Err(e) => Err(e),
        };
    }
    if name_is(fn_name, "is_formula") {
        if args.len() == 0 {
            return Err(Error::InsufficientArgs);
        }
        if args.len() > 1 {
            return Err(Error::TooManyArgs);
        }
        proof {
            lemma_exprs_size_element(args@, 0);
        }
        return match eval(&args[0], sl, curr_sheet, deps, depth) {
            Ok(v) => Ok(is_formula(&v)),
            Err(e) => Err(e),
        };
    }
    if name_is(fn_name, "abs") {
        if args.len() == 0 {
            return Err(Error::InsufficientArgs);
        }
        if args.len() > 1 {
            return Err(Error::TooManyArgs);
        }
        proof {
            lemma_exprs_size_element(args@, 0);
        }
        return match eval(&args[0], sl, curr_sheet, deps, depth) {
            Ok(v) => abs(v),
            Err(e) => Err(e),
        };
    }
    if name_is(fn_name, "power") {
        if args.len() > 2 {
            return Err(Error::TooManyArgs);
        }
        if args.len() < 2 {
            return Err(Error::InsufficientArgs);
        }
        proof {
            lemma_exprs_size_element(args@, 0);
            lemma_exprs_size_element(args@, 1);
        }
        let ghost sl0 = *sl;
        return match eval(&args[0], sl, curr_sheet, deps, depth) {
            Ok(base) => {
                let ghost sl1 = *sl;
                let out = match eval(&args[1], sl, curr_sheet, deps, depth) {
                    Ok(exponent) => power(base, exponent),
                    Err(e) => Err(e),
                };
                proof {
                    Spanleaf::lemma_eval_frame_trans(sl0, sl1, *sl);
                }
                out
            },
            Err(e) => Err(e),
        };
    }
    if name_is(fn_name, "sum") {
        return match eval_args(args, sl, curr_sheet, deps, depth) {
            Ok(vals) => sum(vals),
            Err(e) => Err(e),
        };
    }
    if name_is(fn_name, "average") {
        return match eval_args(args, sl, curr_sheet, deps, depth) {
            Ok(vals) => average(vals),
            Err(e) => Err(e),
        };
    }
    Err(Error::FunctionNotAvailable)
}

/// Evaluates every argument in order; the first error stops the walk.
#[verifier::rlimit(60)]
fn eval_args(
    args: &Vec<Expr>,
    sl: &mut Spanleaf,
    curr_sheet: SheetIdx,
    deps: &mut Vec<(SheetIdx, CellIdx)>,
    depth: u64,
) -> (r: Result<Vec<Value>, Error>)
    requires
        old(sl).sheets_wf(),
    ensures
        Spanleaf::eval_frame(*old(sl), *final(sl)),
        final(sl).sheets_wf(),
        final(deps)@.len() >= old(deps)@.len(),
        forall|i: int| 0 <= i < old(deps)@.len() ==> final(deps)@[i] == old(deps)@[i],
        match eval_pure_args(exprs_view(args@)) {
            Some(res) => final(sl).spec_cache() == old(sl).spec_cache() && final(sl).spec_deps()
                == old(sl).spec_deps() && final(deps)@ == old(deps)@ && (match (r, res) {
                (Ok(vals), Ok(ws)) => values_view(vals@) == ws,
                (Err(e1), Err(e2)) => e1 == e2,
                _ => false,
            }),
            None => true,
        },
    decreases depth, 1 + exprs_size(args@), 0int,
{
    let ghost views = exprs_view(args@);
    proof {
        lemma_exprs_view_index(args@);
        lemma_eval_pure_args_len(views);
        assert(views.skip(0) =~= views);
    }
    let mut vals: Vec<Value> = Vec::new();
    proof {
        assert(values_view(vals@) =~= Seq::<ValueV>::empty());
        match eval_pure_args(views) {
            Some(Ok(ws)) => {
                assert(values_view(vals@) =~= ws.take(0));
                assert(ws.skip(0) =~= ws);
            },
            _ => {},
        }
    }
    let n = args.len();
    let ghost sl0 = *sl;
    let ghost deps0 = deps@;
    let mut i: usize = 0;
    while i < n
        invariant
            i <= n,
            n == args@.len(),
            views == exprs_view(args@),
            views.len() == n,
            forall|j: int| 0 <= j < n ==> views[j] == expr_view(#[trigger] args@[j]),
            sl0 == *old(sl),
            deps0 == old(deps)@,
            sl.sheets_wf(),
            Spanleaf::eval_frame(sl0, *sl),
            deps@.len() >= deps0.len(),
            forall|j: int| 0 <= j < deps0.len() ==> deps@[j] == deps0[j],
            match eval_pure_args(views) {
                Some(res) => sl.spec_cache() == sl0.spec_cache() && sl.spec_deps()
                    == sl0.spec_deps() && deps@ == deps0 && (match res {
                    Ok(ws) => ws.len() == n && values_view(vals@) == ws.take(i as int)
                        && eval_pure_args(views.skip(i as int)) == Some(
                        Ok::<Seq<ValueV>, Error>(ws.skip(i as int)),
                    ),
                    Err(e) => eval_pure_args(views.skip(i as int)) == Some(
                        Err::<Seq<ValueV>, Error>(e),
                    ),
                }),
                None => true,
            },
        decreases n - i,
    {
        proof {
            lemma_exprs_size_element(args@, i as int);
            assert(views.skip(i as int).len() > 0);
            assert(views.skip(i as int)[0] == views[i as int]);
            assert(views.skip(i as int).drop_first() =~= views.skip(i as int + 1));
        }
        let ghost sl_mid = *sl;
        let ghost vals_pre = vals@;
        match eval(&args[i], sl, curr_sheet, deps, depth) {
            Ok(v) => {
                vals.push(v);
                proof {
                    crate::cell::lemma_values_view_push(vals_pre, v);
                    let si = views.skip(i as int);
                    match eval_pure_args(views) {
                        Some(Ok(ws)) => {
                            match eval_pure(views[i as int]) {
                                Some(Ok(v0)) => {
                                    match eval_pure_args(si.drop_first()) {
                                        Some(Ok(vs0)) => {
                                            assert(eval_pure_args(si) == Some(
                                                Ok::<Seq<ValueV>, Error>(seq![v0] + vs0),
                                            ));
                                            assert(seq![v0] + vs0 == ws.skip(i as int));
                                            assert((seq![v0] + vs0)[0] == v0);
                                            assert(v0 == ws.skip(i as int)[0]);
                                            assert(ws.skip(i as int)[0] == ws[i as int]);
                                            assert(value_view(v) == ws[i as int]);
                                            assert(values_view(vals@) =~= ws.take(i as int + 1));
                                            assert(vs0 =~= ws.skip(i as int + 1)) by {
                                                assert(vs0 =~= ws.skip(i as int).drop_first());
                                                assert(ws.skip(i as int).drop_first() =~= ws.skip(
                                                    i as int + 1,
                                                ));
                                            }
                                            assert(eval_pure_args(views.skip(i as int + 1)) == Some(
                                                Ok::<Seq<ValueV>, Error>(ws.skip(i as int + 1)),
                                            ));
                                        },
                                        Some(Err(_)) => {
                                            assert(false);
                                        },
                                        None => {
                                            assert(false);
                                        },
                                    }
                                },
                                Some(Err(_)) => {
                                    assert(false);
                                },
                                None => {
                                    assert(false);
                                },
                            }
                        },
                        Some(Err(e)) => {
                            match eval_pure(views[i as int]) {
                                Some(Ok(_)) => {
                                    assert(eval_pure_args(si.drop_first()) == Some(
                                        Err::<Seq<ValueV>, Error>(e),
                                    ));
                                    assert(eval_pure_args(views.skip(i as int + 1)) == Some(
                                        Err::<Seq<ValueV>, Error>(e),
                                    ));
                                },
                                Some(Err(_)) => {
                                    assert(false);
                                },
                                None => {
                                    assert(false);
                                },
                            }
                        },
                        None => {},
                    }
                }
            },
            Err(e) => {
                proof {
                    Spanleaf::lemma_eval_frame_trans(sl0, sl_mid, *sl);
                }
                return Err(e);
            },
        }
        proof {
            Spanleaf::lemma_eval_frame_trans(sl0, sl_mid, *sl);
        }
        i = i + 1;
    }
    proof {
        assert(views.skip(n as int) =~= Seq::<ExprV>::empty());
        match eval_pure_args(views) {
            Some(Ok(ws)) => {
                assert(ws.take(n as int) =~= ws);
            },
            _ => {},
        }
    }
    Ok(vals)
}

} // verus!

//! The formula parser.
//!
//! The grammar, with precedence climbing from sums to atoms:
//!
//! ```text
//! sum      := product (('+'|'-') product)*
//! product  := unary (('*'|'/') unary)*
//! unary    := '-'* atom
//! atom     := number | 'true' | 'false' | '(' sum ')'
//!           | "'" chars-without-apostrophe "'"
//!           | ident '(' (sum (',' sum)* ','?)? ')'
//!           | '&'? ident? '[' sum ',' sum ']'
//! ```
//!
//! A bracket form dereferences the cell by default; prefixing `&` yields
//! the reference value itself. Whitespace is insignificant between tokens.
//!
//! The reference grammar is a set of spec functions over character
//! sequences; the executable parser mirrors it and returns exactly what the
//! reference returns. Both sides descend on the same fuel, chosen large
//! enough that no script below the length cap can run out: every
//! recursive step either consumes a character or moves one level down a
//! chain of at most eight grammar rules.
use vstd::prelude::*;

use core::str::FromStr;

use rustc_apfloat::Float;

use crate::language::{Expr, ExprV, expr_view, exprs_view};

verus! {

/// The longest accepted formula source, in characters: the bound under
/// which the parser's fuel of [`sp_fuel`] provably cannot run out, since
/// every descent of at most eight grammar rules consumes a character. A
/// sixteen-million-character formula is far beyond any practical script.
pub const MAX_SCRIPT_LEN: usize = 0x0100_0000;

/// Whitespace between tokens.
pub open spec fn is_ws(c: char) -> bool {
    c == ' ' || c == '\t' || c == '\n' || c == '\r'
}

/// A decimal digit.
pub open spec fn is_digit(c: char) -> bool {
    '0' <= c && c <= '9'
}

/// The first character of an identifier: an ASCII letter or underscore.
pub open spec fn is_ident_start(c: char) -> bool {
    ('a' <= c && c <= 'z') || ('A' <= c && c <= 'Z') || c == '_'
}

/// A character of an identifier after the first.
pub open spec fn is_ident_char(c: char) -> bool {
    is_ident_start(c) || is_digit(c)
}

/// The first position at or after `i` that holds no whitespace.
pub open spec fn spec_skip_ws(s: Seq<char>, i: int) -> int
    decreases s.len() - i,
{
    if 0 <= i < s.len() && is_ws(s[i]) {
        spec_skip_ws(s, i + 1)
    } else {
        i
    }
}

/// The first position at or after `i` that holds no digit.
pub open spec fn spec_digits_end(s: Seq<char>, i: int) -> int
    decreases s.len() - i,
{
    if 0 <= i < s.len() && is_digit(s[i]) {
        spec_digits_end(s, i + 1)
    } else {
        i
    }
}

/// The first position at or after `i` that holds no identifier character.
pub open spec fn spec_ident_end(s: Seq<char>, i: int) -> int
    decreases s.len() - i,
{
    if 0 <= i < s.len() && is_ident_char(s[i]) {
        spec_ident_end(s, i + 1)
    } else {
        i
    }
}

/// The first position at or after `i` that holds an apostrophe, or the
/// length of the sequence when there is none.
pub open spec fn spec_quote_end(s: Seq<char>, i: int) -> int
    decreases s.len() - i,
{
    if 0 <= i < s.len() {
        if s[i] == '\'' {
            i
        } else {
            spec_quote_end(s, i + 1)
        }
    } else {
        s.len() as int
    }
}

/// The end of the number literal that starts at `i`: an integer part,
/// a fractional part when a dot is followed by a digit, and an exponent
/// when `e` or `E` with an optional sign is followed by a digit.
pub open spec fn spec_number_end(s: Seq<char>, i: int) -> int {
    let int_end = spec_digits_end(s, i);
    let frac_end = if int_end < s.len() && s[int_end] == '.' && int_end + 1 < s.len() && is_digit(
        s[int_end + 1],
    ) {
        spec_digits_end(s, int_end + 1)
    } else {
        int_end
    };
    if frac_end < s.len() && (s[frac_end] == 'e' || s[frac_end] == 'E') {
        let sign_end = if frac_end + 1 < s.len() && (s[frac_end + 1] == '+' || s[frac_end + 1]
            == '-') {
            frac_end + 2
        } else {
            frac_end + 1
        };
        if sign_end < s.len() && is_digit(s[sign_end]) {
            spec_digits_end(s, sign_end)
        } else {
            frac_end
        }
    } else {
        frac_end
    }
}

/// The span `from..to` of `s` is exactly one number literal.
pub open spec fn is_number_span(s: Seq<char>, from: int, to: int) -> bool {
    &&& 0 <= from < to <= s.len()
    &&& is_digit(s[from])
    &&& to == spec_number_end(s, from)
}

/// The bit pattern of the double nearest to the decimal literal standing
/// at the span `from..to` of `s`.
pub uninterp spec fn decimal_bits(s: Seq<char>, from: int, to: int) -> u64;

/// Relies on rustc_apfloat::ieee::Double::from_str: correctly rounded
/// conversion of a decimal literal to a double. A span accepted by the
/// number scanner is always a valid literal for it, so the error arm below
/// is never taken.
#[verifier::external_body]
pub(crate) fn decimal_bits_exec(s: &str, from: usize, to: usize) -> (r: u64)
    requires
        is_number_span(s@, from as int, to as int),
    ensures
        r == decimal_bits(s@, from as int, to as int),
{
    let lit = s.substring_char(from, to);
    match rustc_apfloat::ieee::Double::from_str(lit) {
        Ok(d) => d.to_bits() as u64,
        Err(_) => 0,
    }
}

/// The fuel that the parser descends on, ample for every script below the
/// length cap.
pub open spec fn sp_fuel(n: nat) -> nat {
    8 * n + 64
}

/// Reference parse of a sum: a product followed by `+`/`-` products.
pub open spec fn sp_sum(s: Seq<char>, i: int, fuel: nat) -> Option<(ExprV, int)>
    decreases fuel,
{
    if fuel == 0 {
        None
    } else {
        match sp_product(s, i, (fuel - 1) as nat) {
            Some((e, j)) => sp_sum_rest(e, s, j, (fuel - 1) as nat),
            None => None,
        }
    }
}

/// Reference parse of the `+`/`-` tail of a sum, folded to the left.
/// When no product follows an operator, the tail stops before it.
pub open spec fn sp_sum_rest(acc: ExprV, s: Seq<char>, i: int, fuel: nat) -> Option<(ExprV, int)>
    decreases fuel,
{
    if fuel == 0 {
        None
    } else {
        let k = spec_skip_ws(s, i);
        if k < s.len() && (s[k] == '+' || s[k] == '-') {
            match sp_product(s, k + 1, (fuel - 1) as nat) {
                Some((rhs, j)) => {
                    let node = if s[k] == '+' {
                        ExprV::Add(Box::new(acc), Box::new(rhs))
                    } else {
                        ExprV::Sub(Box::new(acc), Box::new(rhs))
                    };
                    sp_sum_rest(node, s, j, (fuel - 1) as nat)
                },
                None => Some((acc, i)),
            }
        } else {
            Some((acc, i))
        }
    }
}

/// Reference parse of a product: a unary followed by `*`/`/` unaries.
pub open spec fn sp_product(s: Seq<char>, i: int, fuel: nat) -> Option<(ExprV, int)>
    decreases fuel,
{
    if fuel == 0 {
        None
    } else {
        match sp_unary(s, i, (fuel - 1) as nat) {
            Some((e, j)) => sp_product_rest(e, s, j, (fuel - 1) as nat),
            None => None,
        }
    }
}

/// Reference parse of the `*`/`/` tail of a product, folded to the left.
pub open spec fn sp_product_rest(acc: ExprV, s: Seq<char>, i: int, fuel: nat) -> Option<
    (ExprV, int),
>
    decreases fuel,
{
    if fuel == 0 {
        None
    } else {
        let k = spec_skip_ws(s, i);
        if k < s.len() && (s[k] == '*' || s[k] == '/') {
            match sp_unary(s, k + 1, (fuel - 1) as nat) {
                Some((rhs, j)) => {
                    let node = if s[k] == '*' {
                        ExprV::Mul(Box::new(acc), Box::new(rhs))
                    } else {
                        ExprV::Div(Box::new(acc), Box::new(rhs))
                    };
                    sp_product_rest(node, s, j, (fuel - 1) as nat)
                },
                None => Some((acc, i)),
            }
        } else {
            Some((acc, i))
        }
    }
}

/// Reference parse of a unary: leading minus signs over an atom.
pub open spec fn sp_unary(s: Seq<char>, i: int, fuel: nat) -> Option<(ExprV, int)>
    decreases fuel,
{
    if fuel == 0 {
        None
    } else {
        let k = spec_skip_ws(s, i);
        if k < s.len() && s[k] == '-' {
            match sp_unary(s, k + 1, (fuel - 1) as nat) {
                Some((e, j)) => Some((ExprV::Neg(Box::new(e)), j)),
                None => None,
            }
        } else {
            sp_atom(s, i, (fuel - 1) as nat)
        }
    }
}

/// Reference parse of an atom.
pub open spec fn sp_atom(s: Seq<char>, i: int, fuel: nat) -> Option<(ExprV, int)>
    decreases fuel,
{
    if fuel == 0 {
        None
    } else {
        let k = spec_skip_ws(s, i);
        let n = s.len() as int;
        if k >= n {
            None
        } else if is_digit(s[k]) {
            let end = spec_number_end(s, k);
            Some((ExprV::Number(decimal_bits(s, k, end)), end))
        } else if s[k] == '(' {
            match sp_sum(s, k + 1, (fuel - 1) as nat) {
                Some((e, j)) => {
                    let j2 = spec_skip_ws(s, j);
                    if j2 < n && s[j2] == ')' {
                        Some((e, j2 + 1))
                    } else {
                        None
                    }
                },
                None => None,
            }
        } else if s[k] == '\'' {
            let e = spec_quote_end(s, k + 1);
            if e < n {
                Some((ExprV::Text(s.subrange(k + 1, e)), e + 1))
            } else {
                None
            }
        } else if s[k] == '&' {
            sp_raw_ref(s, k + 1, (fuel - 1) as nat)
        } else if is_ident_start(s[k]) {
            let e = spec_ident_end(s, k);
            let name = s.subrange(k, e);
            let k2 = spec_skip_ws(s, e);
            if k2 < n && s[k2] == '(' {
                match sp_call_args(s, k2 + 1, (fuel - 1) as nat) {
                    Some((args, j)) => Some((ExprV::Call(name, args), j)),
                    None => None,
                }
            } else if k2 < n && s[k2] == '[' {
                match sp_bracket(s, k2 + 1, (fuel - 1) as nat) {
                    Some((rc, j)) => Some(
                        (
                            ExprV::CellDeref(
                                Box::new(
                                    ExprV::CellRef(
                                        Some(Box::new(ExprV::Sheet(name))),
                                        Box::new(rc.0),
                                        Box::new(rc.1),
                                    ),
                                ),
                            ),
                            j,
                        ),
                    ),
                    None => None,
                }
            } else if name == "true"@ {
                Some((ExprV::Bool(true), e))
            } else if name == "false"@ {
                Some((ExprV::Bool(false), e))
            } else {
                None
            }
        } else if s[k] == '[' {
            match sp_bracket(s, k + 1, (fuel - 1) as nat) {
                Some((rc, j)) => Some(
                    (
                        ExprV::CellDeref(
                            Box::new(ExprV::CellRef(None, Box::new(rc.0), Box::new(rc.1))),
                        ),
                        j,
                    ),
                ),
                None => None,
            }
        } else {
            None
        }
    }
}

/// Reference parse of the body of a `&` reference: an optional sheet name
/// and a bracket pair, yielding the reference node itself.
pub open spec fn sp_raw_ref(s: Seq<char>, i: int, fuel: nat) -> Option<(ExprV, int)>
    decreases fuel,
{
    if fuel == 0 {
        None
    } else {
        let k = spec_skip_ws(s, i);
        let n = s.len() as int;
        if k < n && is_ident_start(s[k]) {
            let e = spec_ident_end(s, k);
            let name = s.subrange(k, e);
            let k2 = spec_skip_ws(s, e);
            if k2 < n && s[k2] == '[' {
                match sp_bracket(s, k2 + 1, (fuel - 1) as nat) {
                    Some((rc, j)) => Some(
                        (
                            ExprV::CellRef(
                                Some(Box::new(ExprV::Sheet(name))),
                                Box::new(rc.0),
                                Box::new(rc.1),
                            ),
                            j,
                        ),
                    ),
                    None => None,
                }
            } else {
                None
            }
        } else if k < n && s[k] == '[' {
            match sp_bracket(s, k + 1, (fuel - 1) as nat) {
                Some((rc, j)) => Some(
                    (ExprV::CellRef(None, Box::new(rc.0), Box::new(rc.1)), j),
                ),
                None => None,
            }
        } else {
            None
        }
    }
}

/// Reference parse of the inside of a bracket pair: a row sum, a comma, a
/// column sum and the closing bracket.
pub open spec fn sp_bracket(s: Seq<char>, i: int, fuel: nat) -> Option<((ExprV, ExprV), int)>
    decreases fuel,
{
    if fuel == 0 {
        None
    } else {
        match sp_sum(s, i, (fuel - 1) as nat) {
            Some((row, j1)) => {
                let k = spec_skip_ws(s, j1);
                if k < s.len() && s[k] == ',' {
                    match sp_sum(s, k + 1, (fuel - 1) as nat) {
                        Some((col, j2)) => {
                            let k2 = spec_skip_ws(s, j2);
                            if k2 < s.len() && s[k2] == ']' {
                                Some(((row, col), k2 + 1))
                            } else {
                                None
                            }
                        },
                        None => None,
                    }
                } else {
                    None
                }
            },
            None => None,
        }
    }
}

/// Reference parse of a call argument list after the opening parenthesis:
/// empty, or sums separated by commas, a trailing comma allowed.
pub open spec fn sp_call_args(s: Seq<char>, i: int, fuel: nat) -> Option<(Seq<ExprV>, int)>
    decreases fuel,
{
    if fuel == 0 {
        None
    } else {
        let k = spec_skip_ws(s, i);
        if k < s.len() && s[k] == ')' {
            Some((Seq::empty(), k + 1))
        } else {
            match sp_sum(s, i, (fuel - 1) as nat) {
                Some((e, j)) => sp_args_rest(seq![e], s, j, (fuel - 1) as nat),
                None => None,
            }
        }
    }
}

/// Reference parse of the tail of an argument list.
pub open spec fn sp_args_rest(acc: Seq<ExprV>, s: Seq<char>, i: int, fuel: nat) -> Option<
    (Seq<ExprV>, int),
>
    decreases fuel,
{
    if fuel == 0 {
        None
    } else {
        let k = spec_skip_ws(s, i);
        if k < s.len() && s[k] == ')' {
            Some((acc, k + 1))
        } else if k < s.len() && s[k] == ',' {
            let k2 = spec_skip_ws(s, k + 1);
            if k2 < s.len() && s[k2] == ')' {
                Some((acc, k2 + 1))
            } else {
                match sp_sum(s, k + 1, (fuel - 1) as nat) {
                    Some((e, j)) => sp_args_rest(acc.push(e), s, j, (fuel - 1) as nat),
                    None => None,
                }
            }
        } else {
            None
        }
    }
}

/// Reference parse of a whole script: a sum followed by whitespace to the
/// end. Scripts longer than the cap are rejected.
pub open spec fn sp_parse(s: Seq<char>) -> Option<ExprV> {
    if s.len() > MAX_SCRIPT_LEN {
        None
    } else {
        match sp_sum(s, 0, sp_fuel(s.len())) {
            Some((e, j)) => if spec_skip_ws(s, j) == s.len() {
                Some(e)
            } else {
                None
            },
            None => None,
        }
    }
}


/// The executable result mirrors the reference result: the same success,
/// the same tree model, the same end position.
pub open spec fn parse_matches(r: Option<(Expr, usize)>, v: Option<(ExprV, int)>) -> bool {
    match (r, v) {
        (Some(rp), Some(vp)) => expr_view(rp.0) == vp.0 && rp.1 as int == vp.1,
        (None, None) => true,
        _ => false,
    }
}

/// As [`parse_matches`], for the bracket pair parser.
pub open spec fn bracket_matches(
    r: Option<((Expr, Expr), usize)>,
    v: Option<((ExprV, ExprV), int)>,
) -> bool {
    match (r, v) {
        (Some(rp), Some(vp)) => expr_view(rp.0.0) == vp.0.0 && expr_view(rp.0.1) == vp.0.1
            && rp.1 as int == vp.1,
        (None, None) => true,
        _ => false,
    }
}

/// As [`parse_matches`], for the argument list parser.
pub open spec fn args_matches(r: Option<(Vec<Expr>, usize)>, v: Option<(Seq<ExprV>, int)>) -> bool {
    match (r, v) {
        (Some(rp), Some(vp)) => exprs_view(rp.0@) == vp.0 && rp.1 as int == vp.1,
        (None, None) => true,
        _ => false,
    }
}

fn is_digit_exec(c: char) -> (r: bool)
    ensures
        r == is_digit(c),
{
    '0' <= c && c <= '9'
}

fn is_ident_start_exec(c: char) -> (r: bool)
    ensures
        r == is_ident_start(c),
{
    ('a' <= c && c <= 'z') || ('A' <= c && c <= 'Z') || c == '_'
}

fn is_ident_char_exec(c: char) -> (r: bool)
    ensures
        r == is_ident_char(c),
{
    is_ident_start_exec(c) || is_digit_exec(c)
}

fn str_eq(a: &str, b: &str) -> (r: bool)
    ensures
        r == (a@ == b@),
{
    let sa: String = a.to_owned();
    let sb: String = b.to_owned();
    sa == sb
}

fn skip_ws(s: &str, i: usize) -> (r: usize)
    requires
        i <= s@.len(),
    ensures
        r as int == spec_skip_ws(s@, i as int),
        i <= r <= s@.len(),
{
    let n = s.unicode_len();
    let mut k = i;
    loop
        invariant
            i <= k <= n,
            n == s@.len(),
            spec_skip_ws(s@, i as int) == spec_skip_ws(s@, k as int),
        ensures
            i <= k <= n,
            spec_skip_ws(s@, i as int) == k as int,
        decreases n - k,
    {
        if k >= n {
            break ;
        }
        let c = s.get_char(k);
        if !(c == ' ' || c == '\t' || c == '\n' || c == '\r') {
            break ;
        }
        k = k + 1;
    }
    k
}

fn digits_end(s: &str, i: usize) -> (r: usize)
    requires
        i <= s@.len(),
    ensures
        r as int == spec_digits_end(s@, i as int),
        i <= r <= s@.len(),
{
    let n = s.unicode_len();
    let mut k = i;
    loop
        invariant
            i <= k <= n,
            n == s@.len(),
            spec_digits_end(s@, i as int) == spec_digits_end(s@, k as int),
        ensures
            i <= k <= n,
            spec_digits_end(s@, i as int) == k as int,
        decreases n - k,
    {
        if k >= n {
            break ;
        }
        if !is_digit_exec(s.get_char(k)) {
            break ;
        }
        k = k + 1;
    }
    k
}

fn ident_end(s: &str, i: usize) -> (r: usize)
    requires
        i <= s@.len(),
    ensures
        r as int == spec_ident_end(s@, i as int),
        i <= r <= s@.len(),
{
    let n = s.unicode_len();
    let mut k = i;
    loop
        invariant
            i <= k <= n,
            n == s@.len(),
            spec_ident_end(s@, i as int) == spec_ident_end(s@, k as int),
        ensures
            i <= k <= n,
            spec_ident_end(s@, i as int) == k as int,
        decreases n - k,
    {
        if k >= n {
            break ;
        }
        if !is_ident_char_exec(s.get_char(k)) {
            break ;
        }
        k = k + 1;
    }
    k
}

fn quote_end(s: &str, i: usize) -> (r: usize)
    requires
        i <= s@.len(),
    ensures
        r as int == spec_quote_end(s@, i as int),
        i <= r <= s@.len(),
{
    let n = s.unicode_len();
    let mut k = i;
    loop
        invariant
            i <= k <= n,
            n == s@.len(),
            spec_quote_end(s@, i as int) == spec_quote_end(s@, k as int),
        ensures
            i <= k <= n,
            spec_quote_end(s@, i as int) == k as int,
        decreases n - k,
    {
        if k >= n {
            break ;
        }
        let c = s.get_char(k);
        if c == '\'' {
            break ;
        }
        k = k + 1;
    }
    k
}

/// The scanners stay within the sequence.
proof fn lemma_digits_end_bounds(s: Seq<char>, i: int)
    requires
        0 <= i <= s.len(),
    ensures
        i <= spec_digits_end(s, i) <= s.len(),
    decreases s.len() - i,
{
    if i < s.len() && is_digit(s[i]) {
        lemma_digits_end_bounds(s, i + 1);
    }
}

/// A number literal is at least one character long and stays within the
/// sequence.
proof fn lemma_number_end_bounds(s: Seq<char>, i: int)
    requires
        0 <= i < s.len(),
        is_digit(s[i]),
    ensures
        i < spec_number_end(s, i) <= s.len(),
{
    assert(spec_digits_end(s, i) == spec_digits_end(s, i + 1));
    lemma_digits_end_bounds(s, i + 1);
    let int_end = spec_digits_end(s, i);
    if int_end < s.len() && s[int_end] == '.' && int_end + 1 < s.len() && is_digit(s[int_end + 1]) {
        lemma_digits_end_bounds(s, int_end + 2);
        assert(spec_digits_end(s, int_end + 1) == spec_digits_end(s, int_end + 2));
    }
    let frac_end = if int_end < s.len() && s[int_end] == '.' && int_end + 1 < s.len() && is_digit(
        s[int_end + 1],
    ) {
        spec_digits_end(s, int_end + 1)
    } else {
        int_end
    };
    if frac_end < s.len() && (s[frac_end] == 'e' || s[frac_end] == 'E') {
        let sign_end = if frac_end + 1 < s.len() && (s[frac_end + 1] == '+' || s[frac_end + 1]
            == '-') {
            frac_end + 2
        } else {
            frac_end + 1
        };
        if sign_end < s.len() && is_digit(s[sign_end]) {
            lemma_digits_end_bounds(s, sign_end);
        }
    }
}

fn number_end(s: &str, i: usize) -> (r: usize)
    requires
        i <= s@.len(),
    ensures
        r as int == spec_number_end(s@, i as int),
        i <= r <= s@.len(),
{
    let n = s.unicode_len();
    let int_end = digits_end(s, i);
    let frac_end = if int_end < n && s.get_char(int_end) == '.' && int_end + 1 < n
        && is_digit_exec(s.get_char(int_end + 1)) {
        digits_end(s, int_end + 1)
    } else {
        int_end
    };
    let mut result = frac_end;
    if frac_end < n {
        let c = s.get_char(frac_end);
        if c == 'e' || c == 'E' {
            let sign_end = if frac_end + 1 < n {
                let c2 = s.get_char(frac_end + 1);
                if c2 == '+' || c2 == '-' {
                    frac_end + 2
                } else {
                    frac_end + 1
                }
            } else {
                frac_end + 1
            };
            if sign_end < n && is_digit_exec(s.get_char(sign_end)) {
                result = digits_end(s, sign_end);
            }
        }
    }
    result
}

fn p_sum(s: &str, i: usize, fuel: u64) -> (r: Option<(Expr, usize)>)
    requires
        i <= s@.len(),
    ensures
        parse_matches(r, sp_sum(s@, i as int, fuel as nat)),
        match r {
            Some(p) => p.1 <= s@.len(),
            None => true,
        },
    decreases fuel,
{
    if fuel == 0 {
        return None;
    }
    match p_product(s, i, fuel - 1) {
        Some((e, j)) => p_sum_rest(e, s, j, fuel - 1),
        None => None,
    }
}

fn p_sum_rest(acc: Expr, s: &str, i: usize, fuel: u64) -> (r: Option<(Expr, usize)>)
    requires
        i <= s@.len(),
    ensures
        parse_matches(r, sp_sum_rest(expr_view(acc), s@, i as int, fuel as nat)),
        match r {
            Some(p) => p.1 <= s@.len(),
            None => true,
        },
    decreases fuel,
{
    if fuel == 0 {
        return None;
    }
    let k = skip_ws(s, i);
    let n = s.unicode_len();
    if k < n {
        let c = s.get_char(k);
        if c == '+' || c == '-' {
            match p_product(s, k + 1, fuel - 1) {
                Some((rhs, j)) => {
                    let node = if c == '+' {
                        Expr::add(acc, rhs)
                    } else {
                        Expr::sub(acc, rhs)
                    };
                    return p_sum_rest(node, s, j, fuel - 1);
                },
                None => {
                    return Some((acc, i));
                },
            }
        }
    }
    Some((acc, i))
}

fn p_product(s: &str, i: usize, fuel: u64) -> (r: Option<(Expr, usize)>)
    requires
        i <= s@.len(),
    ensures
        parse_matches(r, sp_product(s@, i as int, fuel as nat)),
        match r {
            Some(p) => p.1 <= s@.len(),
            None => true,
        },
    decreases fuel,
{
    if fuel == 0 {
        return None;
    }
    match p_unary(s, i, fuel - 1) {
        Some((e, j)) => p_product_rest(e, s, j, fuel - 1),
        None => None,
    }
}

fn p_product_rest(acc: Expr, s: &str, i: usize, fuel: u64) -> (r: Option<(Expr, usize)>)
    requires
        i <= s@.len(),
    ensures
        parse_matches(r, sp_product_rest(expr_view(acc), s@, i as int, fuel as nat)),
        match r {
            Some(p) => p.1 <= s@.len(),
            None => true,
        },
    decreases fuel,
{
    if fuel == 0 {
        return None;
    }
    let k = skip_ws(s, i);
    let n = s.unicode_len();
    if k < n {
        let c = s.get_char(k);
        if c == '*' || c == '/' {
            match p_unary(s, k + 1, fuel - 1) {
                Some((rhs, j)) => {
                    let node = if c == '*' {
                        Expr::mul(acc, rhs)
                    } else {
                        Expr::div(acc, rhs)
                    };
                    return p_product_rest(node, s, j, fuel - 1);
                },
                None => {
                    return Some((acc, i));
                },
            }
        }
    }
    Some((acc, i))
}

fn p_unary(s: &str, i: usize, fuel: u64) -> (r: Option<(Expr, usize)>)
    requires
        i <= s@.len(),
    ensures
        parse_matches(r, sp_unary(s@, i as int, fuel as nat)),
        match r {
            Some(p) => p.1 <= s@.len(),
            None => true,
        },
    decreases fuel,
{
    if fuel == 0 {
        return None;
    }
    let k = skip_ws(s, i);
    let n = s.unicode_len();
    if k < n {
        let c = s.get_char(k);
        if c == '-' {
            return match p_unary(s, k + 1, fuel - 1) {
                Some((e, j)) => Some((Expr::neg(e), j)),
                None => None,
            };
        }
    }
    p_atom(s, i, fuel - 1)
}

fn p_atom(s: &str, i: usize, fuel: u64) -> (r: Option<(Expr, usize)>)
    requires
        i <= s@.len(),
    ensures
        parse_matches(r, sp_atom(s@, i as int, fuel as nat)),
        match r {
            Some(p) => p.1 <= s@.len(),
            None => true,
        },
    decreases fuel,
{
    if fuel == 0 {
        return None;
    }
    let k = skip_ws(s, i);
    let n = s.unicode_len();
    if k >= n {
        return None;
    }
    let c = s.get_char(k);
    if is_digit_exec(c) {
        proof {
            lemma_number_end_bounds(s@, k as int);
        }
        let end = number_end(s, k);
        let bits = decimal_bits_exec(s, k, end);
        return Some((Expr::Number(bits), end));
    }
    if c == '(' {
        return match p_sum(s, k + 1, fuel - 1) {
            Some((e, j)) => {
                let j2 = skip_ws(s, j);
                if j2 < n {
                    let c2 = s.get_char(j2);
                    if c2 == ')' {
                        return Some((e, j2 + 1));
                    }
                }
                None
            },
            None => None,
        };
    }
    if c == '\'' {
        let e = quote_end(s, k + 1);
        if e < n {
            let payload = s.substring_char(k + 1, e).to_owned();
            return Some((Expr::Text(payload), e + 1));
        }
        return None;
    }
    if c == '&' {
        return p_raw_ref(s, k + 1, fuel - 1);
    }
    if is_ident_start_exec(c) {
        let e = ident_end(s, k);
        let k2 = skip_ws(s, e);
        if k2 < n {
            let c2 = s.get_char(k2);
            if c2 == '(' {
                return match p_call_args(s, k2 + 1, fuel - 1) {
                    Some((args, j)) => {
                        let name = s.substring_char(k, e).to_owned();
                        Some((Expr::Call(name, args), j))
                    },
                    None => None,
                };
            }
            if c2 == '[' {
                return match p_bracket(s, k2 + 1, fuel - 1) {
                    Some(((row, col), j)) => {
                        let name = s.substring_char(k, e).to_owned();
                        let sheet_e = Expr::Sheet(name);
                        proof {
                            assert(expr_view(sheet_e) == ExprV::Sheet(
                                s@.subrange(k as int, e as int),
                            ));
                        }
                        let ref_e = Expr::cell_ref(Some(sheet_e), row, col);
                        proof {
                            assert(expr_view(ref_e) == ExprV::CellRef(
                                Some(Box::new(expr_view(sheet_e))),
                                Box::new(expr_view(row)),
                                Box::new(expr_view(col)),
                            ));
                        }
                        let deref_e = Expr::cell_deref(ref_e);
                        proof {
                            assert(expr_view(deref_e) == ExprV::CellDeref(
                                Box::new(expr_view(ref_e)),
                            ));
                        }
                        Some((deref_e, j))
                    },
                    None => None,
                };
            }
        }
        let name = s.substring_char(k, e);
        if str_eq(name, "true") {
            return Some((Expr::Bool(true), e));
        }
        if str_eq(name, "false") {
            return Some((Expr::Bool(false), e));
        }
        return None;
    }
    if c == '[' {
        return match p_bracket(s, k + 1, fuel - 1) {
            Some(((row, col), j)) => {
                let ref_e = Expr::cell_ref(None, row, col);
                proof {
                    assert(expr_view(ref_e) == ExprV::CellRef(
                        None,
                        Box::new(expr_view(row)),
                        Box::new(expr_view(col)),
                    ));
                }
                let deref_e = Expr::cell_deref(ref_e);
                proof {
                    assert(expr_view(deref_e) == ExprV::CellDeref(Box::new(expr_view(ref_e))));
                }
                Some((deref_e, j))
            },
            None => None,
        };
    }
    None
}

fn p_raw_ref(s: &str, i: usize, fuel: u64) -> (r: Option<(Expr, usize)>)
    requires
        i <= s@.len(),
    ensures
        parse_matches(r, sp_raw_ref(s@, i as int, fuel as nat)),
        match r {
            Some(p) => p.1 <= s@.len(),
            None => true,
        },
    decreases fuel,
{
    if fuel == 0 {
        return None;
    }
    let k = skip_ws(s, i);
    let n = s.unicode_len();
    if k < n {
        let c = s.get_char(k);
        if is_ident_start_exec(c) {
            let e = ident_end(s, k);
            let k2 = skip_ws(s, e);
            if k2 < n {
                let c2 = s.get_char(k2);
                if c2 == '[' {
                    return match p_bracket(s, k2 + 1, fuel - 1) {
                        Some(((row, col), j)) => {
                            let name = s.substring_char(k, e).to_owned();
                            let sheet_e = Expr::Sheet(name);
                            proof {
                                assert(expr_view(sheet_e) == ExprV::Sheet(
                                    s@.subrange(k as int, e as int),
                                ));
                            }
                            Some((Expr::cell_ref(Some(sheet_e), row, col), j))
                        },
                        None => None,
                    };
                }
            }
            return None;
        }
        if c == '[' {
            return match p_bracket(s, k + 1, fuel - 1) {
                Some(((row, col), j)) => Some((Expr::cell_ref(None, row, col), j)),
                None => None,
            };
        }
    }
    None
}

fn p_bracket(s: &str, i: usize, fuel: u64) -> (r: Option<((Expr, Expr), usize)>)
    requires
        i <= s@.len(),
    ensures
        bracket_matches(r, sp_bracket(s@, i as int, fuel as nat)),
        match r {
            Some(p) => p.1 <= s@.len(),
            None => true,
        },
    decreases fuel,
{
    if fuel == 0 {
        return None;
    }
    let n = s.unicode_len();
    match p_sum(s, i, fuel - 1) {
        Some((row, j1)) => {
            let k = skip_ws(s, j1);
            if k < n {
                let c = s.get_char(k);
                if c == ',' {
                    return match p_sum(s, k + 1, fuel - 1) {
                        Some((col, j2)) => {
                            let k2 = skip_ws(s, j2);
                            if k2 < n {
                                let c2 = s.get_char(k2);
                                if c2 == ']' {
                                    return Some(((row, col), k2 + 1));
                                }
                            }
                            None
                        },
                        None => None,
                    };
                }
            }
            None
        },
        None => None,
    }
}

fn p_call_args(s: &str, i: usize, fuel: u64) -> (r: Option<(Vec<Expr>, usize)>)
    requires
        i <= s@.len(),
    ensures
        args_matches(r, sp_call_args(s@, i as int, fuel as nat)),
        match r {
            Some(p) => p.1 <= s@.len(),
            None => true,
        },
    decreases fuel,
{
    if fuel == 0 {
        return None;
    }
    let k = skip_ws(s, i);
    let n = s.unicode_len();
    if k < n {
        let c = s.get_char(k);
        if c == ')' {
            let empty: Vec<Expr> = Vec::new();
            return Some((empty, k + 1));
        }
    }
    match p_sum(s, i, fuel - 1) {
        Some((e, j)) => {
            let mut acc: Vec<Expr> = Vec::new();
            proof {
                crate::language::lemma_exprs_view_push(acc@, e);
            }
            acc.push(e);
            p_args_rest(acc, s, j, fuel - 1)
        },
        None => None,
    }
}

fn p_args_rest(acc: Vec<Expr>, s: &str, i: usize, fuel: u64) -> (r: Option<(Vec<Expr>, usize)>)
    requires
        i <= s@.len(),
    ensures
        args_matches(r, sp_args_rest(exprs_view(acc@), s@, i as int, fuel as nat)),
        match r {
            Some(p) => p.1 <= s@.len(),
            None => true,
        },
    decreases fuel,
{
    if fuel == 0 {
        return None;
    }
    let k = skip_ws(s, i);
    let n = s.unicode_len();
    if k < n {
        let c = s.get_char(k);
        if c == ')' {
            return Some((acc, k + 1));
        }
        if c == ',' {
            let k2 = skip_ws(s, k + 1);
            if k2 < n {
                let c2 = s.get_char(k2);
                if c2 == ')' {
                    return Some((acc, k2 + 1));
                }
            }
            return match p_sum(s, k + 1, fuel - 1) {
                Some((e, j)) => {
                    let mut acc2 = acc;
                    proof {
                        crate::language::lemma_exprs_view_push(acc2@, e);
                    }
                    acc2.push(e);
                    p_args_rest(acc2, s, j, fuel - 1)
                },
                None => None,
            };
        }
    }
    None
}

/// Parses a whole formula body, returning the tree exactly when the
/// reference grammar accepts the script.
pub fn parse_script(s: &str) -> (r: Option<Expr>)
    ensures
        match (r, sp_parse(s@)) {
            (Some(e), Some(ev)) => expr_view(e) == ev,
            (None, None) => true,
            _ => false,
        },
{
    let n = s.unicode_len();
    if n > MAX_SCRIPT_LEN {
        return None;
    }
    let fuel: u64 = 8 * (n as u64) + 64;
    match p_sum(s, 0, fuel) {
        Some((e, j)) => {
            let j2 = skip_ws(s, j);
            if j2 == n {
                Some(e)
            } else {
                None
            }
        },
        None => None,
    }
}

} // verus!

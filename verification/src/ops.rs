//! Operator semantics: per-operator coercion rules over runtime values.
//!
//! Each executable operator returns exactly what its spec-level counterpart
//! on the value models says; a type mismatch yields nil (equality and the
//! boolean coercions excepted, which always yield a boolean).

use vstd::prelude::*;
use crate::ast::{Val, Value, ValuesArray, ValuesTable, Operator, vals_view, val_entries_view,
    lemma_vals_view, lemma_val_entries_view};
use crate::bytes::{idec, parse_i64, bytes_eq, bytes_concat, dup_bytes, idec_exec, take_range,
    parse_i64_exec};

verus! {

/// Whether an unbounded integer fits a 64-bit number.
pub open spec fn in_i64(n: int) -> bool {
    i64::MIN <= n <= i64::MAX
}

/// Magnitude.
pub open spec fn iabs(n: int) -> int {
    if n < 0 {
        -n
    } else {
        n
    }
}

/// Truncating division: the quotient rounds toward zero.
pub open spec fn tdiv(a: int, b: int) -> int {
    if (a >= 0) == (b >= 0) {
        iabs(a) / iabs(b)
    } else {
        -(iabs(a) / iabs(b))
    }
}

/// `a + b`: numbers add; strings concatenate; an array takes one more element.
pub open spec fn add_val(a: Val, b: Val) -> Val {
    match (a, b) {
        (Val::Num(x), Val::Num(y)) => if in_i64(x + y) {
            Val::Num(x + y)
        } else {
            Val::Nil
        },
        (Val::Str(x), Val::Str(y)) => Val::Str(x + y),
        (Val::Arr(x), _) => Val::Arr(x.push(b)),
        _ => Val::Nil,
    }
}

/// `-a` on a number.
pub open spec fn negate_val(a: Val) -> Val {
    match a {
        Val::Num(x) => if in_i64(-x) {
            Val::Num(-x)
        } else {
            Val::Nil
        },
        _ => Val::Nil,
    }
}

/// `a - b` on numbers.
pub open spec fn sub_val(a: Val, b: Val) -> Val {
    match (a, b) {
        (Val::Num(x), Val::Num(y)) => if in_i64(x - y) {
            Val::Num(x - y)
        } else {
            Val::Nil
        },
        _ => Val::Nil,
    }
}

/// `a * b` on numbers.
pub open spec fn mul_val(a: Val, b: Val) -> Val {
    match (a, b) {
        (Val::Num(x), Val::Num(y)) => if in_i64(x * y) {
            Val::Num(x * y)
        } else {
            Val::Nil
        },
        _ => Val::Nil,
    }
}

/// `a / b` on numbers: truncating; division by zero yields nil.
pub open spec fn div_val(a: Val, b: Val) -> Val {
    match (a, b) {
        (Val::Num(x), Val::Num(y)) => if y == 0 {
            Val::Nil
        } else if in_i64(tdiv(x, y)) {
            Val::Num(tdiv(x, y))
        } else {
            Val::Nil
        },
        _ => Val::Nil,
    }
}

/// `a == b`: numbers, strings and nil compare; everything else is unequal.
pub open spec fn eq_val(a: Val, b: Val) -> Val {
    match (a, b) {
        (Val::Num(x), Val::Num(y)) => Val::Bool(x == y),
        (Val::Str(x), Val::Str(y)) => Val::Bool(x == y),
        (Val::Nil, Val::Nil) => Val::Bool(true),
        _ => Val::Bool(false),
    }
}

/// `a != b`: the boolean complement of equality.
pub open spec fn neq_val(a: Val, b: Val) -> Val {
    match eq_val(a, b) {
        Val::Bool(v) => Val::Bool(!v),
        _ => Val::Nil,
    }
}

/// `a > b` on numbers.
pub open spec fn gt_val(a: Val, b: Val) -> Val {
    match (a, b) {
        (Val::Num(x), Val::Num(y)) => Val::Bool(x > y),
        _ => Val::Nil,
    }
}

/// `a < b` on numbers.
pub open spec fn lt_val(a: Val, b: Val) -> Val {
    match (a, b) {
        (Val::Num(x), Val::Num(y)) => Val::Bool(x < y),
        _ => Val::Nil,
    }
}

/// `a >= b` on numbers: the complement of `<`; nil on a type mismatch.
pub open spec fn gte_val(a: Val, b: Val) -> Val {
    match lt_val(a, b) {
        Val::Bool(v) => Val::Bool(!v),
        _ => Val::Nil,
    }
}

/// `a <= b` on numbers: the complement of `>`; nil on a type mismatch.
pub open spec fn lte_val(a: Val, b: Val) -> Val {
    match gt_val(a, b) {
        Val::Bool(v) => Val::Bool(!v),
        _ => Val::Nil,
    }
}

/// Truthiness: only `true` is truthy.
pub open spec fn as_bool_val(v: Val) -> bool {
    match v {
        Val::Bool(b) => b,
        _ => false,
    }
}

/// `a and b` on booleans, evaluated eagerly.
pub open spec fn and_val(a: Val, b: Val) -> Val {
    match (a, b) {
        (Val::Bool(x), Val::Bool(y)) => Val::Bool(x && y),
        _ => Val::Nil,
    }
}

/// `a or b` on booleans, evaluated eagerly.
pub open spec fn or_val(a: Val, b: Val) -> Val {
    match (a, b) {
        (Val::Bool(x), Val::Bool(y)) => Val::Bool(x || y),
        _ => Val::Nil,
    }
}

/// `!a`: the complement of truthiness.
pub open spec fn not_val(a: Val) -> Val {
    Val::Bool(!as_bool_val(a))
}

/// `a .. b` on numbers.
pub open spec fn exclusive_range_val(a: Val, b: Val) -> Val {
    match (a, b) {
        (Val::Num(x), Val::Num(y)) => Val::ExRange(x, y),
        _ => Val::Nil,
    }
}

/// `a ..= b` on numbers.
pub open spec fn inclusive_range_val(a: Val, b: Val) -> Val {
    match (a, b) {
        (Val::Num(x), Val::Num(y)) => Val::InRange(x, y),
        _ => Val::Nil,
    }
}

/// The text of a value where an operator needs one: strings as they are,
/// numbers in decimal, booleans and nil by name, anything else as question
/// marks.
pub open spec fn as_string_val(v: Val) -> Seq<u8> {
    match v {
        Val::Str(s) => s,
        Val::Num(n) => idec(n),
        Val::Bool(b) => if b {
            seq![116u8, 114u8, 117u8, 101u8]
        } else {
            seq![102u8, 97u8, 108u8, 115u8, 101u8]
        },
        Val::Nil => seq![110u8, 105u8, 108u8],
        _ => seq![63u8, 63u8, 63u8, 63u8],
    }
}

// ---------------------------------------------------------------------------
// Executable counterparts.
// ---------------------------------------------------------------------------

/// Add two values.
pub fn add(lhs: Value, rhs: Value) -> (r: Value)
    ensures
        r@ == add_val(lhs@, rhs@),
{
    match (lhs, rhs) {
        (Value::Number(a), Value::Number(b)) => {
            let s: i128 = a as i128 + b as i128;
            if s >= i64::MIN as i128 && s <= i64::MAX as i128 {
                Value::Number(s as i64)
            } else {
                Value::Nil
            }
        }
        (Value::String(a), Value::String(b)) => Value::String(bytes_concat(&a, &b)),
        (Value::Array(arr), b) => {
            let mut elements = arr.elements;
            let ghost before = elements@;
            elements.push(b);
            proof {
                lemma_vals_view(before);
                lemma_vals_view(elements@);
                assert(elements@.subrange(0, elements@.len() - 1) =~= before);
                assert(vals_view(elements@) =~= vals_view(before).push(b@));
            }
            Value::Array(ValuesArray { elements })
        }
        _ => Value::Nil,
    }
}

/// Negate a number.
pub fn negate(value: Value) -> (r: Value)
    ensures
        r@ == negate_val(value@),
{
    match value {
        Value::Number(a) => {
            if a == i64::MIN {
                Value::Nil
            } else {
                Value::Number(-a)
            }
        }
        _ => Value::Nil,
    }
}

/// Subtract two numbers.
pub fn sub(lhs: Value, rhs: Value) -> (r: Value)
    ensures
        r@ == sub_val(lhs@, rhs@),
{
    match (lhs, rhs) {
        (Value::Number(a), Value::Number(b)) => {
            let s: i128 = a as i128 - b as i128;
            if s >= i64::MIN as i128 && s <= i64::MAX as i128 {
                Value::Number(s as i64)
            } else {
                Value::Nil
            }
        }
        _ => Value::Nil,
    }
}

/// Multiply two numbers.
pub fn mul(lhs: Value, rhs: Value) -> (r: Value)
    ensures
        r@ == mul_val(lhs@, rhs@),
{
    match (lhs, rhs) {
        (Value::Number(a), Value::Number(b)) => {
            proof {
                assert((a as i128) * (b as i128) == (a as int) * (b as int)
                    && -0x8000_0000_0000_0000_0000_0000_0000_0000 <= (a as int) * (b as int)
                    < 0x8000_0000_0000_0000_0000_0000_0000_0000) by (nonlinear_arith)
                    requires
                        i64::MIN <= a <= i64::MAX,
                        i64::MIN <= b <= i64::MAX,
                ;
            }
            let p: i128 = (a as i128) * (b as i128);
            if p >= i64::MIN as i128 && p <= i64::MAX as i128 {
                Value::Number(p as i64)
            } else {
                Value::Nil
            }
        }
        _ => Value::Nil,
    }
}

/// Divide two numbers, truncating toward zero; division by zero yields nil.
pub fn div(lhs: Value, rhs: Value) -> (r: Value)
    ensures
        r@ == div_val(lhs@, rhs@),
{
    match (lhs, rhs) {
        (Value::Number(a), Value::Number(b)) => {
            if b == 0 {
                return Value::Nil;
            }
            let ma: u64 = if a >= 0 {
                a as u64
            } else {
                (-(a as i128)) as u64
            };
            let mb: u64 = if b >= 0 {
                b as u64
            } else {
                (-(b as i128)) as u64
            };
            let q: u64 = ma / mb;
            proof {
                assert(ma == iabs(a as int));
                assert(mb == iabs(b as int));
                assert(q == iabs(a as int) / iabs(b as int));
            }
            if (a >= 0) == (b >= 0) {
                if q <= i64::MAX as u64 {
                    Value::Number(q as i64)
                } else {
                    Value::Nil
                }
            } else {
                if q <= i64::MAX as u64 {
                    Value::Number(-(q as i64))
                } else if q == 0x8000_0000_0000_0000 {
                    Value::Number(i64::MIN)
                } else {
                    Value::Nil
                }
            }
        }
        _ => Value::Nil,
    }
}

/// Decide equality of two values.
pub fn eq(lhs: Value, rhs: Value) -> (r: Value)
    ensures
        r@ == eq_val(lhs@, rhs@),
{
    match (lhs, rhs) {
        (Value::Number(a), Value::Number(b)) => Value::Boolean(a == b),
        (Value::String(a), Value::String(b)) => Value::Boolean(bytes_eq(&a, &b)),
        (Value::Nil, Value::Nil) => Value::Boolean(true),
        _ => Value::Boolean(false),
    }
}

/// Decide inequality of two values.
pub fn neq(lhs: Value, rhs: Value) -> (r: Value)
    ensures
        r@ == neq_val(lhs@, rhs@),
{
    match crate::ops::eq(lhs, rhs) {
        Value::Boolean(v) => Value::Boolean(!v),
        _ => Value::Nil,
    }
}

/// `>` on numbers.
pub fn gt(lhs: Value, rhs: Value) -> (r: Value)
    ensures
        r@ == gt_val(lhs@, rhs@),
{
    match (lhs, rhs) {
        (Value::Number(a), Value::Number(b)) => Value::Boolean(a > b),
        _ => Value::Nil,
    }
}

/// `<` on numbers.
pub fn lt(lhs: Value, rhs: Value) -> (r: Value)
    ensures
        r@ == lt_val(lhs@, rhs@),
{
    match (lhs, rhs) {
        (Value::Number(a), Value::Number(b)) => Value::Boolean(a < b),
        _ => Value::Nil,
    }
}

/// `>=` on numbers; nil on a type mismatch.
pub fn gte(lhs: Value, rhs: Value) -> (r: Value)
    ensures
        r@ == gte_val(lhs@, rhs@),
{
    match crate::ops::lt(lhs, rhs) {
        Value::Boolean(v) => Value::Boolean(!v),
        _ => Value::Nil,
    }
}

/// `<=` on numbers; nil on a type mismatch.
pub fn lte(lhs: Value, rhs: Value) -> (r: Value)
    ensures
        r@ == lte_val(lhs@, rhs@),
{
    match crate::ops::gt(lhs, rhs) {
        Value::Boolean(v) => Value::Boolean(!v),
        _ => Value::Nil,
    }
}

/// Truthiness.
pub fn as_bool(value: Value) -> (r: bool)
    ensures
        r == as_bool_val(value@),
{
    match value {
        Value::Boolean(b) => b,
        _ => false,
    }
}

/// `and` on booleans.
pub fn and(lhs: Value, rhs: Value) -> (r: Value)
    ensures
        r@ == and_val(lhs@, rhs@),
{
    match (lhs, rhs) {
        (Value::Boolean(a), Value::Boolean(b)) => Value::Boolean(a && b),
        _ => Value::Nil,
    }
}

/// `or` on booleans.
pub fn or(lhs: Value, rhs: Value) -> (r: Value)
    ensures
        r@ == or_val(lhs@, rhs@),
{
    match (lhs, rhs) {
        (Value::Boolean(a), Value::Boolean(b)) => Value::Boolean(a || b),
        _ => Value::Nil,
    }
}

/// `!`: the complement of truthiness.
pub fn not(value: Value) -> (r: Value)
    ensures
        r@ == not_val(value@),
{
    Value::Boolean(!crate::ops::as_bool(value))
}

/// `..` on numbers.
pub fn exclusive_range(lhs: Value, rhs: Value) -> (r: Value)
    ensures
        r@ == exclusive_range_val(lhs@, rhs@),
{
    match (lhs, rhs) {
        (Value::Number(a), Value::Number(b)) => Value::ExclusiveRange(a, b),
        _ => Value::Nil,
    }
}

/// `..=` on numbers.
pub fn inclusive_range(lhs: Value, rhs: Value) -> (r: Value)
    ensures
        r@ == inclusive_range_val(lhs@, rhs@),
{
    match (lhs, rhs) {
        (Value::Number(a), Value::Number(b)) => Value::InclusiveRange(a, b),
        _ => Value::Nil,
    }
}

/// The text of a value.
pub fn as_string(value: Value) -> (r: Vec<u8>)
    ensures
        r@ == as_string_val(value@),
{
    match value {
        Value::String(s) => s,
        Value::Number(n) => idec_exec(n),
        Value::Boolean(b) => {
            // "true" / "false"
            let r: Vec<u8> = if b {
                vec![116, 114, 117, 101]
            } else {
                vec![102, 97, 108, 115, 101]
            };
            proof {
                assert(r@ =~= as_string_val(value@));
            }
            r
        }
        Value::Nil => {
            // "nil"
            let r: Vec<u8> = vec![110, 105, 108];
            proof {
                assert(r@ =~= as_string_val(value@));
            }
            r
        }
        _ => {
            // "????"
            let r: Vec<u8> = vec![63, 63, 63, 63];
            proof {
                assert(r@ =~= as_string_val(value@));
            }
            r
        }
    }
}

// ---------------------------------------------------------------------------
// String splitting and joining.
// ---------------------------------------------------------------------------

/// What splitting at an empty separator yields: every byte on its own,
/// with an empty segment at each end, as a string library splitting at
/// every boundary does. (This splits between bytes; one walking character
/// boundaries would differ on multi-byte text.)
pub open spec fn empty_split(s: Seq<u8>) -> Seq<Seq<u8>> {
    seq![Seq::<u8>::empty()] + Seq::new(s.len(), |k: int| seq![s[k]]) + seq![Seq::<u8>::empty()]
}

/// Split a byte string at every occurrence of a separator. Splitting keeps
/// empty segments, as the separator-adjacent parts of `"a,,b"` show.
pub open spec fn split_bytes(s: Seq<u8>, sep: Seq<u8>) -> Seq<Seq<u8>>
    decreases s.len(),
{
    if sep.len() == 0 {
        empty_split(s)
    } else if s.len() < sep.len() {
        seq![s]
    } else if s.subrange(0, sep.len() as int) == sep {
        seq![Seq::<u8>::empty()] + split_bytes(s.subrange(sep.len() as int, s.len() as int), sep)
    } else {
        let r = split_bytes(s.subrange(1, s.len() as int), sep);
        seq![seq![s[0]] + r[0]] + r.subrange(1, r.len() as int)
    }
}

proof fn lemma_split_nonempty(s: Seq<u8>, sep: Seq<u8>)
    ensures
        split_bytes(s, sep).len() >= 1,
    decreases s.len(),
{
    if !(sep.len() == 0 || s.len() < sep.len()) {
        if s.subrange(0, sep.len() as int) == sep {
            lemma_split_nonempty(s.subrange(sep.len() as int, s.len() as int), sep);
        } else {
            lemma_split_nonempty(s.subrange(1, s.len() as int), sep);
        }
    }
}

/// Split a byte string at the first occurrence of a separator, into one or
/// two parts; an empty separator splits before the first byte.
pub open spec fn split_once_bytes(s: Seq<u8>, sep: Seq<u8>) -> Seq<Seq<u8>>
    decreases s.len(),
{
    if sep.len() == 0 {
        seq![Seq::<u8>::empty(), s]
    } else if s.len() < sep.len() {
        seq![s]
    } else if s.subrange(0, sep.len() as int) == sep {
        seq![Seq::<u8>::empty(), s.subrange(sep.len() as int, s.len() as int)]
    } else {
        let r = split_once_bytes(s.subrange(1, s.len() as int), sep);
        if r.len() == 1 {
            seq![s]
        } else {
            seq![seq![s[0]] + r[0], r[1]]
        }
    }
}

/// Join the texts of a sequence of values with a separator.
pub open spec fn join_vals(elems: Seq<Val>, sep: Seq<u8>) -> Seq<u8>
    decreases elems.len(),
{
    if elems.len() == 0 {
        Seq::empty()
    } else if elems.len() == 1 {
        as_string_val(elems[0])
    } else {
        join_vals(elems.subrange(0, elems.len() - 1), sep) + sep + as_string_val(
            elems[elems.len() - 1],
        )
    }
}

/// `a $ b`: a string splits at a separator; an array joins with one.
pub open spec fn dollar_val(a: Val, b: Val) -> Val {
    match (a, b) {
        (Val::Str(x), Val::Str(y)) => Val::Arr(
            split_bytes(x, y).map_values(|t: Seq<u8>| Val::Str(t)),
        ),
        (Val::Arr(x), Val::Str(y)) => Val::Str(join_vals(x, y)),
        _ => Val::Nil,
    }
}

/// The array that `$$` makes of an array: the texts of the first two elements
/// joined with the separator, then the texts of the rest.
pub open spec fn dd_arr(x: Seq<Val>, y: Seq<u8>) -> Seq<Val> {
    if x.len() == 0 {
        Seq::empty()
    } else if x.len() == 1 {
        seq![Val::Str(as_string_val(x[0]))]
    } else {
        seq![Val::Str(as_string_val(x[0]) + y + as_string_val(x[1]))] + x.subrange(
            2,
            x.len() as int,
        ).map_values(|v: Val| Val::Str(as_string_val(v)))
    }
}

/// `a $$ b`: a string splits once at a separator; an array joins its first
/// two elements with one.
pub open spec fn double_dollar_val(a: Val, b: Val) -> Val {
    match (a, b) {
        (Val::Str(x), Val::Str(y)) => Val::Arr(
            split_once_bytes(x, y).map_values(|t: Seq<u8>| Val::Str(t)),
        ),
        (Val::Arr(x), Val::Str(y)) => Val::Arr(dd_arr(x, y)),
        _ => Val::Nil,
    }
}

/// Split a byte vector at every occurrence of a separator.
pub fn split_exec(s: &Vec<u8>, sep: &Vec<u8>) -> (r: Vec<Vec<u8>>)
    ensures
        r@.len() == split_bytes(s@, sep@).len(),
        forall|i: int| 0 <= i < r@.len() ==> r@[i]@ == split_bytes(s@, sep@)[i],
        r@.len() >= 1,
    decreases s@.len(),
{
    proof {
        lemma_split_nonempty(s@, sep@);
    }
    if sep.len() == 0 {
        let mut out: Vec<Vec<u8>> = Vec::new();
        out.push(Vec::new());
        let mut k: usize = 0;
        while k < s.len()
            invariant
                k <= s@.len(),
                out@.len() == k + 1,
                out@[0]@ == Seq::<u8>::empty(),
                forall|q: int| 1 <= q <= k ==> out@[q]@ == seq![s@[q - 1]],
            decreases s@.len() - k,
        {
            let mut piece: Vec<u8> = Vec::new();
            piece.push(s[k]);
            proof {
                assert(piece@ =~= seq![s@[k as int]]);
            }
            out.push(piece);
            k = k + 1;
        }
        out.push(Vec::new());
        proof {
            assert(out@.len() == empty_split(s@).len());
            assert forall|q: int| 0 <= q < out@.len() implies out@[q]@ == empty_split(s@)[q] by {
                if q == 0 {
                } else if q < out@.len() - 1 {
                    assert(empty_split(s@)[q] == seq![s@[q - 1]]);
                } else {
                    assert(empty_split(s@)[q] == Seq::<u8>::empty());
                }
            }
        }
        return out;
    }
    if s.len() < sep.len() {
        let mut out: Vec<Vec<u8>> = Vec::new();
        out.push(dup_bytes(s));
        return out;
    }
    let head = take_range(s, 0, sep.len());
    if bytes_eq(&head, sep) {
        let tail = take_range(s, sep.len(), s.len());
        let rest = split_exec(&tail, sep);
        let mut out: Vec<Vec<u8>> = Vec::new();
        out.push(Vec::new());
        let mut k: usize = 0;
        while k < rest.len()
            invariant
                k <= rest@.len(),
                out@.len() == k + 1,
                out@[0]@ == Seq::<u8>::empty(),
                forall|i: int| 1 <= i < out@.len() ==> out@[i]@ == rest@[i - 1]@,
            decreases rest@.len() - k,
        {
            out.push(dup_bytes(&rest[k]));
            k = k + 1;
        }
        proof {
            let sp = split_bytes(s@, sep@);
            assert(sp == seq![Seq::<u8>::empty()] + split_bytes(tail@, sep@));
        }
        out
    } else {
        let tail = take_range(s, 1, s.len());
        let mut rest = split_exec(&tail, sep);
        let b = s[0];
        rest[0].insert(0, b);
        proof {
            let sp = split_bytes(s@, sep@);
            let rsp = split_bytes(tail@, sep@);
            assert(sp == seq![seq![s@[0]] + rsp[0]] + rsp.subrange(1, rsp.len() as int));
            assert(rest@[0]@ =~= seq![s@[0]] + rsp[0]);
        }
        rest
    }
}

/// Split a byte vector at the first occurrence of a separator.
pub fn split_once_exec(s: &Vec<u8>, sep: &Vec<u8>) -> (r: Vec<Vec<u8>>)
    ensures
        r@.len() == split_once_bytes(s@, sep@).len(),
        forall|i: int| 0 <= i < r@.len() ==> r@[i]@ == split_once_bytes(s@, sep@)[i],
    decreases s@.len(),
{
    if sep.len() == 0 {
        let mut out: Vec<Vec<u8>> = Vec::new();
        out.push(Vec::new());
        out.push(dup_bytes(s));
        return out;
    }
    if s.len() < sep.len() {
        let mut out: Vec<Vec<u8>> = Vec::new();
        out.push(dup_bytes(s));
        return out;
    }
    let head = take_range(s, 0, sep.len());
    if bytes_eq(&head, sep) {
        let mut out: Vec<Vec<u8>> = Vec::new();
        out.push(Vec::new());
        out.push(take_range(s, sep.len(), s.len()));
        return out;
    }
    let tail = take_range(s, 1, s.len());
    let mut rest = split_once_exec(&tail, sep);
    if rest.len() == 1 {
        let mut out: Vec<Vec<u8>> = Vec::new();
        out.push(dup_bytes(s));
        out
    } else {
        let b = s[0];
        rest[0].insert(0, b);
        proof {
            let rsp = split_once_bytes(tail@, sep@);
            assert(rest@[0]@ =~= seq![s@[0]] + rsp[0]);
        }
        rest
    }
}

/// `$`: split a string, or join an array.
#[verifier::loop_isolation(false)]
pub fn dollar(lhs: Value, rhs: Value) -> (r: Value)
    ensures
        r@ == dollar_val(lhs@, rhs@),
{
    broadcast use lemma_vals_view;

    match (lhs, rhs) {
        (Value::String(a), Value::String(b)) => {
            let parts = split_exec(&a, &b);
            let mut elements: Vec<Value> = Vec::new();
            let mut i: usize = 0;
            while i < parts.len()
                invariant
                    i <= parts@.len(),
                    elements@.len() == i,
                    forall|j: int|
                        0 <= j < i ==> elements@[j]@ == Val::Str(split_bytes(a@, b@)[j]),
                decreases parts@.len() - i,
            {
                elements.push(Value::String(dup_bytes(&parts[i])));
                i = i + 1;
            }
            proof {
                assert(vals_view(elements@) =~= split_bytes(a@, b@).map_values(
                    |t: Seq<u8>| Val::Str(t),
                ));
            }
            Value::Array(ValuesArray { elements })
        }
        (Value::Array(arr), Value::String(b)) => {
            let ghost elems = vals_view(arr.elements@);
            let mut out: Vec<u8> = Vec::new();
            let mut i: usize = 0;
            while i < arr.elements.len()
                invariant
                    i <= arr.elements@.len(),
                    out@ == join_vals(elems.subrange(0, i as int), b@),
                decreases arr.elements@.len() - i,
            {
                if i > 0 {
                    out = bytes_concat(&out, &b);
                }
                let t = crate::ops::as_string(arr.elements[i].dup());
                out = bytes_concat(&out, &t);
                proof {
                    let upto = elems.subrange(0, i + 1);
                    assert(upto.subrange(0, upto.len() - 1) =~= elems.subrange(0, i as int));
                    assert(upto[upto.len() - 1] == elems[i as int]);
                    if i == 0 {
                        assert(out@ =~= join_vals(upto, b@));
                    }
                }
                i = i + 1;
            }
            proof {
                assert(elems.subrange(0, elems.len() as int) =~= elems);
            }
            Value::String(out)
        }
        _ => Value::Nil,
    }
}

/// `$$`: split a string once, or join an array's first two elements.
#[verifier::loop_isolation(false)]
pub fn double_dollar(lhs: Value, rhs: Value) -> (r: Value)
    ensures
        r@ == double_dollar_val(lhs@, rhs@),
{
    broadcast use lemma_vals_view;

    match (lhs, rhs) {
        (Value::String(a), Value::String(b)) => {
            let parts = split_once_exec(&a, &b);
            let mut elements: Vec<Value> = Vec::new();
            let mut i: usize = 0;
            while i < parts.len()
                invariant
                    i <= parts@.len(),
                    elements@.len() == i,
                    forall|j: int|
                        0 <= j < i ==> elements@[j]@ == Val::Str(split_once_bytes(a@, b@)[j]),
                decreases parts@.len() - i,
            {
                elements.push(Value::String(dup_bytes(&parts[i])));
                i = i + 1;
            }
            proof {
                assert(vals_view(elements@) =~= split_once_bytes(a@, b@).map_values(
                    |t: Seq<u8>| Val::Str(t),
                ));
            }
            Value::Array(ValuesArray { elements })
        }
        (Value::Array(arr), Value::String(b)) => {
            let ghost elems = vals_view(arr.elements@);
            let mut elements: Vec<Value> = Vec::new();
            if arr.elements.len() == 0 {
                proof {
                    assert(vals_view(elements@) =~= dd_arr(elems, b@));
                }
                return Value::Array(ValuesArray { elements });
            }
            if arr.elements.len() == 1 {
                elements.push(Value::String(crate::ops::as_string(arr.elements[0].dup())));
                proof {
                    assert(vals_view(elements@) =~= dd_arr(elems, b@));
                }
                return Value::Array(ValuesArray { elements });
            }
            let first = crate::ops::as_string(arr.elements[0].dup());
            let second = crate::ops::as_string(arr.elements[1].dup());
            let joined = bytes_concat(&bytes_concat(&first, &b), &second);
            elements.push(Value::String(joined));
            let mut i: usize = 2;
            while i < arr.elements.len()
                invariant
                    2 <= i <= arr.elements@.len(),
                    elements@.len() == i - 1,
                    elements@[0]@ == Val::Str(
                        as_string_val(elems[0]) + b@ + as_string_val(elems[1]),
                    ),
                    forall|j: int|
                        1 <= j < i - 1 ==> elements@[j]@ == Val::Str(
                            as_string_val(elems[j + 1]),
                        ),
                decreases arr.elements@.len() - i,
            {
                elements.push(Value::String(crate::ops::as_string(arr.elements[i].dup())));
                i = i + 1;
            }
            proof {
                assert(vals_view(elements@) =~= dd_arr(elems, b@));
            }
            Value::Array(ValuesArray { elements })
        }
        _ => Value::Nil,
    }
}

// ---------------------------------------------------------------------------
// Indexing and table reflection.
// ---------------------------------------------------------------------------

/// Normalise an index against a length: in range directly, or from the end
/// when negative; otherwise absent.
pub open spec fn to_index(i: int, len: int) -> Option<int> {
    if 0 <= i < len {
        Option::Some(i)
    } else if 0 <= len + i < len {
        Option::Some(len + i)
    } else {
        Option::None
    }
}

/// Look a key up in a table.
pub open spec fn tbl_get(entries: Seq<(Seq<u8>, Val)>, key: Seq<u8>) -> Option<Val>
    decreases entries.len(),
{
    if entries.len() == 0 {
        Option::None
    } else if entries[0].0 == key {
        Option::Some(entries[0].1)
    } else {
        tbl_get(entries.subrange(1, entries.len() as int), key)
    }
}

/// Write a key in a table: in place where the key exists, appended otherwise.
pub open spec fn tbl_put(entries: Seq<(Seq<u8>, Val)>, key: Seq<u8>, v: Val) -> Seq<
    (Seq<u8>, Val),
>
    decreases entries.len(),
{
    if entries.len() == 0 {
        seq![(key, v)]
    } else if entries[0].0 == key {
        seq![(key, v)] + entries.subrange(1, entries.len() as int)
    } else {
        seq![entries[0]] + tbl_put(entries.subrange(1, entries.len() as int), key, v)
    }
}

/// The sub-array an inclusive pair of normalised ends selects; nil when an
/// end is out of range or the ends normalise out of order.
pub open spec fn range_slice(x: Seq<Val>, s: int, e: int) -> Val {
    match (to_index(s, x.len() as int), to_index(e, x.len() as int)) {
        (Option::Some(a), Option::Some(b)) => if a <= b + 1 {
            Val::Arr(x.subrange(a, b + 1))
        } else {
            Val::Nil
        },
        _ => Val::Nil,
    }
}

/// `v[idx]`: arrays take numbers (negative wraps), ranges (a sub-array; an
/// exclusive range drops its upper bound) and strings that denote numbers;
/// tables take string keys. Anything else yields nil. A string index must
/// denote a 64-bit integer - the one number form this value model has - so
/// a fractional text like `"1.5"` is no index and yields nil.
pub open spec fn index_val(v: Val, idx: Val) -> Val {
    match v {
        Val::Arr(x) => match idx {
            Val::Num(n) => match to_index(n, x.len() as int) {
                Option::Some(i) => x[i],
                Option::None => Val::Nil,
            },
            Val::ExRange(s, e) => range_slice(x, s, e - 1),
            Val::InRange(s, e) => range_slice(x, s, e),
            Val::Str(k) => match parse_i64(k) {
                Option::Some(n) => match to_index(n, x.len() as int) {
                    Option::Some(i) => x[i],
                    Option::None => Val::Nil,
                },
                Option::None => Val::Nil,
            },
            _ => Val::Nil,
        },
        Val::Tbl(t) => match idx {
            Val::Str(k) => match tbl_get(t, k) {
                Option::Some(w) => w,
                Option::None => Val::Nil,
            },
            _ => Val::Nil,
        },
        _ => Val::Nil,
    }
}

/// `v.name`: indexing with the name as a string key.
pub open spec fn dot_index_val(v: Val, name: Seq<u8>) -> Val {
    index_val(v, Val::Str(name))
}

/// `#t`: the keys of a table, in entry order.
pub open spec fn hash_val(v: Val) -> Val {
    match v {
        Val::Tbl(t) => Val::Arr(t.map_values(|e: (Seq<u8>, Val)| Val::Str(e.0))),
        _ => Val::Nil,
    }
}

/// `##t`: the values of a table, in entry order.
pub open spec fn double_hash_val(v: Val) -> Val {
    match v {
        Val::Tbl(t) => Val::Arr(t.map_values(|e: (Seq<u8>, Val)| e.1)),
        _ => Val::Nil,
    }
}

/// `###t`: the key/value pairs of a table, each as a two-element array.
pub open spec fn triple_hash_val(v: Val) -> Val {
    match v {
        Val::Tbl(t) => Val::Arr(
            t.map_values(|e: (Seq<u8>, Val)| Val::Arr(seq![Val::Str(e.0), e.1])),
        ),
        _ => Val::Nil,
    }
}

/// Normalise an index against a length.
pub fn to_index_exec(i: i128, len: usize) -> (r: Option<usize>)
    requires
        -0x1_0000_0000_0000_0000_0000 <= i <= 0x1_0000_0000_0000_0000_0000,
    ensures
        match r {
            Option::Some(k) => to_index(i as int, len as int) == Option::Some(k as int),
            Option::None => to_index(i as int, len as int) is None,
        },
{
    if 0 <= i && i < len as i128 {
        Option::Some(i as usize)
    } else {
        let j: i128 = len as i128 + i;
        if 0 <= j && j < len as i128 {
            Option::Some(j as usize)
        } else {
            Option::None
        }
    }
}

proof fn lemma_tbl_get_at(t: Seq<(Seq<u8>, Val)>, key: Seq<u8>, i: int)
    requires
        0 <= i < t.len(),
        t[i].0 == key,
        forall|j: int| 0 <= j < i ==> t[j].0 != key,
    ensures
        tbl_get(t, key) == Option::Some(t[i].1),
    decreases i,
{
    if i > 0 {
        let rest = t.subrange(1, t.len() as int);
        lemma_tbl_get_at(rest, key, i - 1);
        assert(rest[i - 1] == t[i]);
        assert(forall|j: int| 0 <= j < i - 1 ==> rest[j] == t[j + 1]);
    }
}

proof fn lemma_tbl_get_absent(t: Seq<(Seq<u8>, Val)>, key: Seq<u8>)
    requires
        forall|j: int| 0 <= j < t.len() ==> t[j].0 != key,
    ensures
        tbl_get(t, key) is None,
    decreases t.len(),
{
    if t.len() > 0 {
        lemma_tbl_get_absent(t.subrange(1, t.len() as int), key);
    }
}

/// Look a key up in a table's entries; the found value is copied.
#[verifier::loop_isolation(false)]
pub fn tbl_get_exec(entries: &Vec<(Vec<u8>, Value)>, key: &Vec<u8>) -> (r: Option<Value>)
    ensures
        crate::storage::opt_view(r) == tbl_get(val_entries_view(entries@), key@),
{
    broadcast use lemma_val_entries_view;

    let ghost t = val_entries_view(entries@);
    let mut i: usize = 0;
    while i < entries.len()
        invariant
            i <= entries@.len(),
            forall|j: int| 0 <= j < i ==> t[j].0 != key@,
        decreases entries@.len() - i,
    {
        if bytes_eq(&entries[i].0, key) {
            let v = entries[i].1.dup();
            proof {
                lemma_tbl_get_at(t, key@, i as int);
            }
            return Option::Some(v);
        }
        i = i + 1;
    }
    proof {
        lemma_tbl_get_absent(t, key@);
    }
    Option::None
}

proof fn lemma_tbl_put_at(t: Seq<(Seq<u8>, Val)>, key: Seq<u8>, v: Val, i: int)
    requires
        0 <= i < t.len(),
        t[i].0 == key,
        forall|j: int| 0 <= j < i ==> t[j].0 != key,
    ensures
        tbl_put(t, key, v) == t.update(i, (key, v)),
    decreases i,
{
    if i == 0 {
        assert(tbl_put(t, key, v) =~= t.update(0, (key, v)));
    } else {
        let rest = t.subrange(1, t.len() as int);
        lemma_tbl_put_at(rest, key, v, i - 1);
        assert(rest[i - 1] == t[i]);
        assert(forall|j: int| 0 <= j < i - 1 ==> rest[j] == t[j + 1]);
        assert(tbl_put(t, key, v) == seq![t[0]] + tbl_put(rest, key, v));
        assert(tbl_put(t, key, v) =~= t.update(i, (key, v)));
    }
}

proof fn lemma_tbl_put_append(t: Seq<(Seq<u8>, Val)>, key: Seq<u8>, v: Val)
    requires
        forall|j: int| 0 <= j < t.len() ==> t[j].0 != key,
    ensures
        tbl_put(t, key, v) == t.push((key, v)),
    decreases t.len(),
{
    if t.len() == 0 {
        assert(tbl_put(t, key, v) =~= t.push((key, v)));
    } else {
        let rest = t.subrange(1, t.len() as int);
        lemma_tbl_put_append(rest, key, v);
        assert(tbl_put(t, key, v) == seq![t[0]] + tbl_put(rest, key, v));
        assert(tbl_put(t, key, v) =~= t.push((key, v)));
    }
}

/// Write a key in a table's entries: the last write of a key wins, in place.
#[verifier::loop_isolation(false)]
pub fn tbl_put_exec(entries: &mut Vec<(Vec<u8>, Value)>, key: &Vec<u8>, v: Value)
    ensures
        val_entries_view(final(entries)@) == tbl_put(val_entries_view(old(entries)@), key@, v@),
{
    broadcast use lemma_val_entries_view;

    let ghost t = val_entries_view(entries@);
    let mut i: usize = 0;
    while i < entries.len()
        invariant
            i <= entries@.len(),
            val_entries_view(entries@) == t,
            t.len() == entries@.len(),
            forall|j: int| 0 <= j < i ==> t[j].0 != key@,
        decreases entries@.len() - i,
    {
        if bytes_eq(&entries[i].0, key) {
            entries[i] = (dup_bytes(key), v);
            proof {
                lemma_tbl_put_at(t, key@, v@, i as int);
                assert(val_entries_view(entries@) =~= t.update(i as int, (key@, v@)));
            }
            return;
        }
        i = i + 1;
    }
    entries.push((dup_bytes(key), v));
    proof {
        lemma_tbl_put_append(t, key@, v@);
        assert(val_entries_view(entries@) =~= t.push((key@, v@)));
    }
}

/// The sub-array a pair of inclusive ends selects.
#[verifier::loop_isolation(false)]
fn slice_exec(elements: &Vec<Value>, s: i128, e: i128) -> (r: Value)
    requires
        -0x1_0000_0000_0000_0000_0000 <= s <= 0x1_0000_0000_0000_0000_0000,
        -0x1_0000_0000_0000_0000_0000 <= e <= 0x1_0000_0000_0000_0000_0000,
    ensures
        r@ == range_slice(vals_view(elements@), s as int, e as int),
{
    broadcast use lemma_vals_view;

    let ghost x = vals_view(elements@);
    let sa = to_index_exec(s, elements.len());
    let ea = to_index_exec(e, elements.len());
    match (sa, ea) {
        (Option::Some(a), Option::Some(b)) => {
            if a <= b + 1 {
                let mut out: Vec<Value> = Vec::new();
                let mut i: usize = a;
                while i < b + 1
                    invariant
                        a <= i <= b + 1,
                        b < elements@.len(),
                        out@.len() == i - a,
                        forall|j: int| 0 <= j < i - a ==> out@[j]@ == x[a + j],
                    decreases b + 1 - i,
                {
                    out.push(elements[i].dup());
                    i = i + 1;
                }
                proof {
                    assert(vals_view(out@) =~= x.subrange(a as int, b + 1));
                }
                Value::Array(ValuesArray { elements: out })
            } else {
                Value::Nil
            }
        }
        _ => Value::Nil,
    }
}

/// Index a value.
#[verifier::loop_isolation(false)]
pub fn index(value: Value, idx: Value) -> (r: Value)
    ensures
        r@ == index_val(value@, idx@),
{
    broadcast use lemma_vals_view;

    match (value, idx) {
        (Value::Array(arr), Value::Number(n)) => {
            match to_index_exec(n as i128, arr.elements.len()) {
                Option::Some(i) => arr.elements[i].dup(),
                Option::None => Value::Nil,
            }
        }
        (Value::Array(arr), Value::ExclusiveRange(s, e)) => {
            slice_exec(&arr.elements, s as i128, e as i128 - 1)
        }
        (Value::Array(arr), Value::InclusiveRange(s, e)) => {
            slice_exec(&arr.elements, s as i128, e as i128)
        }
        (Value::Array(arr), Value::String(k)) => {
            match parse_i64_exec(&k) {
                Option::Some(n) => match to_index_exec(n as i128, arr.elements.len()) {
                    Option::Some(i) => arr.elements[i].dup(),
                    Option::None => Value::Nil,
                },
                Option::None => Value::Nil,
            }
        }
        (Value::Table(t), Value::String(k)) => {
            match tbl_get_exec(&t.entries, &k) {
                Option::Some(v) => v,
                Option::None => Value::Nil,
            }
        }
        _ => Value::Nil,
    }
}

/// Index a value with a literal name.
pub fn dot_index(value: Value, idx: Vec<u8>) -> (r: Value)
    ensures
        r@ == dot_index_val(value@, idx@),
{
    crate::ops::index(value, Value::String(idx))
}

/// The keys of a table.
#[verifier::loop_isolation(false)]
pub fn hash(value: Value) -> (r: Value)
    ensures
        r@ == hash_val(value@),
{
    broadcast use lemma_val_entries_view, lemma_vals_view;

    match value {
        Value::Table(t) => {
            let ghost tv = val_entries_view(t.entries@);
            let mut elements: Vec<Value> = Vec::new();
            let mut i: usize = 0;
            while i < t.entries.len()
                invariant
                    i <= t.entries@.len(),
                    elements@.len() == i,
                    forall|j: int| 0 <= j < i ==> elements@[j]@ == Val::Str(tv[j].0),
                decreases t.entries@.len() - i,
            {
                elements.push(Value::String(dup_bytes(&t.entries[i].0)));
                i = i + 1;
            }
            proof {
                assert(vals_view(elements@) =~= tv.map_values(
                    |e: (Seq<u8>, Val)| Val::Str(e.0),
                ));
            }
            Value::Array(ValuesArray { elements })
        }
        _ => Value::Nil,
    }
}

/// The values of a table.
#[verifier::loop_isolation(false)]
pub fn double_hash(value: Value) -> (r: Value)
    ensures
        r@ == double_hash_val(value@),
{
    broadcast use lemma_val_entries_view, lemma_vals_view;

    match value {
        Value::Table(t) => {
            let ghost tv = val_entries_view(t.entries@);
            let mut elements: Vec<Value> = Vec::new();
            let mut i: usize = 0;
            while i < t.entries.len()
                invariant
                    i <= t.entries@.len(),
                    elements@.len() == i,
                    forall|j: int| 0 <= j < i ==> elements@[j]@ == tv[j].1,
                decreases t.entries@.len() - i,
            {
                elements.push(t.entries[i].1.dup());
                i = i + 1;
            }
            proof {
                assert(vals_view(elements@) =~= tv.map_values(|e: (Seq<u8>, Val)| e.1));
            }
            Value::Array(ValuesArray { elements })
        }
        _ => Value::Nil,
    }
}

/// The key/value pairs of a table.
#[verifier::loop_isolation(false)]
pub fn triple_hash(value: Value) -> (r: Value)
    ensures
        r@ == triple_hash_val(value@),
{
    broadcast use lemma_val_entries_view, lemma_vals_view;

    match value {
        Value::Table(t) => {
            let ghost tv = val_entries_view(t.entries@);
            let mut elements: Vec<Value> = Vec::new();
            let mut i: usize = 0;
            while i < t.entries.len()
                invariant
                    i <= t.entries@.len(),
                    elements@.len() == i,
                    forall|j: int|
                        0 <= j < i ==> elements@[j]@ == Val::Arr(
                            seq![Val::Str(tv[j].0), tv[j].1],
                        ),
                decreases t.entries@.len() - i,
            {
                let mut pair: Vec<Value> = Vec::new();
                pair.push(Value::String(dup_bytes(&t.entries[i].0)));
                pair.push(t.entries[i].1.dup());
                proof {
                    assert(vals_view(pair@) =~= seq![
                        Val::Str(tv[i as int].0),
                        tv[i as int].1,
                    ]);
                }
                elements.push(Value::Array(ValuesArray { elements: pair }));
                i = i + 1;
            }
            proof {
                assert(vals_view(elements@) =~= tv.map_values(
                    |e: (Seq<u8>, Val)| Val::Arr(seq![Val::Str(e.0), e.1]),
                ));
            }
            Value::Array(ValuesArray { elements })
        }
        _ => Value::Nil,
    }
}

// ---------------------------------------------------------------------------
// Dispatch by operator.
// ---------------------------------------------------------------------------

/// What an infix operator returns on two operand values.
pub open spec fn apply_infix(op: Operator, a: Val, b: Val) -> Val {
    match op {
        Operator::Add => add_val(a, b),
        Operator::Sub => sub_val(a, b),
        Operator::Mul => mul_val(a, b),
        Operator::Div => div_val(a, b),
        Operator::Eq => eq_val(a, b),
        Operator::Neq => neq_val(a, b),
        Operator::Gt => gt_val(a, b),
        Operator::Lt => lt_val(a, b),
        Operator::Gte => gte_val(a, b),
        Operator::Lte => lte_val(a, b),
        Operator::And => and_val(a, b),
        Operator::Or => or_val(a, b),
        Operator::Dollar => dollar_val(a, b),
        Operator::DoubleDollar => double_dollar_val(a, b),
        Operator::ExclusiveRange => exclusive_range_val(a, b),
        Operator::InclusiveRange => inclusive_range_val(a, b),
    }
}

/// What a prefix operator returns on an operand value.
pub open spec fn apply_prefix(op: crate::ast::PrefixOp, v: Val) -> Val {
    match op {
        crate::ast::PrefixOp::Negate => negate_val(v),
        crate::ast::PrefixOp::Not => not_val(v),
        crate::ast::PrefixOp::Hash => hash_val(v),
        crate::ast::PrefixOp::DoubleHash => double_hash_val(v),
        crate::ast::PrefixOp::TripleHash => triple_hash_val(v),
    }
}

/// Apply a prefix operator.
pub fn prefix(op: crate::ast::PrefixOp, v: Value) -> (r: Value)
    ensures
        r@ == apply_prefix(op, v@),
{
    match op {
        crate::ast::PrefixOp::Negate => crate::ops::negate(v),
        crate::ast::PrefixOp::Not => crate::ops::not(v),
        crate::ast::PrefixOp::Hash => crate::ops::hash(v),
        crate::ast::PrefixOp::DoubleHash => crate::ops::double_hash(v),
        crate::ast::PrefixOp::TripleHash => crate::ops::triple_hash(v),
    }
}

/// Apply an infix operator.
pub fn infix(op: Operator, lhs: Value, rhs: Value) -> (r: Value)
    ensures
        r@ == apply_infix(op, lhs@, rhs@),
{
    match op {
        Operator::Add => crate::ops::add(lhs, rhs),
        Operator::Sub => crate::ops::sub(lhs, rhs),
        Operator::Mul => crate::ops::mul(lhs, rhs),
        Operator::Div => crate::ops::div(lhs, rhs),
        Operator::Eq => crate::ops::eq(lhs, rhs),
        Operator::Neq => crate::ops::neq(lhs, rhs),
        Operator::Gt => crate::ops::gt(lhs, rhs),
        Operator::Lt => crate::ops::lt(lhs, rhs),
        Operator::Gte => crate::ops::gte(lhs, rhs),
        Operator::Lte => crate::ops::lte(lhs, rhs),
        Operator::And => crate::ops::and(lhs, rhs),
        Operator::Or => crate::ops::or(lhs, rhs),
        Operator::Dollar => crate::ops::dollar(lhs, rhs),
        Operator::DoubleDollar => crate::ops::double_dollar(lhs, rhs),
        Operator::ExclusiveRange => crate::ops::exclusive_range(lhs, rhs),
        Operator::InclusiveRange => crate::ops::inclusive_range(lhs, rhs),
    }
}

} // verus!

//! The evaluator: statements against a machine state.
//!
//! Every function here is proved against the specification in
//! `semantics`: the reader against `spec_reader`, each operator against
//! `apply_binop`, the formatter against `to_string_spec` and `render`,
//! and the main loop against `run_spec`.

use vstd::prelude::*;

use crate::ast::{
    AbsValue, AStmt, Expression, LogKind, Statement, Statements, Value, compress_integer,
    expr_abs, stmt_abs, stmt_wf, truthy, exists_v, vabs, value_clone, value_eq, value_exists,
    value_truthy, value_wf,
};
use crate::bignum::{
    BigNum, big_add, big_div, big_from_i128, big_le, big_lt, big_mul, big_neg, big_parse_digits,
    big_pow, big_rem, big_sub, big_to_dec, big_to_i128, big_val, big_wf, be_bytes_to_dec,
    fits_i128, is_dec_digit, lemma_big_nonzero,
};
use crate::clock::{time_debug_str, time_now, time_secs_str};
use crate::floats::{
    float_add, float_div, float_f64_str, float_le, float_lt, float_mul, float_parse, float_pow,
    float_rem, float_sub, float_truthy,
};
use crate::lexer::{chars_sub, is_ws, is_ws_exec};
use crate::memory::{Memory, mem_wf, mget};
use crate::semantics::{
    MState, OpKind, apply_binop, bin_nat, char_from_u32, char_of, classify, count_dots,
    all_digits, all_word_chars, digits_and_dots, escape_slashes, first_occ, init_state,
    int_special_str, join_lines, line_len, log_string, lr_right, ltrim, max_line_len,
    print_string, render, resolved, rtrim, run_spec, spaces, spec_divide, spec_expon,
    spec_index, spec_le, spec_lt, spec_minus, spec_modulo, spec_plus, spec_reader,
    spec_reader_rec, spec_times, split_lines, step_binop, step_cond, step_spec, str_le, str_lt,
    strip_cr, to_string_spec, trim, valid_scalar, variant_name, vertical_of, wrap_u128,
    lemma_run_spec_snoc, lemma_run_spec_halted, is_word_char,
};
use crate::strutil::{chars_string, str_chars};

verus! {

/// The sequence of mathematical readings of a value list.
pub open spec fn vals_abs(s: Seq<Value>) -> Seq<AbsValue> {
    s.map_values(|x: Value| vabs(x))
}

pub proof fn lemma_first_occ_is(chain: Seq<AbsValue>, v: AbsValue, j: int)
    requires
        0 <= j < chain.len(),
        chain[j] == v,
        forall|k: int| 0 <= k < j ==> chain[k] != v,
    ensures
        first_occ(chain, v) == j,
    decreases chain.len(),
{
    if j == 0 {
    } else {
        lemma_first_occ_is(chain.drop_first(), v, j - 1);
    }
}

pub proof fn lemma_first_occ_none(chain: Seq<AbsValue>, v: AbsValue)
    requires
        forall|k: int| 0 <= k < chain.len() ==> chain[k] != v,
    ensures
        first_occ(chain, v) == -1,
    decreases chain.len(),
{
    if chain.len() > 0 {
        lemma_first_occ_none(chain.drop_first(), v);
    }
}

fn find_first(chain: &Vec<Value>, v: &Value) -> (r: Option<usize>)
    ensures
        match r {
            Some(j) => j < chain@.len() && first_occ(vals_abs(chain@), vabs(*v)) == j,
            None => first_occ(vals_abs(chain@), vabs(*v)) == -1,
        },
{
    let n = chain.len();
    let mut j: usize = 0;
    while j < n
        invariant
            n == chain@.len(),
            j <= n,
            forall|k: int| 0 <= k < j ==> vals_abs(chain@)[k] != vabs(*v),
        decreases n - j,
    {
        if value_eq(&chain[j], v) {
            proof {
                lemma_first_occ_is(vals_abs(chain@), vabs(*v), j as int);
            }
            return Some(j);
        }
        j += 1;
    }
    proof {
        lemma_first_occ_none(vals_abs(chain@), vabs(*v));
    }
    None
}

/// The chained dereference ("the reader"): follow memory from `value`
/// for `reader` steps, with the circular pick when a cycle closes.
pub fn value_reader(mem: &Memory, value: &Value, reader: usize) -> (r: Value)
    requires
        mem_wf(*mem),
        value_wf(*value),
    ensures
        vabs(r) == spec_reader(mem@, vabs(*value), reader as nat),
        value_wf(r),
{
    let mut chain: Vec<Value> = Vec::new();
    chain.push(value_clone(value));
    proof {
        assert(vals_abs(chain@) =~= seq![vabs(*value)]);
    }
    let mut i: usize = 0;
    while i < reader
        invariant
            mem_wf(*mem),
            i <= reader,
            chain@.len() == i + 1,
            forall|k: int| 0 <= k < chain@.len() ==> value_wf(#[trigger] chain@[k]),
            spec_reader(mem@, vabs(*value), reader as nat) == spec_reader_rec(
                mem@,
                vals_abs(chain@),
                i as nat,
                reader as nat,
            ),
        decreases reader - i,
    {
        let last_idx = chain.len() - 1;
        proof {
            assert(vals_abs(chain@).last() == vabs(chain@.last()));
        }
        let cur = mem.lookup(&chain[last_idx]);
        match find_first(&chain, &cur) {
            Some(idx) => {
                let base: u128 = reader as u128 + i as u128 + idx as u128 + 1;
                let modulo: u128 = (chain.len() - idx) as u128;
                let ci: usize = idx + ((base % modulo) as usize);
                proof {
                    assert(vals_abs(chain@)[idx as int] == vabs(chain@[idx as int]));
                    assert(base as int == reader + i + idx + 1);
                    assert(modulo as int == chain@.len() - idx);
                    assert((base % modulo) as int == (base as int) % (modulo as int));
                    assert(ci < chain@.len());
                    assert(vals_abs(chain@)[ci as int] == vabs(chain@[ci as int]));
                }
                return value_clone(&chain[ci]);
            },
            None => {
                let ghost pre = chain@;
                chain.push(cur);
                proof {
                    assert(vals_abs(chain@) =~= vals_abs(pre).push(vabs(chain@.last())));
                }
                i += 1;
            },
        }
    }
    proof {
        assert(vals_abs(chain@).last() == vabs(chain@.last()));
    }
    let last_idx = chain.len() - 1;
    value_clone(&chain[last_idx])
}

/// A value's integer content, as a big number, if it is an integer.
fn value_as_big(v: &Value) -> (r: Option<BigNum>)
    requires
        value_wf(*v),
    ensures
        match r {
            Some(b) => big_wf(b) && vabs(*v) == AbsValue::Int(big_val(b)),
            None => !(vabs(*v) is Int),
        },
{
    match v {
        Value::SmallInt(i) => Some(big_from_i128(*i)),
        Value::Integer(b) => {
            let limbs = b.limbs.clone();
            proof {
                assert(limbs@ =~= b.limbs@);
            }
            Some(BigNum { negative: b.negative, limbs })
        },
        _ => None,
    }
}

/// Lexicographic comparison of two strings by code point.
fn str_lt_exec(a: &str, b: &str) -> (r: bool)
    ensures
        r == str_lt(a@, b@),
{
    let av = str_chars(a);
    let bv = str_chars(b);
    let mut k: usize = 0;
    proof {
        assert(av@.skip(0) =~= a@);
        assert(bv@.skip(0) =~= b@);
    }
    loop
        invariant
            av@ == a@,
            bv@ == b@,
            k <= av@.len(),
            k <= bv@.len(),
            str_lt(a@, b@) == str_lt(av@.skip(k as int), bv@.skip(k as int)),
        decreases av@.len() - k,
    {
        proof {
            if k < av@.len() && k < bv@.len() {
                assert(av@.skip(k as int)[0] == av@[k as int]);
                assert(bv@.skip(k as int)[0] == bv@[k as int]);
                assert(av@.skip(k as int).drop_first() =~= av@.skip(k as int + 1));
                assert(bv@.skip(k as int).drop_first() =~= bv@.skip(k as int + 1));
            }
        }
        if k >= bv.len() {
            return false;
        }
        if k >= av.len() {
            return true;
        }
        let ca = av[k];
        let cb = bv[k];
        if ca != cb {
            return (ca as u32) < (cb as u32);
        }
        assert(av@[k as int] == bv@[k as int]);
        k += 1;
    }
}

fn str_le_exec(a: &str, b: &str) -> (r: bool)
    ensures
        r == str_le(a@, b@),
{
    let av = str_chars(a);
    let bv = str_chars(b);
    let mut k: usize = 0;
    proof {
        assert(av@.skip(0) =~= a@);
        assert(bv@.skip(0) =~= b@);
    }
    loop
        invariant
            av@ == a@,
            bv@ == b@,
            k <= av@.len(),
            k <= bv@.len(),
            forall|j: int| 0 <= j < k ==> a@[j] == b@[j],
            str_lt(a@, b@) == str_lt(av@.skip(k as int), bv@.skip(k as int)),
        decreases av@.len() - k,
    {
        proof {
            if k < av@.len() && k < bv@.len() {
                assert(av@.skip(k as int)[0] == av@[k as int]);
                assert(bv@.skip(k as int)[0] == bv@[k as int]);
                assert(av@.skip(k as int).drop_first() =~= av@.skip(k as int + 1));
                assert(bv@.skip(k as int).drop_first() =~= bv@.skip(k as int + 1));
            }
        }
        if k >= av.len() {
            proof {
                if k >= bv@.len() {
                    assert(a@ =~= b@);
                }
            }
            return true;
        }
        if k >= bv.len() {
            assert(a@.len() != b@.len());
            assert(a@ != b@);
            return false;
        }
        let ca = av[k];
        let cb = bv[k];
        if ca != cb {
            assert(a@[k as int] != b@[k as int]);
            assert(a@ != b@);
            return (ca as u32) < (cb as u32);
        }
        assert(av@[k as int] == bv@[k as int]);
        k += 1;
    }
}


/// Addition: integers sum, texts concatenate, a text takes a decimal
/// suffix, floats add; anything else is null.
fn eval_plus(left: Value, right: Value) -> (r: Value)
    requires
        value_wf(left),
        value_wf(right),
    ensures
        vabs(r) == spec_plus(vabs(left), vabs(right)),
        value_wf(r),
{
    let lb = value_as_big(&left);
    let rb = value_as_big(&right);
    if lb.is_some() && rb.is_some() {
        let a = lb.unwrap();
        let b = rb.unwrap();
        return compress_integer(big_add(&a, &b));
    }
    match (left, right) {
        (Value::Text(a), Value::Text(b)) => Value::Text(a.concat(b.as_str())),
        (Value::Text(a), Value::SmallInt(i)) => {
            let d = big_to_dec(&big_from_i128(i));
            Value::Text(a.concat(d.as_str()))
        },
        (Value::Text(a), Value::Integer(b)) => {
            let d = big_to_dec(&b);
            Value::Text(a.concat(d.as_str()))
        },
        (Value::Float(a), Value::Float(b)) => Value::Float(float_add(a.as_str(), b.as_str())),
        _ => Value::Null,
    }
}

/// The remaining arithmetic operators over a pair of integers or a pair
/// of floats; anything else is null.
fn eval_arith(op: OpKind, left: Value, right: Value) -> (r: Value)
    requires
        value_wf(left),
        value_wf(right),
        op is Minus || op is Times || op is Divide || op is Modulo || op is Exponential,
    ensures
        vabs(r) == apply_binop(op, vabs(left), vabs(right)),
        value_wf(r),
{
    let lb = value_as_big(&left);
    let rb = value_as_big(&right);
    if lb.is_some() && rb.is_some() {
        let a = lb.unwrap();
        let b = rb.unwrap();
        match op {
            OpKind::Minus => {
                return compress_integer(big_sub(&a, &b));
            },
            OpKind::Times => {
                return compress_integer(big_mul(&a, &b));
            },
            OpKind::Divide => {
                proof {
                    lemma_big_nonzero(b);
                }
                if b.limbs.len() == 0 {
                    return Value::Null;
                }
                return compress_integer(big_div(&a, &b));
            },
            OpKind::Modulo => {
                proof {
                    lemma_big_nonzero(b);
                }
                if b.limbs.len() == 0 {
                    return Value::Null;
                }
                return compress_integer(big_rem(&a, &b));
            },
            _ => {
                match big_to_i128(&b) {
                    Some(v) => {
                        if 0 <= v && v <= u32::MAX as i128 {
                            return compress_integer(big_pow(&a, v as u32));
                        } else {
                            return Value::Null;
                        }
                    },
                    None => {
                        return Value::Null;
                    },
                }
            },
        }
    }
    match (left, right) {
        (Value::Float(a), Value::Float(b)) => {
            match op {
                OpKind::Minus => Value::Float(float_sub(a.as_str(), b.as_str())),
                OpKind::Times => Value::Float(float_mul(a.as_str(), b.as_str())),
                OpKind::Divide => Value::Float(float_div(a.as_str(), b.as_str())),
                OpKind::Modulo => Value::Float(float_rem(a.as_str(), b.as_str())),
                _ => Value::Float(float_pow(a.as_str(), b.as_str())),
            }
        },
        _ => Value::Null,
    }
}

/// Strict order: integers, texts and floats are ordered; anything else
/// is null.
fn eval_lt(left: &Value, right: &Value) -> (r: Value)
    requires
        value_wf(*left),
        value_wf(*right),
    ensures
        vabs(r) == spec_lt(vabs(*left), vabs(*right)),
        value_wf(r),
{
    let lb = value_as_big(left);
    let rb = value_as_big(right);
    if lb.is_some() && rb.is_some() {
        let a = lb.unwrap();
        let b = rb.unwrap();
        return Value::Boolean(big_lt(&a, &b));
    }
    match (left, right) {
        (Value::Text(a), Value::Text(b)) => Value::Boolean(str_lt_exec(a.as_str(), b.as_str())),
        (Value::Float(a), Value::Float(b)) => Value::Boolean(float_lt(a.as_str(), b.as_str())),
        _ => Value::Null,
    }
}

/// Non-strict order.
fn eval_le(left: &Value, right: &Value) -> (r: Value)
    requires
        value_wf(*left),
        value_wf(*right),
    ensures
        vabs(r) == spec_le(vabs(*left), vabs(*right)),
        value_wf(r),
{
    let lb = value_as_big(left);
    let rb = value_as_big(right);
    if lb.is_some() && rb.is_some() {
        let a = lb.unwrap();
        let b = rb.unwrap();
        return Value::Boolean(big_le(&a, &b));
    }
    match (left, right) {
        (Value::Text(a), Value::Text(b)) => {
            let le = str_le_exec(a.as_str(), b.as_str());
            proof {
                if a@ == b@ {
                    assert(vabs(*left) == vabs(*right));
                }
                if vabs(*left) == vabs(*right) {
                    assert(a@ == b@);
                }
            }
            Value::Boolean(le)
        },
        (Value::Float(a), Value::Float(b)) => Value::Boolean(float_le(a.as_str(), b.as_str())),
        _ => Value::Null,
    }
}

/// Indexing: one character of a text at a zero-based position, or null.
fn eval_index(left: &Value, right: &Value) -> (r: Value)
    requires
        value_wf(*left),
        value_wf(*right),
    ensures
        vabs(r) == spec_index(vabs(*left), vabs(*right)),
        value_wf(r),
{
    match (left, right) {
        (Value::Text(s), other) => {
            let chars = str_chars(s.as_str());
            // an index beyond the i128 range is far beyond the text too
            let _ = chars.len();
            assert(chars@.len() <= usize::MAX);
            let n = match value_as_big(other) {
                Some(b) => match big_to_i128(&b) {
                    Some(v) => v,
                    None => {
                        return Value::Null;
                    },
                },
                None => {
                    return Value::Null;
                },
            };
            if 0 <= n && n < chars.len() as i128 {
                let idx = n as usize;
                let mut one: Vec<char> = Vec::new();
                one.push(chars[idx]);
                proof {
                    assert(one@ =~= seq![s@[n as int]]);
                }
                Value::Text(chars_string(&one))
            } else {
                Value::Null
            }
        },
        _ => Value::Null,
    }
}

/// One binary operator applied to resolved operands.
fn eval_binop(op: OpKind, left: Value, right: Value) -> (r: Value)
    requires
        value_wf(left),
        value_wf(right),
    ensures
        vabs(r) == apply_binop(op, vabs(left), vabs(right)),
        value_wf(r),
{
    match op {
        OpKind::And => Value::Boolean(value_truthy(&left) && value_truthy(&right)),
        OpKind::Or => Value::Boolean(value_truthy(&left) || value_truthy(&right)),
        OpKind::Xor => Value::Boolean(value_truthy(&left) != value_truthy(&right)),
        OpKind::Equal => Value::Boolean(value_eq(&left, &right)),
        OpKind::Unequal => Value::Boolean(!value_eq(&left, &right)),
        OpKind::Plus => eval_plus(left, right),
        OpKind::Minus | OpKind::Times | OpKind::Divide | OpKind::Modulo | OpKind::Exponential =>
            eval_arith(op, left, right),
        OpKind::LessThan => eval_lt(&left, &right),
        OpKind::LessThanOrEqual => eval_le(&left, &right),
        OpKind::GreaterThan => eval_lt(&right, &left),
        OpKind::GreaterThanOrEqual => eval_le(&right, &left),
        OpKind::Index => eval_index(&left, &right),
    }
}


fn single_char_string(c: char) -> (r: String)
    ensures
        r@ == seq![c],
{
    let mut one: Vec<char> = Vec::new();
    one.push(c);
    proof {
        assert(one@ =~= seq![c]);
    }
    chars_string(&one)
}

/// Binary digits of a number, most significant first.
fn bin_string(n: usize) -> (r: Vec<char>)
    ensures
        r@ == bin_nat(n as nat),
    decreases n,
{
    if n < 2 {
        let mut one: Vec<char> = Vec::new();
        one.push(if n == 1 { '1' } else { '0' });
        proof {
            assert(one@ =~= bin_nat(n as nat));
        }
        one
    } else {
        let mut v = bin_string(n / 2);
        v.push(if n % 2 == 1 { '1' } else { '0' });
        v
    }
}

/// The quoted form of a text: slashes around it, inner slashes escaped.
fn quoted_text(s: &str) -> (r: String)
    ensures
        r@ == seq!['/'] + escape_slashes(s@) + seq!['/'],
{
    let chars = str_chars(s);
    let n = chars.len();
    let mut acc: Vec<char> = Vec::new();
    acc.push('/');
    let mut k: usize = 0;
    proof {
        assert(chars@.skip(0) =~= s@);
        assert(acc@ =~= seq!['/'] + escape_slashes(s@).take(0));
    }
    while k < n
        invariant
            chars@ == s@,
            n == chars@.len(),
            k <= n,
            seq!['/'] + escape_slashes(s@) == acc@ + escape_slashes(chars@.skip(k as int)),
        decreases n - k,
    {
        let c = chars[k];
        proof {
            assert(chars@.skip(k as int)[0] == c);
            assert(chars@.skip(k as int).drop_first() =~= chars@.skip(k as int + 1));
        }
        if c == '/' {
            acc.push('\\');
            acc.push('/');
        } else {
            acc.push(c);
        }
        k += 1;
    }
    proof {
        assert(chars@.skip(n as int) =~= Seq::<char>::empty());
        assert(acc@ + Seq::<char>::empty() =~= acc@);
    }
    acc.push('/');
    chars_string(&acc)
}

/// The special form of an integer that fits the small representation.
fn small_special(i: i128) -> (r: String)
    ensures
        r@ == int_special_str(i as int),
{
    let w: u128 = if i >= 0 {
        i as u128
    } else {
        let m: i128 = -(i + 1);
        u128::MAX - (m as u128)
    };
    proof {
        assert(w as int == wrap_u128(i as int));
    }
    if w <= u32::MAX as u128 {
        match char_from_u32(w as u32) {
            Some(c) => single_char_string(c),
            None => single_char_string('\u{fffd}'),
        }
    } else {
        assert(!valid_scalar(w as int));
        single_char_string('\u{fffd}')
    }
}

/// The printed form of a value; the text of a time value depends on the
/// clock and carries no contract.
pub fn value_to_string(v: &Value, special: bool) -> (r: String)
    requires
        value_wf(*v),
    ensures
        !(vabs(*v) is Time) ==> r@ == to_string_spec(vabs(*v), special),
{
    match (v, special) {
        (Value::Symbol(s), false) => s.clone(),
        (Value::Symbol(s), true) => be_bytes_to_dec(s.as_str().as_bytes()),
        (Value::Boolean(b), false) => if *b {
            String::from_str("true")
        } else {
            String::from_str("false")
        },
        (Value::Boolean(b), true) => if *b {
            String::from_str("1")
        } else {
            String::from_str("0")
        },
        (Value::Integer(b), false) => big_to_dec(b),
        (Value::Integer(b), true) => single_char_string('\u{fffd}'),
        (Value::SmallInt(i), false) => big_to_dec(&big_from_i128(*i)),
        (Value::SmallInt(i), true) => small_special(*i),
        (Value::Float(f), false) => f.clone(),
        (Value::Float(f), true) => float_f64_str(f.as_str()),
        (Value::Text(s), false) => quoted_text(s.as_str()),
        (Value::Text(s), true) => s.clone(),
        (Value::Time(t), false) => time_debug_str(t),
        (Value::Time(t), true) => time_secs_str(t),
        (Value::Null, false) => String::from_str("null"),
        (Value::Null, true) => single_char_string('\u{0}'),
        (Value::JumpAddress(a), false) => big_to_dec(&big_from_i128(*a as i128)),
        (Value::JumpAddress(a), true) => chars_string(&bin_string(*a)),
    }
}

/// The name of a value's variant.
pub fn variant_name_of(v: &Value) -> (r: String)
    requires
        value_wf(*v),
    ensures
        r@ == variant_name(vabs(*v)),
{
    match v {
        Value::JumpAddress(_) => String::from_str("JumpAddress"),
        Value::Symbol(_) => String::from_str("Symbol"),
        Value::Boolean(_) => String::from_str("Boolean"),
        Value::Integer(_) => String::from_str("Integer"),
        Value::SmallInt(_) => String::from_str("SmallInt"),
        Value::Float(_) => String::from_str("Float"),
        Value::Text(_) => String::from_str("Text"),
        Value::Time(_) => String::from_str("Time"),
        Value::Null => String::from_str("Null"),
    }
}

proof fn lemma_ltrim_skip(s: Seq<char>, a: nat)
    requires
        a <= s.len(),
        forall|j: int| 0 <= j < a ==> is_ws(#[trigger] s[j]),
        a < s.len() ==> !is_ws(s[a as int]),
    ensures
        ltrim(s) == s.skip(a as int),
    decreases a,
{
    if a == 0 {
        assert(s.skip(0) =~= s);
    } else {
        assert(is_ws(s[0]));
        lemma_ltrim_skip(s.drop_first(), (a - 1) as nat);
        assert(s.drop_first().skip(a as int - 1) =~= s.skip(a as int));
    }
}

proof fn lemma_rtrim_take(s: Seq<char>, b: nat)
    requires
        b <= s.len(),
        forall|j: int| b <= j < s.len() ==> is_ws(#[trigger] s[j]),
        b > 0 ==> !is_ws(s[b - 1]),
    ensures
        rtrim(s) == s.take(b as int),
    decreases s.len(),
{
    if b == s.len() {
        if b > 0 {
            assert(s.take(b as int) =~= s);
        } else {
            assert(s.take(0) =~= s);
        }
    } else {
        assert(is_ws(s.last()));
        lemma_rtrim_take(s.drop_last(), b);
        assert(s.drop_last().take(b as int) =~= s.take(b as int));
    }
}

proof fn lemma_trim_range(s: Seq<char>, a: nat, b: nat)
    requires
        a <= b <= s.len(),
        forall|j: int| 0 <= j < a ==> is_ws(#[trigger] s[j]),
        forall|j: int| b <= j < s.len() ==> is_ws(#[trigger] s[j]),
        a < b ==> !is_ws(s[a as int]) && !is_ws(s[b - 1]),
    ensures
        trim(s) == s.subrange(a as int, b as int),
{
    if a == b {
        if a < s.len() && !is_ws(s[a as int]) {
            lemma_ltrim_skip(s, a);
            lemma_rtrim_take(s.skip(a as int), 0);
            assert(s.skip(a as int).take(0) =~= s.subrange(a as int, b as int));
        } else {
            lemma_ltrim_skip(s, s.len());
            assert(s.skip(s.len() as int) =~= Seq::<char>::empty());
            lemma_rtrim_take(Seq::<char>::empty(), 0);
            assert(Seq::<char>::empty() =~= s.subrange(a as int, b as int));
        }
    } else {
        lemma_ltrim_skip(s, a);
        let u = s.skip(a as int);
        lemma_rtrim_take(u, (b - a) as nat);
        assert(u.take(b - a) =~= s.subrange(a as int, b as int));
    }
}


/// Read a line of text back as a value, as the input statement does.
pub fn string_to_value(string: &str) -> (r: Value)
    ensures
        vabs(r) == classify(string@),
        value_wf(r),
{
    let chars = str_chars(string);
    let n = chars.len();
    let mut a: usize = 0;
    while a < n && is_ws_exec(chars[a])
        invariant
            chars@ == string@,
            n == chars@.len(),
            a <= n,
            forall|j: int| 0 <= j < a ==> is_ws(#[trigger] chars@[j]),
        decreases n - a,
    {
        a += 1;
    }
    let mut b: usize = n;
    while b > a && is_ws_exec(chars[b - 1])
        invariant
            chars@ == string@,
            n == chars@.len(),
            a <= b <= n,
            forall|j: int| b <= j < n ==> is_ws(#[trigger] chars@[j]),
        decreases b,
    {
        b -= 1;
    }
    proof {
        lemma_trim_range(string@, a as nat, b as nat);
    }
    let mut tv: Vec<char> = Vec::new();
    let mut k = a;
    while k < b
        invariant
            chars@ == string@,
            a <= k <= b <= chars@.len(),
            tv@ == chars@.subrange(a as int, k as int),
        decreases b - k,
    {
        tv.push(chars[k]);
        proof {
            assert(tv@ =~= chars@.subrange(a as int, (k + 1) as int));
        }
        k += 1;
    }
    assert(tv@ == trim(string@));
    let ghost t = trim(string@);
    let m = tv.len();
    if m == 0 {
        return Value::Null;
    }
    let mut digits = true;
    let mut dots: usize = 0;
    let mut dotted_digits = true;
    let mut words = true;
    let mut j: usize = 0;
    proof {
        assert(t.skip(0) =~= t);
    }
    while j < m
        invariant
            m == tv@.len(),
            tv@ == t,
            j <= m,
            digits == (forall|i: int| 0 <= i < j ==> is_dec_digit(#[trigger] t[i])),
            dotted_digits == (forall|i: int|
                0 <= i < j ==> is_dec_digit(#[trigger] t[i]) || t[i] == '.'),
            words == (forall|i: int| 0 <= i < j ==> is_word_char(#[trigger] t[i])),
            dots <= j,
            count_dots(t) == dots + count_dots(t.skip(j as int)),
        decreases m - j,
    {
        let c = tv[j];
        proof {
            assert(t.skip(j as int)[0] == c);
            assert(t.skip(j as int).drop_first() =~= t.skip(j as int + 1));
        }
        if !is_digit_exec_local(c) {
            digits = false;
            if c != '.' {
                dotted_digits = false;
            }
            if !(('a' <= c && c <= 'z') || ('A' <= c && c <= 'Z') || c == '_') {
                words = false;
            }
        }
        if c == '.' {
            dots += 1;
        }
        j += 1;
    }
    proof {
        assert(t.skip(m as int) =~= Seq::<char>::empty());
    }
    let s = chars_string(&tv);
    if digits {
        let big = big_parse_digits(s.as_str());
        return compress_integer(big);
    }
    if dots == 2 && dotted_digits {
        return Value::Float(float_parse(s.as_str()));
    }
    if s.eq(&String::from_str("true")) || s.eq(&String::from_str("on")) || s.eq(
        &String::from_str("yes"),
    ) {
        return Value::Boolean(true);
    }
    if s.eq(&String::from_str("false")) || s.eq(&String::from_str("off")) || s.eq(
        &String::from_str("no"),
    ) {
        return Value::Boolean(false);
    }
    if s.eq(&String::from_str("null")) {
        return Value::Null;
    }
    if s.eq(&String::from_str("\u{00b5}")) {
        return Value::Time(Some(time_now()));
    }
    if words {
        return Value::Symbol(s);
    }
    Value::Text(s)
}

fn is_digit_exec_local(c: char) -> (r: bool)
    ensures
        r == is_dec_digit(c),
{
    '0' <= c && c <= '9'
}

/// The characters of a text, reversed.
fn reverse_chars(s: &Vec<char>) -> (r: Vec<char>)
    ensures
        r@ == s@.reverse(),
{
    let n = s.len();
    let mut out: Vec<char> = Vec::new();
    let mut k: usize = 0;
    while k < n
        invariant
            n == s@.len(),
            k <= n,
            out@.len() == k,
            forall|j: int| 0 <= j < k ==> out@[j] == s@[n - 1 - j],
        decreases n - k,
    {
        out.push(s[n - 1 - k]);
        k += 1;
    }
    proof {
        assert(out@ =~= s@.reverse());
    }
    out
}


/// The sequence of line views.
pub open spec fn lines_abs(v: Seq<Vec<char>>) -> Seq<Seq<char>> {
    v.map_values(|l: Vec<char>| l@)
}

/// Split a text into lines, as the vertical transposition reads them.
fn split_lines_exec(s: &Vec<char>) -> (r: Vec<Vec<char>>)
    ensures
        lines_abs(r@) == split_lines(s@),
{
    let n = s.len();
    let mut lines: Vec<Vec<char>> = Vec::new();
    let mut pos: usize = 0;
    proof {
        assert(s@.skip(0) =~= s@);
    }
    while pos < n
        invariant
            n == s@.len(),
            pos <= n,
            split_lines(s@) == lines_abs(lines@) + split_lines(s@.skip(pos as int)),
        decreases n - pos,
    {
        let ghost rem = s@.skip(pos as int);
        let mut j = pos;
        while j < n && s[j] != '\n'
            invariant
                n == s@.len(),
                pos <= j <= n,
                rem == s@.skip(pos as int),
                line_len(rem) == (j - pos) + line_len(s@.skip(j as int)),
            decreases n - j,
        {
            proof {
                assert(s@.skip(j as int)[0] == s@[j as int]);
                assert(s@.skip(j as int).drop_first() =~= s@.skip(j as int + 1));
            }
            j += 1;
        }
        proof {
            if j < n {
                assert(s@.skip(j as int)[0] == s@[j as int]);
            }
            assert(line_len(s@.skip(j as int)) == 0);
            assert(line_len(rem) == j - pos);
        }
        let mut line: Vec<char> = Vec::new();
        let mut k = pos;
        while k < j
            invariant
                pos <= k <= j <= s@.len(),
                line@ == s@.subrange(pos as int, k as int),
            decreases j - k,
        {
            line.push(s[k]);
            proof {
                assert(line@ =~= s@.subrange(pos as int, (k + 1) as int));
            }
            k += 1;
        }
        proof {
            assert(line@ =~= rem.take((j - pos) as int));
        }
        if line.len() > 0 && line[line.len() - 1] == '\r' {
            line.pop();
            proof {
                assert(line@ =~= strip_cr(rem.take((j - pos) as int)));
            }
        }
        let ghost pre_lines = lines@;
        lines.push(line);
        proof {
            assert(lines_abs(lines@) =~= lines_abs(pre_lines).push(strip_cr(
                rem.take((j - pos) as int),
            )));
            if j < n {
                assert(rem.skip((j - pos + 1) as int) =~= s@.skip((j + 1) as int));
                assert(split_lines(rem) =~= seq![strip_cr(rem.take((j - pos) as int))]
                    + split_lines(s@.skip((j + 1) as int)));
            } else {
                assert(split_lines(rem) =~= seq![strip_cr(rem.take((j - pos) as int))]);
                assert(s@.skip(n as int) =~= Seq::<char>::empty());
            }
        }
        if j < n {
            pos = j + 1;
        } else {
            pos = n;
        }
        proof {
            assert(split_lines(s@) =~= lines_abs(lines@) + split_lines(s@.skip(pos as int)));
        }
    }
    proof {
        assert(s@.skip(n as int) =~= Seq::<char>::empty());
        assert(lines_abs(lines@) + split_lines(s@.skip(pos as int)) =~= lines_abs(lines@));
    }
    lines
}

/// The vertical transposition of a printed text.
fn vertical_exec(s: &Vec<char>) -> (r: Vec<char>)
    ensures
        r@ == vertical_of(s@),
{
    let lines = split_lines_exec(s);
    let ghost labs = split_lines(s@);
    let ln = lines.len();
    let mut maxl: usize = 0;
    let mut i: usize = 0;
    proof {
        assert(labs.take(0) =~= Seq::<Seq<char>>::empty());
    }
    while i < ln
        invariant
            ln == lines@.len(),
            lines_abs(lines@) == labs,
            i <= ln,
            maxl as nat == max_line_len(labs.take(i as int)),
        decreases ln - i,
    {
        proof {
            assert(labs.take(i as int + 1).drop_last() =~= labs.take(i as int));
            assert(labs.take(i as int + 1).last() == labs[i as int]);
            assert(labs[i as int] == lines@[i as int]@);
        }
        if lines[i].len() > maxl {
            maxl = lines[i].len();
        }
        i += 1;
    }
    proof {
        assert(labs.take(ln as int) =~= labs);
    }
    let ghost m = max_line_len(labs);
    let ghost rows = Seq::new(
        m,
        |i: int|
            Seq::new(
                labs.len(),
                |j: int|
                    if i < labs[j].len() {
                        labs[j][i]
                    } else {
                        ' '
                    },
            ),
    );
    let mut out: Vec<char> = Vec::new();
    let mut i: usize = 0;
    proof {
        assert(join_lines(rows.take(0)) =~= Seq::<char>::empty());
    }
    while i < maxl
        invariant
            ln == lines@.len(),
            lines_abs(lines@) == labs,
            maxl as nat == m,
            m == max_line_len(labs),
            rows == Seq::new(
                m,
                |i: int|
                    Seq::new(
                        labs.len(),
                        |j: int|
                            if i < labs[j].len() {
                                labs[j][i]
                            } else {
                                ' '
                            },
                    ),
            ),
            i <= maxl,
            out@ == join_lines(rows.take(i as int)),
        decreases maxl - i,
    {
        if i > 0 {
            out.push('\n');
        }
        let ghost out_row_start = out@;
        let mut j: usize = 0;
        while j < ln
            invariant
                ln == lines@.len(),
                lines_abs(lines@) == labs,
                i < m,
                rows == Seq::new(
                    m,
                    |i: int|
                        Seq::new(
                            labs.len(),
                            |j: int|
                                if i < labs[j].len() {
                                    labs[j][i]
                                } else {
                                    ' '
                                },
                        ),
                ),
                j <= ln,
                out@ == out_row_start + rows[i as int].take(j as int),
            decreases ln - j,
        {
            proof {
                assert(labs[j as int] == lines@[j as int]@);
            }
            let c = if i < lines[j].len() {
                lines[j][i]
            } else {
                ' '
            };
            out.push(c);
            proof {
                assert(out@ =~= out_row_start + rows[i as int].take(j as int + 1));
            }
            j += 1;
        }
        proof {
            assert(rows[i as int].take(ln as int) =~= rows[i as int]);
            assert(rows.take(i as int + 1).drop_last() =~= rows.take(i as int));
            assert(rows.take(i as int + 1).last() == rows[i as int]);
            if i == 0 {
                assert(out@ =~= join_lines(rows.take(1)));
            } else {
                assert(out@ =~= join_lines(rows.take(i as int)) + seq!['\n'] + rows[i as int]);
                assert(out@ =~= join_lines(rows.take(i as int + 1)));
            }
        }
        i += 1;
    }
    proof {
        assert(rows.take(maxl as int) =~= rows);
    }
    out
}

/// Post-process a printed string: reversal, padding, newline, and the
/// vertical transposition.
fn render_exec(base: &str, reverse: bool, space: usize, newline: bool, vertical: bool) -> (r: Vec<
    char,
>)
    ensures
        r@ == render(base@, reverse, space as nat, newline, vertical),
{
    let mut chars = str_chars(base);
    if reverse {
        chars = reverse_chars(&chars);
    }
    let mut k: usize = 0;
    let ghost mid = chars@;
    while k < space
        invariant
            k <= space,
            chars@ == mid + spaces(k as nat),
        decreases space - k,
    {
        chars.push(' ');
        k += 1;
    }
    if newline {
        chars.push('\n');
        proof {
            assert(chars@ =~= mid + spaces(space as nat) + seq!['\n']);
        }
    } else {
        proof {
            assert(chars@ =~= mid + spaces(space as nat) + Seq::<char>::empty());
        }
    }
    if vertical {
        chars = vertical_exec(&chars);
    }
    chars
}

/// One left/right binary statement applied against the memory: read the
/// left operand at the cursor, resolve the right operand (a symbol names
/// a variable), and store the result back at the cursor.
fn do_binop(variables: &mut Memory, cursor: &Value, op: OpKind, e: &Expression)
    requires
        mem_wf(*old(variables)),
        value_wf(*cursor),
        value_wf(e.value),
    ensures
        mem_wf(*final(variables)),
        final(variables)@ == ({
            let m = old(variables)@;
            let r0 = spec_reader(m, vabs(e.value), e.reader as nat);
            let right = if r0 is Sym {
                mget(m, r0)
            } else {
                r0
            };
            m.insert(
                vabs(*cursor),
                apply_binop(op, mget(m, vabs(*cursor)), right),
            )
        }),
{
    let operand = value_reader(variables, &e.value, e.reader);
    let left = variables.lookup(cursor);
    let right = if matches!(operand, Value::Symbol(_)) {
        variables.lookup(&operand)
    } else {
        operand
    };
    let result = eval_binop(op, left, right);
    variables.store(value_clone(cursor), result);
}


/// The result of a run: everything printed, and the final memory.
pub struct RunOutput {
    pub stdout: String,
    pub variables: Memory,
}

/// The mathematical reading of a parsed program.
pub open spec fn prog_abs(sts: Seq<Statement>) -> Seq<AStmt> {
    sts.map_values(|s: Statement| stmt_abs(s))
}

/// The mathematical reading of the input lines.
pub open spec fn inputs_abs(v: Seq<String>) -> Seq<Seq<char>> {
    v.map_values(|s: String| s@)
}

/// The whole-run contract: some number of steps of the machine, under
/// some choice of clock texts, halts with exactly this output and this
/// memory.
pub open spec fn run_reaches(
    prog: Seq<AStmt>,
    ins: Seq<Seq<char>>,
    out: Seq<char>,
    mem: Map<AbsValue, AbsValue>,
) -> bool {
    exists|n: nat, ts: Seq<Seq<char>>|
        {
            let fin = #[trigger] run_spec(prog, init_state(ins), n, ts);
            &&& ts.len() == n
            &&& (fin.pc >= prog.len() || n == u64::MAX as nat)
            &&& fin.out == out
            &&& fin.mem == mem
        }
}

/// Run a program to completion against the given input lines.  The
/// captured output and the final memory are exactly what the machine
/// semantics reaches; only the texts printed for time values are left
/// open, as they depend on the clock.  The loop carries a step budget of
/// 2^64 - 1, far beyond anything a real program reaches; a run that has
/// not halted by then stops there.
pub fn run(parsed: &Statements, inputs: &Vec<String>) -> (r: RunOutput)
    requires
        forall|i: int| 0 <= i < parsed@.len() ==> stmt_wf(#[trigger] parsed@[i]),
    ensures
        mem_wf(r.variables),
        run_reaches(prog_abs(parsed@), inputs_abs(inputs@), r.stdout@, r.variables@),
{
    let ghost prog = prog_abs(parsed@);
    let ghost ins = inputs_abs(inputs@);
    let prog_len = parsed.len();
    let mut variables = Memory::new();
    let mut cursor = Value::Null;
    let mut pc: usize = 0;
    let mut out: Vec<char> = Vec::new();
    let mut in_idx: usize = 0;
    let ghost mut n: nat = 0;
    let ghost mut ts: Seq<Seq<char>> = Seq::empty();
    let mut fuel: u64 = u64::MAX;
    proof {
        assert(ins.skip(0) =~= ins);
    }
    while pc < prog_len && fuel > 0
        invariant
            prog == prog_abs(parsed@),
            ins == inputs_abs(inputs@),
            forall|i: int| 0 <= i < parsed@.len() ==> stmt_wf(#[trigger] parsed@[i]),
            prog.len() == parsed@.len(),
            prog_len == parsed@.len(),
            mem_wf(variables),
            value_wf(cursor),
            in_idx <= inputs@.len(),
            ts.len() == n,
            pc <= prog_len,
            fuel as nat + n == u64::MAX as nat,
            ({
                let st = run_spec(prog, init_state(ins), n, ts);
                &&& st.mem == variables@
                &&& st.cursor == vabs(cursor)
                &&& st.out == out@
                &&& st.inputs == ins.skip(in_idx as int)
                &&& (st.pc == pc as nat || (st.pc >= prog.len() && pc == prog_len))
            }),
        decreases fuel,
    {
        fuel = fuel - 1;
        let ghost st = run_spec(prog, init_state(ins), n, ts);
        let ghost mut tx: Seq<char> = Seq::empty();
        proof {
            assert(st.pc == pc as nat);
            assert(prog[pc as int] == stmt_abs(parsed@[pc as int]));
        }
        match &parsed[pc] {
            Statement::Load(e) => {
                let v = value_reader(&variables, &e.value, e.reader);
                cursor = v;
                pc += 1;
            },
            Statement::Define(e) => {
                let key = value_reader(&variables, &e.value, e.reader);
                variables.store(key, Value::JumpAddress(pc));
                pc += 1;
            },
            Statement::Jump(e) => {
                let key = value_reader(&variables, &e.value, e.reader);
                let tgt = variables.lookup(&key);
                match tgt {
                    Value::JumpAddress(index) => {
                        if index < prog_len {
                            pc = index + 1;
                        } else {
                            pc = prog_len;
                        }
                    },
                    _ => {
                        pc += 1;
                    },
                }
            },
            Statement::Assign(e) => {
                let v = value_reader(&variables, &e.value, e.reader);
                let v = match v {
                    Value::Time(_) => Value::Time(Some(time_now())),
                    other => other,
                };
                variables.store(value_clone(&cursor), v);
                pc += 1;
            },
            Statement::Overwrite(e) => {
                let key = value_reader(&variables, &e.value, e.reader);
                variables.store(key, value_clone(&cursor));
                pc += 1;
            },
            Statement::Swap(e) => {
                let o = value_reader(&variables, &e.value, e.reader);
                let temp = variables.lookup(&cursor);
                let ov = variables.lookup(&o);
                variables.store(value_clone(&cursor), ov);
                variables.store(o, temp);
                pc += 1;
            },
            Statement::Index(e) => {
                do_binop(&mut variables, &cursor, OpKind::Index, e);
                pc += 1;
            },
            Statement::And(e) => {
                do_binop(&mut variables, &cursor, OpKind::And, e);
                pc += 1;
            },
            Statement::Or(e) => {
                do_binop(&mut variables, &cursor, OpKind::Or, e);
                pc += 1;
            },
            Statement::Xor(e) => {
                do_binop(&mut variables, &cursor, OpKind::Xor, e);
                pc += 1;
            },
            Statement::Plus(e) => {
                do_binop(&mut variables, &cursor, OpKind::Plus, e);
                pc += 1;
            },
            Statement::Minus(e) => {
                do_binop(&mut variables, &cursor, OpKind::Minus, e);
                pc += 1;
            },
            Statement::Times(e) => {
                do_binop(&mut variables, &cursor, OpKind::Times, e);
                pc += 1;
            },
            Statement::Divide(e) => {
                do_binop(&mut variables, &cursor, OpKind::Divide, e);
                pc += 1;
            },
            Statement::Modulo(e) => {
                do_binop(&mut variables, &cursor, OpKind::Modulo, e);
                pc += 1;
            },
            Statement::Exponential(e) => {
                do_binop(&mut variables, &cursor, OpKind::Exponential, e);
                pc += 1;
            },
            Statement::Unequal(e) => {
                do_binop(&mut variables, &cursor, OpKind::Unequal, e);
                pc += 1;
            },
            Statement::Equal(e) => {
                do_binop(&mut variables, &cursor, OpKind::Equal, e);
                pc += 1;
            },
            Statement::LessThan(e) => {
                do_binop(&mut variables, &cursor, OpKind::LessThan, e);
                pc += 1;
            },
            Statement::LessThanOrEqual(e) => {
                do_binop(&mut variables, &cursor, OpKind::LessThanOrEqual, e);
                pc += 1;
            },
            Statement::GreaterThan(e) => {
                do_binop(&mut variables, &cursor, OpKind::GreaterThan, e);
                pc += 1;
            },
            Statement::GreaterThanOrEqual(e) => {
                do_binop(&mut variables, &cursor, OpKind::GreaterThanOrEqual, e);
                pc += 1;
            },
            Statement::Truthy(quantity) => {
                let val = variables.lookup(&cursor);
                let c = value_truthy(&val);
                pc = cond_advance(pc, prog_len, *quantity, c);
            },
            Statement::Falsy(quantity) => {
                let val = variables.lookup(&cursor);
                let c = !value_truthy(&val);
                pc = cond_advance(pc, prog_len, *quantity, c);
            },
            Statement::Exists(quantity) => {
                let val = variables.lookup(&cursor);
                let c = value_exists(&val);
                pc = cond_advance(pc, prog_len, *quantity, c);
            },
            Statement::Empty(quantity) => {
                let val = variables.lookup(&cursor);
                let c = !value_exists(&val);
                pc = cond_advance(pc, prog_len, *quantity, c);
            },
            Statement::Log { kind, reader, special, reverse, newline, space, vertical, assign } => {
                let kindv = *kind;
                let base: String = match kindv {
                    Some(LogKind::Pointer) | Some(LogKind::Value) => {
                        let rc: usize = if matches!(kindv, Some(LogKind::Value)) {
                            1
                        } else {
                            0
                        };
                        let rd = rc + *reader;
                        let pv = value_reader(&variables, &cursor, rd);
                        let stext = value_to_string(&pv, *special);
                        proof {
                            tx = stext@;
                        }
                        stext
                    },
                    Some(LogKind::Type) => {
                        let tv = variables.lookup(&cursor);
                        variant_name_of(&tv)
                    },
                    None => String::new(),
                };
                let rendered = render_exec(base.as_str(), *reverse, *space, *newline, *vertical);
                if *assign {
                    let rs = chars_string(&rendered);
                    let nv = string_to_value(rs.as_str());
                    variables.store(value_clone(&cursor), nv);
                }
                let mut k: usize = 0;
                let ghost out_pre = out@;
                while k < rendered.len()
                    invariant
                        k <= rendered@.len(),
                        out@ == out_pre + rendered@.take(k as int),
                    decreases rendered@.len() - k,
                {
                    out.push(rendered[k]);
                    proof {
                        assert(out@ =~= out_pre + rendered@.take(k as int + 1));
                    }
                    k += 1;
                }
                proof {
                    assert(rendered@.take(rendered@.len() as int) =~= rendered@);
                }
                pc += 1;
            },
            Statement::Input => {
                let line: String = if in_idx < inputs.len() {
                    inputs[in_idx].clone()
                } else {
                    String::new()
                };
                proof {
                    if in_idx < inputs@.len() {
                        assert(ins.skip(in_idx as int)[0] == ins[in_idx as int]);
                        assert(ins[in_idx as int] == inputs@[in_idx as int]@);
                        assert(ins.skip(in_idx as int).drop_first() =~= ins.skip(
                            in_idx as int + 1,
                        ));
                    } else {
                        assert(ins.skip(in_idx as int).len() == 0);
                    }
                }
                if in_idx < inputs.len() {
                    in_idx += 1;
                }
                let nv = string_to_value(line.as_str());
                variables.store(value_clone(&cursor), nv);
                pc += 1;
            },
        }
        proof {
            lemma_run_spec_snoc(prog, init_state(ins), n, ts, tx);
            ts = ts.push(tx);
            n = n + 1;
            assert(run_spec(prog, init_state(ins), n, ts) == step_spec(prog, st, tx));
        }
    }
    proof {
        let st = run_spec(prog, init_state(ins), n, ts);
        assert(st.pc >= prog.len() || n == u64::MAX as nat);
    }
    RunOutput { stdout: chars_string(&out), variables }
}

/// The next program counter of a conditional: skip `q` statements when
/// the predicate failed.  A skip past the end halts the machine.
fn cond_advance(pc: usize, prog_len: usize, q: usize, c: bool) -> (r: usize)
    requires
        pc < prog_len,
    ensures
        r <= prog_len,
        ({
            let target = if c {
                pc + 1
            } else {
                pc + 1 + q
            };
            (r == target) || (target >= prog_len && r == prog_len)
        }),
{
    if c {
        pc + 1
    } else {
        let remaining = prog_len - pc;
        if q >= remaining {
            prog_len
        } else {
            pc + q + 1
        }
    }
}

} // verus!

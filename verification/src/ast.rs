//! The value model and the statement records.
//!
//! A `Value` is the heterogeneous datum the machine computes with; the
//! same universe serves as memory key and memory content.  Its
//! mathematical meaning is an `AbsValue`, where a `SmallInt` and a big
//! `Integer` of the same magnitude collapse into one integer, a float is
//! its canonical text, and a time value forgets its instant (a time used
//! as a lookup key ignores its contents).

use vstd::prelude::*;

use std::time::Instant;

use crate::bignum::{BigNum, big_val, big_wf, big_to_i128, fits_i128, big_eq};
use crate::floats::float_truthy_of;

verus! {

pub type Text = String;
pub type SmallInt = i128;

#[derive(Clone, Debug)]
pub enum Value {
    JumpAddress(usize),
    Symbol(String),
    Boolean(bool),
    Integer(BigNum),
    SmallInt(SmallInt),
    Float(String),
    Text(Text),
    Time(Option<Instant>),
    Null,
}

/// The mathematical reading of a `Value`.
pub enum AbsValue {
    Jump(nat),
    Sym(Seq<char>),
    Bool(bool),
    Int(int),
    Flt(Seq<char>),
    Txt(Seq<char>),
    Time,
    Null,
}

pub open spec fn vabs(v: Value) -> AbsValue {
    match v {
        Value::JumpAddress(a) => AbsValue::Jump(a as nat),
        Value::Symbol(s) => AbsValue::Sym(s@),
        Value::Boolean(b) => AbsValue::Bool(b),
        Value::Integer(b) => AbsValue::Int(big_val(b)),
        Value::SmallInt(i) => AbsValue::Int(i as int),
        Value::Float(f) => AbsValue::Flt(f@),
        Value::Text(t) => AbsValue::Txt(t@),
        Value::Time(_) => AbsValue::Time,
        Value::Null => AbsValue::Null,
    }
}

/// Well-formed values keep the integer compression invariant: a big
/// integer representation is only used when the value does not fit in a
/// `SmallInt`, so each `AbsValue` has exactly one well-formed form (up to
/// the instant inside a time value).
pub open spec fn value_wf(v: Value) -> bool {
    match v {
        Value::Integer(b) => big_wf(b) && !fits_i128(big_val(b)),
        _ => true,
    }
}

/// Equality of values is equality of their mathematical readings.
pub fn value_eq(a: &Value, b: &Value) -> (r: bool)
    ensures
        r == (vabs(*a) == vabs(*b)),
{
    match (a, b) {
        (Value::JumpAddress(x), Value::JumpAddress(y)) => x == y,
        (Value::Symbol(x), Value::Symbol(y)) => x.eq(y),
        (Value::Boolean(x), Value::Boolean(y)) => x == y,
        (Value::Integer(x), Value::Integer(y)) => big_eq(x, y),
        (Value::SmallInt(x), Value::SmallInt(y)) => x == y,
        (Value::Integer(x), Value::SmallInt(y)) => match big_to_i128(x) {
            Some(v) => v == *y,
            None => false,
        },
        (Value::SmallInt(x), Value::Integer(y)) => match big_to_i128(y) {
            Some(v) => v == *x,
            None => false,
        },
        (Value::Float(x), Value::Float(y)) => x.eq(y),
        (Value::Text(x), Value::Text(y)) => x.eq(y),
        (Value::Time(_), Value::Time(_)) => true,
        (Value::Null, Value::Null) => true,
        _ => false,
    }
}

/// A clone whose meaning is pinned down: the copy reads as the same
/// `AbsValue` and stays well-formed.
pub fn value_clone(v: &Value) -> (r: Value)
    ensures
        vabs(r) == vabs(*v),
        value_wf(*v) ==> value_wf(r),
{
    match v {
        Value::JumpAddress(a) => Value::JumpAddress(*a),
        Value::Symbol(s) => Value::Symbol(s.clone()),
        Value::Boolean(b) => Value::Boolean(*b),
        Value::Integer(b) => {
            let limbs = b.limbs.clone();
            assert(limbs@ =~= b.limbs@);
            Value::Integer(BigNum { negative: b.negative, limbs })
        },
        Value::SmallInt(i) => Value::SmallInt(*i),
        Value::Float(f) => Value::Float(f.clone()),
        Value::Text(t) => Value::Text(t.clone()),
        Value::Time(t) => Value::Time(*t),
        Value::Null => Value::Null,
    }
}

/// Narrow a big integer to a `SmallInt` when it fits: the canonical,
/// well-formed form of an integer value.
pub fn compress_integer(b: BigNum) -> (r: Value)
    requires
        big_wf(b),
    ensures
        vabs(r) == AbsValue::Int(big_val(b)),
        value_wf(r),
{
    match big_to_i128(&b) {
        Some(v) => Value::SmallInt(v),
        None => Value::Integer(b),
    }
}

/// Truthiness: null, false, zero, the empty text, and non-finite or zero
/// floats are falsy; everything else is truthy.
pub open spec fn truthy(v: AbsValue) -> bool {
    match v {
        AbsValue::Sym(_) => true,
        AbsValue::Bool(b) => b,
        AbsValue::Int(n) => n != 0,
        AbsValue::Flt(f) => float_truthy_of(f),
        AbsValue::Txt(t) => t.len() > 0,
        AbsValue::Time => true,
        AbsValue::Null => false,
        AbsValue::Jump(_) => true,
    }
}

/// Existence: everything but null exists.
pub open spec fn exists_v(v: AbsValue) -> bool {
    !(v is Null)
}

pub fn value_truthy(v: &Value) -> (r: bool)
    requires
        value_wf(*v),
    ensures
        r == truthy(vabs(*v)),
{
    match v {
        Value::Symbol(_) => true,
        Value::Boolean(b) => *b,
        Value::Integer(n) => {
            proof {
                crate::bignum::lemma_big_nonzero(*n);
            }
            n.limbs.len() != 0
        },
        Value::SmallInt(i) => *i != 0,
        Value::Float(f) => crate::floats::float_truthy(f.as_str()),
        Value::Text(s) => !s.as_str().is_empty(),
        Value::Time(_) => true,
        Value::Null => false,
        Value::JumpAddress(_) => true,
    }
}

pub fn value_exists(v: &Value) -> (r: bool)
    ensures
        r == exists_v(vabs(*v)),
{
    !matches!(v, Value::Null)
}

/// An operand: a value together with the number of extra dereferences to
/// apply through the reader before use.
#[derive(Clone, Debug)]
pub struct Expression {
    pub reader: usize,
    pub value: Value,
}

#[derive(Clone, Copy, Debug)]
pub enum LogKind {
    Value,
    Pointer,
    Type,
}

impl LogKind {
    /// The implicit dereference a print kind starts with: printing "the
    /// value" reads memory at the cursor once, printing the cursor reads
    /// nothing.
    pub fn reader_count(&self) -> (r: usize)
        ensures
            r as nat == spec_reader_count(*self),
    {
        match self {
            LogKind::Pointer => 0,
            LogKind::Value => 1,
            LogKind::Type => 0,
        }
    }
}

pub open spec fn spec_reader_count(k: LogKind) -> nat {
    match k {
        LogKind::Pointer => 0,
        LogKind::Value => 1,
        LogKind::Type => 0,
    }
}

#[derive(Clone, Debug)]
pub enum Statement {
    Load(Expression),
    Define(Expression),
    Jump(Expression),
    Assign(Expression),
    Overwrite(Expression),
    Swap(Expression),
    Index(Expression),

    And(Expression),
    Or(Expression),
    Xor(Expression),

    Plus(Expression),
    Minus(Expression),
    Times(Expression),
    Divide(Expression),
    Modulo(Expression),
    Exponential(Expression),

    Unequal(Expression),
    Equal(Expression),
    LessThan(Expression),
    LessThanOrEqual(Expression),
    GreaterThan(Expression),
    GreaterThanOrEqual(Expression),

    Truthy(usize),
    Falsy(usize),
    Exists(usize),
    Empty(usize),

    Log {
        kind: Option<LogKind>,
        reader: usize,
        special: bool,
        reverse: bool,
        newline: bool,
        space: usize,
        vertical: bool,
        assign: bool,
    },

    Input,
}

pub type Statements = Vec<Statement>;

/// The mathematical reading of an operand.
pub struct AExpr {
    pub reader: nat,
    pub value: AbsValue,
}

pub open spec fn expr_abs(e: Expression) -> AExpr {
    AExpr { reader: e.reader as nat, value: vabs(e.value) }
}

/// The mathematical reading of a statement.
pub enum AStmt {
    Load(AExpr),
    Define(AExpr),
    Jump(AExpr),
    Assign(AExpr),
    Overwrite(AExpr),
    Swap(AExpr),
    Index(AExpr),
    And(AExpr),
    Or(AExpr),
    Xor(AExpr),
    Plus(AExpr),
    Minus(AExpr),
    Times(AExpr),
    Divide(AExpr),
    Modulo(AExpr),
    Exponential(AExpr),
    Unequal(AExpr),
    Equal(AExpr),
    LessThan(AExpr),
    LessThanOrEqual(AExpr),
    GreaterThan(AExpr),
    GreaterThanOrEqual(AExpr),
    Truthy(nat),
    Falsy(nat),
    Exists(nat),
    Empty(nat),
    Log {
        kind: Option<LogKind>,
        reader: nat,
        special: bool,
        reverse: bool,
        newline: bool,
        space: nat,
        vertical: bool,
        assign: bool,
    },
    Input,
}

pub open spec fn stmt_abs(s: Statement) -> AStmt {
    match s {
        Statement::Load(e) => AStmt::Load(expr_abs(e)),
        Statement::Define(e) => AStmt::Define(expr_abs(e)),
        Statement::Jump(e) => AStmt::Jump(expr_abs(e)),
        Statement::Assign(e) => AStmt::Assign(expr_abs(e)),
        Statement::Overwrite(e) => AStmt::Overwrite(expr_abs(e)),
        Statement::Swap(e) => AStmt::Swap(expr_abs(e)),
        Statement::Index(e) => AStmt::Index(expr_abs(e)),
        Statement::And(e) => AStmt::And(expr_abs(e)),
        Statement::Or(e) => AStmt::Or(expr_abs(e)),
        Statement::Xor(e) => AStmt::Xor(expr_abs(e)),
        Statement::Plus(e) => AStmt::Plus(expr_abs(e)),
        Statement::Minus(e) => AStmt::Minus(expr_abs(e)),
        Statement::Times(e) => AStmt::Times(expr_abs(e)),
        Statement::Divide(e) => AStmt::Divide(expr_abs(e)),
        Statement::Modulo(e) => AStmt::Modulo(expr_abs(e)),
        Statement::Exponential(e) => AStmt::Exponential(expr_abs(e)),
        Statement::Unequal(e) => AStmt::Unequal(expr_abs(e)),
        Statement::Equal(e) => AStmt::Equal(expr_abs(e)),
        Statement::LessThan(e) => AStmt::LessThan(expr_abs(e)),
        Statement::LessThanOrEqual(e) => AStmt::LessThanOrEqual(expr_abs(e)),
        Statement::GreaterThan(e) => AStmt::GreaterThan(expr_abs(e)),
        Statement::GreaterThanOrEqual(e) => AStmt::GreaterThanOrEqual(expr_abs(e)),
        Statement::Truthy(q) => AStmt::Truthy(q as nat),
        Statement::Falsy(q) => AStmt::Falsy(q as nat),
        Statement::Exists(q) => AStmt::Exists(q as nat),
        Statement::Empty(q) => AStmt::Empty(q as nat),
        Statement::Log { kind, reader, special, reverse, newline, space, vertical, assign } =>
            AStmt::Log {
            kind,
            reader: reader as nat,
            special,
            reverse,
            newline,
            space: space as nat,
            vertical,
            assign,
        },
        Statement::Input => AStmt::Input,
    }
}

/// Whether an expression's value keeps the compression invariant.
pub open spec fn stmt_wf(s: Statement) -> bool {
    match s {
        Statement::Load(e) => value_wf(e.value),
        Statement::Define(e) => value_wf(e.value),
        Statement::Jump(e) => value_wf(e.value),
        Statement::Assign(e) => value_wf(e.value),
        Statement::Overwrite(e) => value_wf(e.value),
        Statement::Swap(e) => value_wf(e.value),
        Statement::Index(e) => value_wf(e.value),
        Statement::And(e) => value_wf(e.value),
        Statement::Or(e) => value_wf(e.value),
        Statement::Xor(e) => value_wf(e.value),
        Statement::Plus(e) => value_wf(e.value),
        Statement::Minus(e) => value_wf(e.value),
        Statement::Times(e) => value_wf(e.value),
        Statement::Divide(e) => value_wf(e.value),
        Statement::Modulo(e) => value_wf(e.value),
        Statement::Exponential(e) => value_wf(e.value),
        Statement::Unequal(e) => value_wf(e.value),
        Statement::Equal(e) => value_wf(e.value),
        Statement::LessThan(e) => value_wf(e.value),
        Statement::LessThanOrEqual(e) => value_wf(e.value),
        Statement::GreaterThan(e) => value_wf(e.value),
        Statement::GreaterThanOrEqual(e) => value_wf(e.value),
        Statement::Log { reader, .. } => reader < usize::MAX,
        _ => true,
    }
}

} // verus!

//! The evaluator's specification.
//!
//! A machine state is a memory mapping, a cursor, a program counter, the
//! output so far and the remaining input lines.  `step_spec` says what one
//! statement does to that state; `run_spec` iterates it.  The only
//! nondeterminism is the text printed for a time value, which is threaded
//! through as an oracle string, so every other behaviour is a function of
//! the program and its inputs.

use vstd::prelude::*;

use crate::ast::{AbsValue, AExpr, AStmt, LogKind, spec_reader_count, truthy, exists_v};
use crate::bignum::{dec_str, dec_val, be_bytes_val, is_dec_digit, tdiv, tmod, int_pow, fits_i128};
use crate::floats::{
    float_add_of, float_sub_of, float_mul_of, float_div_of, float_rem_of, float_pow_of,
    float_lt_of, float_le_of, float_of_lit, float_f64_str_of,
};
use crate::lexer::is_ws;
use crate::memory::mget;
use vstd::utf8::encode_utf8;

verus! {

/// A machine state.
pub struct MState {
    pub mem: Map<AbsValue, AbsValue>,
    pub cursor: AbsValue,
    pub pc: nat,
    pub out: Seq<char>,
    pub inputs: Seq<Seq<char>>,
}

pub open spec fn init_state(inputs: Seq<Seq<char>>) -> MState {
    MState {
        mem: Map::empty(),
        cursor: AbsValue::Null,
        pc: 0,
        out: Seq::empty(),
        inputs,
    }
}

/// The least index of `v` in `chain`, or -1.
pub open spec fn first_occ(chain: Seq<AbsValue>, v: AbsValue) -> int
    decreases chain.len(),
{
    if chain.len() == 0 {
        -1
    } else if chain[0] == v {
        0
    } else {
        let r = first_occ(chain.drop_first(), v);
        if r < 0 {
            -1
        } else {
            r + 1
        }
    }
}

/// The chained dereference.  The chain holds the values visited so far;
/// when the next value closes a cycle, the result is picked out of the
/// chain by the circular-reader formula.
pub open spec fn spec_reader_rec(
    mem: Map<AbsValue, AbsValue>,
    chain: Seq<AbsValue>,
    i: nat,
    reader: nat,
) -> AbsValue
    decreases reader - i,
{
    if i >= reader || chain.len() == 0 {
        chain.last()
    } else {
        let cur = mget(mem, chain.last());
        let idx = first_occ(chain, cur);
        if idx >= 0 {
            let base = reader + i + idx + 1;
            let modulo = chain.len() - idx;
            chain[idx + (base % modulo)]
        } else {
            spec_reader_rec(mem, chain.push(cur), i + 1, reader)
        }
    }
}

/// Resolve `value` through `reader` chained dereferences.
pub open spec fn spec_reader(mem: Map<AbsValue, AbsValue>, v: AbsValue, reader: nat) -> AbsValue {
    spec_reader_rec(mem, seq![v], 0, reader)
}

/// The left/right binary operators.
#[derive(Clone, Copy, Debug, PartialEq, Eq, Structural)]
pub enum OpKind {
    And,
    Or,
    Xor,
    Plus,
    Minus,
    Times,
    Divide,
    Modulo,
    Exponential,
    Unequal,
    Equal,
    LessThan,
    LessThanOrEqual,
    GreaterThan,
    GreaterThanOrEqual,
    Index,
}

/// Lexicographic order on character sequences, by code point.
pub open spec fn str_lt(a: Seq<char>, b: Seq<char>) -> bool
    decreases a.len(),
{
    if b.len() == 0 {
        false
    } else if a.len() == 0 {
        true
    } else if a[0] != b[0] {
        (a[0] as u32) < (b[0] as u32)
    } else {
        str_lt(a.drop_first(), b.drop_first())
    }
}

pub open spec fn str_le(a: Seq<char>, b: Seq<char>) -> bool {
    str_lt(a, b) || a == b
}

pub open spec fn spec_plus(l: AbsValue, r: AbsValue) -> AbsValue {
    match (l, r) {
        (AbsValue::Int(a), AbsValue::Int(b)) => AbsValue::Int(a + b),
        (AbsValue::Txt(a), AbsValue::Txt(b)) => AbsValue::Txt(a + b),
        (AbsValue::Txt(a), AbsValue::Int(b)) => AbsValue::Txt(a + dec_str(b)),
        (AbsValue::Flt(a), AbsValue::Flt(b)) => AbsValue::Flt(float_add_of(a, b)),
        _ => AbsValue::Null,
    }
}

pub open spec fn spec_minus(l: AbsValue, r: AbsValue) -> AbsValue {
    match (l, r) {
        (AbsValue::Int(a), AbsValue::Int(b)) => AbsValue::Int(a - b),
        (AbsValue::Flt(a), AbsValue::Flt(b)) => AbsValue::Flt(float_sub_of(a, b)),
        _ => AbsValue::Null,
    }
}

pub open spec fn spec_times(l: AbsValue, r: AbsValue) -> AbsValue {
    match (l, r) {
        (AbsValue::Int(a), AbsValue::Int(b)) => AbsValue::Int(a * b),
        (AbsValue::Flt(a), AbsValue::Flt(b)) => AbsValue::Flt(float_mul_of(a, b)),
        _ => AbsValue::Null,
    }
}

/// Division truncates toward zero; dividing by the integer zero gives
/// null (the reference leaves this case undefined).
pub open spec fn spec_divide(l: AbsValue, r: AbsValue) -> AbsValue {
    match (l, r) {
        (AbsValue::Int(a), AbsValue::Int(b)) => if b == 0 {
            AbsValue::Null
        } else {
            AbsValue::Int(tdiv(a, b))
        },
        (AbsValue::Flt(a), AbsValue::Flt(b)) => AbsValue::Flt(float_div_of(a, b)),
        _ => AbsValue::Null,
    }
}

pub open spec fn spec_modulo(l: AbsValue, r: AbsValue) -> AbsValue {
    match (l, r) {
        (AbsValue::Int(a), AbsValue::Int(b)) => if b == 0 {
            AbsValue::Null
        } else {
            AbsValue::Int(tmod(a, b))
        },
        (AbsValue::Flt(a), AbsValue::Flt(b)) => AbsValue::Flt(float_rem_of(a, b)),
        _ => AbsValue::Null,
    }
}

/// Integer exponentiation demands an exponent that fits in `u32`; any
/// other exponent gives null (the reference leaves that case undefined).
pub open spec fn spec_expon(l: AbsValue, r: AbsValue) -> AbsValue {
    match (l, r) {
        (AbsValue::Int(a), AbsValue::Int(b)) => if 0 <= b <= u32::MAX as int {
            AbsValue::Int(int_pow(a, b as nat))
        } else {
            AbsValue::Null
        },
        (AbsValue::Flt(a), AbsValue::Flt(b)) => AbsValue::Flt(float_pow_of(a, b)),
        _ => AbsValue::Null,
    }
}

pub open spec fn spec_lt(l: AbsValue, r: AbsValue) -> AbsValue {
    match (l, r) {
        (AbsValue::Int(a), AbsValue::Int(b)) => AbsValue::Bool(a < b),
        (AbsValue::Txt(a), AbsValue::Txt(b)) => AbsValue::Bool(str_lt(a, b)),
        (AbsValue::Flt(a), AbsValue::Flt(b)) => AbsValue::Bool(float_lt_of(a, b)),
        _ => AbsValue::Null,
    }
}

pub open spec fn spec_le(l: AbsValue, r: AbsValue) -> AbsValue {
    match (l, r) {
        (AbsValue::Int(a), AbsValue::Int(b)) => AbsValue::Bool(a <= b),
        (AbsValue::Txt(a), AbsValue::Txt(b)) => AbsValue::Bool(str_le(a, b)),
        (AbsValue::Flt(a), AbsValue::Flt(b)) => AbsValue::Bool(float_le_of(a, b)),
        _ => AbsValue::Null,
    }
}

pub open spec fn spec_index(l: AbsValue, r: AbsValue) -> AbsValue {
    match (l, r) {
        (AbsValue::Txt(s), AbsValue::Int(n)) => if 0 <= n < s.len() {
            AbsValue::Txt(seq![s[n]])
        } else {
            AbsValue::Null
        },
        _ => AbsValue::Null,
    }
}

pub open spec fn apply_binop(op: OpKind, l: AbsValue, r: AbsValue) -> AbsValue {
    match op {
        OpKind::And => AbsValue::Bool(truthy(l) && truthy(r)),
        OpKind::Or => AbsValue::Bool(truthy(l) || truthy(r)),
        OpKind::Xor => AbsValue::Bool(truthy(l) != truthy(r)),
        OpKind::Plus => spec_plus(l, r),
        OpKind::Minus => spec_minus(l, r),
        OpKind::Times => spec_times(l, r),
        OpKind::Divide => spec_divide(l, r),
        OpKind::Modulo => spec_modulo(l, r),
        OpKind::Exponential => spec_expon(l, r),
        OpKind::Unequal => AbsValue::Bool(l != r),
        OpKind::Equal => AbsValue::Bool(l == r),
        OpKind::LessThan => spec_lt(l, r),
        OpKind::LessThanOrEqual => spec_le(l, r),
        OpKind::GreaterThan => spec_lt(r, l),
        OpKind::GreaterThanOrEqual => spec_le(r, l),
        OpKind::Index => spec_index(l, r),
    }
}

/// The value the char-of-code-point conversion returns; see the trusted
/// wrapper `char_from_u32`.
pub uninterp spec fn char_of(m: nat) -> char;

/// Relies on `char::from_u32`: `Some` exactly for valid Unicode scalar
/// values, and the returned character has that value.
#[verifier::external_body]
pub fn char_from_u32(v: u32) -> (r: Option<char>)
    ensures
        match r {
            Some(c) => valid_scalar(v as int) && c == char_of(v as nat) && c as int == v as int,
            None => !valid_scalar(v as int),
        },
{
    char::from_u32(v)
}

pub open spec fn valid_scalar(m: int) -> bool {
    (0 <= m && m <= 0xD7FF) || (0xE000 <= m && m <= 0x10FFFF)
}

/// The two's-complement reading of an integer as an unsigned 128-bit
/// number, as an `as` cast performs it.
pub open spec fn wrap_u128(n: int) -> nat {
    if 0 <= n {
        n as nat
    } else {
        (n + u128::MAX as int + 1) as nat
    }
}

/// `/` escaped as `\/`.
pub open spec fn escape_slashes(s: Seq<char>) -> Seq<char>
    decreases s.len(),
{
    if s.len() == 0 {
        Seq::empty()
    } else if s[0] == '/' {
        seq!['\\', '/'] + escape_slashes(s.drop_first())
    } else {
        seq![s[0]] + escape_slashes(s.drop_first())
    }
}

pub open spec fn bin_digit(d: int) -> char {
    if d == 0 {
        '0'
    } else {
        '1'
    }
}

/// Binary digits of a natural number, most significant first.
pub open spec fn bin_nat(n: nat) -> Seq<char>
    decreases n,
{
    if n < 2 {
        seq![bin_digit(n as int)]
    } else {
        bin_nat(n / 2).push(bin_digit((n % 2) as int))
    }
}

/// The character printed for an integer under the special flag: the
/// two's-complement truncation to 32 bits wide must be a valid scalar
/// value, otherwise the replacement character.
pub open spec fn int_special_str(n: int) -> Seq<char> {
    if fits_i128(n) {
        let w = wrap_u128(n);
        if w <= u32::MAX as nat && valid_scalar(w as int) {
            seq![char_of(w)]
        } else {
            seq!['\u{fffd}']
        }
    } else {
        seq!['\u{fffd}']
    }
}

/// The printed form of a value.  `special` selects the numeric or raw
/// reinterpretation.  Time values are not covered here: their text
/// depends on the clock and is threaded as an oracle.
pub open spec fn to_string_spec(v: AbsValue, special: bool) -> Seq<char> {
    match v {
        AbsValue::Sym(s) => if special {
            dec_str(be_bytes_val(encode_utf8(s)) as int)
        } else {
            s
        },
        AbsValue::Bool(b) => if special {
            if b {
                "1"@
            } else {
                "0"@
            }
        } else {
            if b {
                "true"@
            } else {
                "false"@
            }
        },
        AbsValue::Int(n) => if special {
            int_special_str(n)
        } else {
            dec_str(n)
        },
        AbsValue::Flt(f) => if special {
            float_f64_str_of(f)
        } else {
            f
        },
        AbsValue::Txt(s) => if special {
            s
        } else {
            seq!['/'] + escape_slashes(s) + seq!['/']
        },
        AbsValue::Null => if special {
            seq!['\u{0}']
        } else {
            "null"@
        },
        AbsValue::Jump(a) => if special {
            bin_nat(a)
        } else {
            dec_str(a as int)
        },
        AbsValue::Time => Seq::empty(),
    }
}

/// The printed form, with the oracle standing in for a time value.
pub open spec fn print_string(v: AbsValue, special: bool, tstr: Seq<char>) -> Seq<char> {
    if v is Time {
        tstr
    } else {
        to_string_spec(v, special)
    }
}

/// The name of a value's variant.
pub open spec fn variant_name(v: AbsValue) -> Seq<char> {
    match v {
        AbsValue::Jump(_) => "JumpAddress"@,
        AbsValue::Sym(_) => "Symbol"@,
        AbsValue::Bool(_) => "Boolean"@,
        AbsValue::Int(n) => if fits_i128(n) {
            "SmallInt"@
        } else {
            "Integer"@
        },
        AbsValue::Flt(_) => "Float"@,
        AbsValue::Txt(_) => "Text"@,
        AbsValue::Time => "Time"@,
        AbsValue::Null => "Null"@,
    }
}

pub open spec fn ltrim(s: Seq<char>) -> Seq<char>
    decreases s.len(),
{
    if s.len() > 0 && is_ws(s[0]) {
        ltrim(s.drop_first())
    } else {
        s
    }
}

pub open spec fn rtrim(s: Seq<char>) -> Seq<char>
    decreases s.len(),
{
    if s.len() > 0 && is_ws(s.last()) {
        rtrim(s.drop_last())
    } else {
        s
    }
}

pub open spec fn trim(s: Seq<char>) -> Seq<char> {
    rtrim(ltrim(s))
}

pub open spec fn all_digits(s: Seq<char>) -> bool {
    forall|i: int| 0 <= i < s.len() ==> is_dec_digit(#[trigger] s[i])
}

pub open spec fn count_dots(s: Seq<char>) -> nat
    decreases s.len(),
{
    if s.len() == 0 {
        0
    } else if s[0] == '.' {
        1 + count_dots(s.drop_first())
    } else {
        count_dots(s.drop_first())
    }
}

pub open spec fn digits_and_dots(s: Seq<char>) -> bool {
    forall|i: int| 0 <= i < s.len() ==> is_dec_digit(#[trigger] s[i]) || s[i] == '.'
}

pub open spec fn is_word_char(c: char) -> bool {
    is_dec_digit(c) || ('a' <= c && c <= 'z') || ('A' <= c && c <= 'Z') || c == '_'
}

pub open spec fn all_word_chars(s: Seq<char>) -> bool {
    forall|i: int| 0 <= i < s.len() ==> is_word_char(#[trigger] s[i])
}

/// How a line of text is read back as a value: the classification used by
/// the input statement and by the print-assign flag.
pub open spec fn classify(s: Seq<char>) -> AbsValue {
    let t = trim(s);
    if t.len() == 0 {
        AbsValue::Null
    } else if all_digits(t) {
        AbsValue::Int(dec_val(t))
    } else if count_dots(t) == 2 && digits_and_dots(t) {
        AbsValue::Flt(float_of_lit(t))
    } else if t == "true"@ || t == "on"@ || t == "yes"@ {
        AbsValue::Bool(true)
    } else if t == "false"@ || t == "off"@ || t == "no"@ {
        AbsValue::Bool(false)
    } else if t == "null"@ {
        AbsValue::Null
    } else if t == "\u{00b5}"@ {
        AbsValue::Time
    } else if all_word_chars(t) {
        AbsValue::Sym(t)
    } else {
        AbsValue::Txt(t)
    }
}

/// The lines of a text, split at newlines, each stripped of one trailing
/// carriage return, without a final empty line.
pub open spec fn line_len(s: Seq<char>) -> nat
    decreases s.len(),
{
    if s.len() > 0 && s[0] != '\n' {
        1 + line_len(s.drop_first())
    } else {
        0
    }
}

pub open spec fn strip_cr(l: Seq<char>) -> Seq<char> {
    if l.len() > 0 && l.last() == '\r' {
        l.drop_last()
    } else {
        l
    }
}

pub open spec fn split_lines(s: Seq<char>) -> Seq<Seq<char>>
    decreases s.len(),
{
    if s.len() == 0 {
        Seq::empty()
    } else {
        let k = line_len(s);
        let line0 = strip_cr(s.take(k as int));
        if k >= s.len() {
            seq![line0]
        } else {
            seq![line0] + split_lines(s.skip((k + 1) as int))
        }
    }
}

pub open spec fn max_line_len(lines: Seq<Seq<char>>) -> nat
    decreases lines.len(),
{
    if lines.len() == 0 {
        0
    } else {
        let rest = max_line_len(lines.drop_last());
        if lines.last().len() > rest {
            lines.last().len()
        } else {
            rest
        }
    }
}

pub open spec fn join_lines(rows: Seq<Seq<char>>) -> Seq<char>
    decreases rows.len(),
{
    if rows.len() == 0 {
        Seq::empty()
    } else if rows.len() == 1 {
        rows[0]
    } else {
        join_lines(rows.drop_last()) + seq!['\n'] + rows.last()
    }
}

/// The vertical transposition: rows become columns, padded with spaces.
pub open spec fn vertical_of(s: Seq<char>) -> Seq<char> {
    let lines = split_lines(s);
    let m = max_line_len(lines);
    let rows = Seq::new(
        m,
        |i: int|
            Seq::new(
                lines.len(),
                |j: int|
                    if i < lines[j].len() {
                        lines[j][i]
                    } else {
                        ' '
                    },
            ),
    );
    join_lines(rows)
}

pub open spec fn spaces(n: nat) -> Seq<char>
    decreases n,
{
    if n == 0 {
        Seq::empty()
    } else {
        spaces((n - 1) as nat).push(' ')
    }
}

/// The post-processing of a printed string: reversal, padding spaces, the
/// optional newline, and the vertical transposition.
pub open spec fn render(
    base: Seq<char>,
    reverse: bool,
    space: nat,
    newline: bool,
    vertical: bool,
) -> Seq<char> {
    let a = if reverse {
        base.reverse()
    } else {
        base
    };
    let b = a + spaces(space) + (if newline {
        seq!['\n']
    } else {
        Seq::empty()
    });
    if vertical {
        vertical_of(b)
    } else {
        b
    }
}

/// The string a log statement emits, before post-processing.
pub open spec fn log_string(
    s: MState,
    kind: Option<LogKind>,
    reader: nat,
    special: bool,
    tstr: Seq<char>,
) -> Seq<char> {
    match kind {
        Some(LogKind::Pointer) => print_string(
            spec_reader(s.mem, s.cursor, spec_reader_count(LogKind::Pointer) + reader),
            special,
            tstr,
        ),
        Some(LogKind::Value) => print_string(
            spec_reader(s.mem, s.cursor, spec_reader_count(LogKind::Value) + reader),
            special,
            tstr,
        ),
        Some(LogKind::Type) => variant_name(mget(s.mem, s.cursor)),
        None => Seq::empty(),
    }
}

/// The reader-resolved operand.
pub open spec fn resolved(s: MState, e: AExpr) -> AbsValue {
    spec_reader(s.mem, e.value, e.reader)
}

/// The right operand of a binary statement: a symbol names a variable, so
/// it is read from memory once more.
pub open spec fn lr_right(s: MState, e: AExpr) -> AbsValue {
    let r0 = resolved(s, e);
    if r0 is Sym {
        mget(s.mem, r0)
    } else {
        r0
    }
}

pub open spec fn step_binop(s: MState, op: OpKind, e: AExpr) -> MState {
    let left = mget(s.mem, s.cursor);
    let right = lr_right(s, e);
    MState { mem: s.mem.insert(s.cursor, apply_binop(op, left, right)), pc: s.pc + 1, ..s }
}

pub open spec fn step_cond(s: MState, q: nat, c: bool) -> MState {
    MState {
        pc: if c {
            s.pc + 1
        } else {
            s.pc + 1 + q
        },
        ..s
    }
}

/// What one statement does to the state.  `tstr` is the oracle text used
/// if this step prints a time value.
pub open spec fn step_spec(prog: Seq<AStmt>, s: MState, tstr: Seq<char>) -> MState {
    match prog[s.pc as int] {
        AStmt::Load(e) => MState { cursor: resolved(s, e), pc: s.pc + 1, ..s },
        AStmt::Define(e) => MState {
            mem: s.mem.insert(resolved(s, e), AbsValue::Jump(s.pc)),
            pc: s.pc + 1,
            ..s
        },
        AStmt::Jump(e) => MState {
            pc: match mget(s.mem, resolved(s, e)) {
                AbsValue::Jump(a) => a + 1,
                _ => s.pc + 1,
            },
            ..s
        },
        AStmt::Assign(e) => MState {
            mem: s.mem.insert(s.cursor, resolved(s, e)),
            pc: s.pc + 1,
            ..s
        },
        AStmt::Overwrite(e) => MState {
            mem: s.mem.insert(resolved(s, e), s.cursor),
            pc: s.pc + 1,
            ..s
        },
        AStmt::Swap(e) => {
            let o = resolved(s, e);
            let temp = mget(s.mem, s.cursor);
            MState {
                mem: s.mem.insert(s.cursor, mget(s.mem, o)).insert(o, temp),
                pc: s.pc + 1,
                ..s
            }
        },
        AStmt::Index(e) => step_binop(s, OpKind::Index, e),
        AStmt::And(e) => step_binop(s, OpKind::And, e),
        AStmt::Or(e) => step_binop(s, OpKind::Or, e),
        AStmt::Xor(e) => step_binop(s, OpKind::Xor, e),
        AStmt::Plus(e) => step_binop(s, OpKind::Plus, e),
        AStmt::Minus(e) => step_binop(s, OpKind::Minus, e),
        AStmt::Times(e) => step_binop(s, OpKind::Times, e),
        AStmt::Divide(e) => step_binop(s, OpKind::Divide, e),
        AStmt::Modulo(e) => step_binop(s, OpKind::Modulo, e),
        AStmt::Exponential(e) => step_binop(s, OpKind::Exponential, e),
        AStmt::Unequal(e) => step_binop(s, OpKind::Unequal, e),
        AStmt::Equal(e) => step_binop(s, OpKind::Equal, e),
        AStmt::LessThan(e) => step_binop(s, OpKind::LessThan, e),
        AStmt::LessThanOrEqual(e) => step_binop(s, OpKind::LessThanOrEqual, e),
        AStmt::GreaterThan(e) => step_binop(s, OpKind::GreaterThan, e),
        AStmt::GreaterThanOrEqual(e) => step_binop(s, OpKind::GreaterThanOrEqual, e),
        AStmt::Truthy(q) => step_cond(s, q, truthy(mget(s.mem, s.cursor))),
        AStmt::Falsy(q) => step_cond(s, q, !truthy(mget(s.mem, s.cursor))),
        AStmt::Exists(q) => step_cond(s, q, exists_v(mget(s.mem, s.cursor))),
        AStmt::Empty(q) => step_cond(s, q, !exists_v(mget(s.mem, s.cursor))),
        AStmt::Log { kind, reader, special, reverse, newline, space, vertical, assign } => {
            let base = log_string(s, kind, reader, special, tstr);
            let text = render(base, reverse, space, newline, vertical);
            MState {
                mem: if assign {
                    s.mem.insert(s.cursor, classify(text))
                } else {
                    s.mem
                },
                out: s.out + text,
                pc: s.pc + 1,
                ..s
            }
        },
        AStmt::Input => {
            let line = if s.inputs.len() > 0 {
                s.inputs[0]
            } else {
                Seq::empty()
            };
            MState {
                mem: s.mem.insert(s.cursor, classify(line)),
                inputs: if s.inputs.len() > 0 {
                    s.inputs.drop_first()
                } else {
                    s.inputs
                },
                pc: s.pc + 1,
                ..s
            }
        },
    }
}

/// `n` steps of the machine, consuming one oracle entry per step.
pub open spec fn run_spec(prog: Seq<AStmt>, s: MState, n: nat, ts: Seq<Seq<char>>) -> MState
    decreases n,
{
    if n == 0 || s.pc >= prog.len() {
        s
    } else {
        let head = if ts.len() > 0 {
            ts[0]
        } else {
            Seq::empty()
        };
        let tail = if ts.len() > 0 {
            ts.drop_first()
        } else {
            ts
        };
        run_spec(prog, step_spec(prog, s, head), (n - 1) as nat, tail)
    }
}

/// Appending one oracle entry and one step count runs exactly one more
/// step, when the machine has not already halted.
pub proof fn lemma_run_spec_snoc(
    prog: Seq<AStmt>,
    s: MState,
    n: nat,
    ts: Seq<Seq<char>>,
    x: Seq<char>,
)
    requires
        ts.len() == n,
    ensures
        run_spec(prog, s, n + 1, ts.push(x)) == (if run_spec(prog, s, n, ts).pc >= prog.len() {
            run_spec(prog, s, n, ts)
        } else {
            step_spec(prog, run_spec(prog, s, n, ts), x)
        }),
    decreases n,
{
    if n == 0 {
        assert(ts.push(x)[0] == x);
        assert(ts.push(x).drop_first() =~= ts);
    } else {
        if s.pc >= prog.len() {
            lemma_run_spec_halted(prog, s, n, ts);
            lemma_run_spec_halted(prog, s, (n + 1) as nat, ts.push(x));
        } else {
            assert(ts.push(x)[0] == ts[0]);
            assert(ts.push(x).drop_first() =~= ts.drop_first().push(x));
            lemma_run_spec_snoc(prog, step_spec(prog, s, ts[0]), (n - 1) as nat, ts.drop_first(), x);
        }
    }
}

/// A halted machine stays halted.
pub proof fn lemma_run_spec_halted(prog: Seq<AStmt>, s: MState, n: nat, ts: Seq<Seq<char>>)
    requires
        s.pc >= prog.len(),
    ensures
        run_spec(prog, s, n, ts) == s,
{
}

} // verus!

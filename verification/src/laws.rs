//! Laws of the machine: properties that hold of every program and every
//! reachable state, proved once and for all against the semantics.

use vstd::prelude::*;

use crate::ast::{AbsValue, AExpr, AStmt, LogKind, truthy};
use crate::bignum::{BigNum, big_val};
use crate::memory::mget;
use crate::semantics::{
    MState, classify, first_occ, init_state, log_string, resolved, run_spec, spaces, spec_reader,
    spec_reader_rec, step_spec, trim,
};
use vstd::arithmetic::div_mod::lemma_mod_adds;

verus! {

/// The reader applied zero times returns the value unchanged.
pub proof fn lemma_reader_zero(mem: Map<AbsValue, AbsValue>, v: AbsValue)
    ensures
        spec_reader(mem, v, 0) == v,
{
}

/// Loading sets the cursor to the reader-resolution of the operand and
/// changes nothing else but the program counter.
pub proof fn lemma_load_sets_cursor(prog: Seq<AStmt>, s: MState, e: AExpr, tstr: Seq<char>)
    requires
        s.pc < prog.len(),
        prog[s.pc as int] == AStmt::Load(e),
    ensures
        step_spec(prog, s, tstr).cursor == spec_reader(s.mem, e.value, e.reader),
        step_spec(prog, s, tstr).mem == s.mem,
        step_spec(prog, s, tstr).out == s.out,
        step_spec(prog, s, tstr).pc == s.pc + 1,
{
}

/// Assigning stores the reader-resolution of the operand at the cursor;
/// with no reader marks that is the operand value itself (a re-stamped
/// time value reads as the same abstract value).
pub proof fn lemma_assign_stores(prog: Seq<AStmt>, s: MState, e: AExpr, tstr: Seq<char>)
    requires
        s.pc < prog.len(),
        prog[s.pc as int] == AStmt::Assign(e),
    ensures
        step_spec(prog, s, tstr).mem == s.mem.insert(s.cursor, spec_reader(s.mem, e.value, e.reader)),
        e.reader == 0 ==> mget(step_spec(prog, s, tstr).mem, s.cursor) == e.value,
        step_spec(prog, s, tstr).cursor == s.cursor,
        step_spec(prog, s, tstr).pc == s.pc + 1,
{
}

/// A small integer and a big representation of the same integer are one
/// key: memory cannot tell them apart.
pub proof fn lemma_int_keys_unified(mm: Map<AbsValue, AbsValue>, n: i128, b: BigNum)
    requires
        big_val(b) == n as int,
    ensures
        crate::ast::vabs(crate::ast::Value::SmallInt(n)) == crate::ast::vabs(
            crate::ast::Value::Integer(b),
        ),
        mget(mm, crate::ast::vabs(crate::ast::Value::SmallInt(n))) == mget(
            mm,
            crate::ast::vabs(crate::ast::Value::Integer(b)),
        ),
{
}

/// A chain of distinct values each stored at the previous one: the
/// reader applied `k` times from the start of the chain lands on its
/// `k`-th element.
pub proof fn lemma_reader_chain(mem: Map<AbsValue, AbsValue>, vs: Seq<AbsValue>, k: nat)
    requires
        vs.len() == k + 1,
        forall|p: int, q: int| 0 <= p < q < vs.len() ==> vs[p] != vs[q],
        forall|i: int| 0 <= i < k ==> mget(mem, #[trigger] vs[i]) == vs[i + 1],
    ensures
        spec_reader(mem, vs[0], k) == vs[k as int],
{
    assert(seq![vs[0]] =~= vs.take(1));
    lemma_reader_chain_rec(mem, vs, 0, k);
}

proof fn lemma_reader_chain_rec(mem: Map<AbsValue, AbsValue>, vs: Seq<AbsValue>, i: nat, k: nat)
    requires
        i <= k,
        vs.len() == k + 1,
        forall|p: int, q: int| 0 <= p < q < vs.len() ==> vs[p] != vs[q],
        forall|j: int| 0 <= j < k ==> mget(mem, #[trigger] vs[j]) == vs[j + 1],
    ensures
        spec_reader_rec(mem, vs.take(i as int + 1), i, k) == vs[k as int],
    decreases k - i,
{
    let chain = vs.take(i as int + 1);
    assert(chain.last() == vs[i as int]);
    if i == k {
    } else {
        let cur = mget(mem, vs[i as int]);
        assert(cur == vs[i as int + 1]);
        assert forall|j: int| 0 <= j < chain.len() implies chain[j] != cur by {
            assert(chain[j] == vs[j]);
        }
        crate::run::lemma_first_occ_none(chain, cur);
        assert(chain.push(cur) =~= vs.take(i as int + 2));
        lemma_reader_chain_rec(mem, vs, i + 1, k);
    }
}

/// The circular reader: on a pure cycle of length `L`, starting at the
/// cycle element `s0` with depth `d`, the reader returns the element
/// `(s0 + d) mod L` of the cycle -- as if the chain simply kept walking
/// around the cycle.
/// The rotated view of a cycle: starting the walk at `s0` gives the same
/// cycle, rotated.
pub open spec fn rot_seq(c: Seq<AbsValue>, s0: nat) -> Seq<AbsValue> {
    Seq::new(c.len(), |j: int| c[((s0 + j) as int % (c.len() as int)) as int])
}

/// The modular form of the cycle hypothesis, unrolled into its two
/// mod-free parts.
proof fn lemma_cycle_mod_unroll(mem: Map<AbsValue, AbsValue>, c: Seq<AbsValue>)
    requires
        c.len() >= 1,
        forall|j: int|
            0 <= j < c.len() ==> mget(mem, #[trigger] c[j]) == c[(j + 1) % (c.len() as int)],
    ensures
        forall|j: int| 0 <= j < c.len() - 1 ==> mget(mem, #[trigger] c[j]) == c[j + 1],
        mget(mem, c[c.len() - 1]) == c[0],
{
    let l = c.len() as int;
    assert forall|j: int| 0 <= j < c.len() - 1 implies mget(mem, #[trigger] c[j]) == c[j + 1] by {
        vstd::arithmetic::div_mod::lemma_small_mod((j + 1) as nat, c.len());
    }
    assert(mget(mem, c[l - 1]) == c[0]) by {
        vstd::arithmetic::div_mod::lemma_mod_self_0(l);
    }
}

#[verifier::rlimit(100)]
#[verifier::spinoff_prover]
proof fn lemma_rot_props(mem: Map<AbsValue, AbsValue>, c: Seq<AbsValue>, s0: nat)
    requires
        c.len() >= 1,
        s0 < c.len(),
        forall|p: int, q: int| 0 <= p < q < c.len() ==> c[p] != c[q],
        forall|j: int| 0 <= j < c.len() - 1 ==> mget(mem, #[trigger] c[j]) == c[j + 1],
        mget(mem, c[c.len() - 1]) == c[0],
    ensures
        rot_seq(c, s0).len() == c.len(),
        rot_seq(c, s0)[0] == c[s0 as int],
        forall|p: int, q: int|
            0 <= p < q < c.len() ==> rot_seq(c, s0)[p] != rot_seq(c, s0)[q],
        forall|j: int|
            0 <= j < c.len() - 1 ==> mget(mem, #[trigger] rot_seq(c, s0)[j]) == rot_seq(c, s0)[j
                + 1],
        mget(mem, rot_seq(c, s0)[c.len() - 1]) == rot_seq(c, s0)[0],
{
    let l = c.len() as int;
    let rot = rot_seq(c, s0);
    assert(rot[0] == c[s0 as int]) by {
        vstd::arithmetic::div_mod::lemma_small_mod(s0, c.len());
    }
    assert forall|p: int, q: int| 0 <= p < q < c.len() implies rot[p] != rot[q] by {
        lemma_window_mod_distinct(c.len(), s0, p as nat, q as nat);
    }
    assert forall|j: int| 0 <= j < c.len() - 1 implies mget(mem, #[trigger] rot[j]) == rot[j
        + 1] by {
        let cj = ((s0 + j) as int) % l;
        assert(0 <= cj < l) by {
            vstd::arithmetic::div_mod::lemma_mod_bound((s0 + j) as int, l);
        }
        assert(rot[j] == c[cj]);
        assert(rot[j + 1] == c[((s0 + (j + 1)) as int % l) as int]);
        if cj < l - 1 {
            assert(mget(mem, c[cj]) == c[cj + 1]);
            assert((s0 + (j + 1)) as int % l == cj + 1) by {
                lemma_mod_adds((s0 + j) as int, 1, l);
                lemma_mod_adds(cj, 1, l);
                vstd::arithmetic::div_mod::lemma_mod_twice((s0 + j) as int, l);
                vstd::arithmetic::div_mod::lemma_small_mod((cj + 1) as nat, c.len());
            }
        } else {
            assert(cj == l - 1);
            assert(mget(mem, c[cj]) == c[0]);
            assert((s0 + (j + 1)) as int % l == 0) by {
                lemma_mod_adds((s0 + j) as int, 1, l);
                lemma_mod_adds(cj, 1, l);
                vstd::arithmetic::div_mod::lemma_mod_twice((s0 + j) as int, l);
                vstd::arithmetic::div_mod::lemma_mod_self_0(l);
            }
        }
    }
    assert(mget(mem, rot[l - 1]) == rot[0]) by {
        let cj = ((s0 + (l - 1)) as int) % l;
        assert(0 <= cj < l) by {
            vstd::arithmetic::div_mod::lemma_mod_bound((s0 + (l - 1)) as int, l);
        }
        assert(rot[l - 1] == c[cj]);
        if cj < l - 1 {
            assert(mget(mem, c[cj]) == c[cj + 1]);
            assert(cj + 1 == s0 as int) by {
                lemma_mod_adds((s0 + (l - 1)) as int, 1, l);
                lemma_mod_adds(cj, 1, l);
                vstd::arithmetic::div_mod::lemma_mod_twice((s0 + (l - 1)) as int, l);
                vstd::arithmetic::div_mod::lemma_mod_add_multiples_vanish(s0 as int, l);
                vstd::arithmetic::div_mod::lemma_small_mod(s0, c.len());
                vstd::arithmetic::div_mod::lemma_small_mod((cj + 1) as nat, c.len());
            }
        } else {
            assert(cj == l - 1);
            assert(mget(mem, c[cj]) == c[0]);
            assert(s0 as int == 0) by {
                lemma_mod_adds((s0 + (l - 1)) as int, 1, l);
                lemma_mod_adds(cj, 1, l);
                vstd::arithmetic::div_mod::lemma_mod_twice((s0 + (l - 1)) as int, l);
                vstd::arithmetic::div_mod::lemma_mod_add_multiples_vanish(s0 as int, l);
                vstd::arithmetic::div_mod::lemma_small_mod(s0, c.len());
                vstd::arithmetic::div_mod::lemma_mod_self_0(l);
            }
        }
    }
}

/// The circular reader: on a pure cycle of length `L`, starting at the
/// cycle element `s0` with depth `d`, the reader returns the element
/// `(s0 + d) mod L` of the cycle -- as if the chain simply kept walking
/// around the cycle.
#[verifier::rlimit(100)]
#[verifier::spinoff_prover]
pub proof fn lemma_reader_cycle(
    mem: Map<AbsValue, AbsValue>,
    c: Seq<AbsValue>,
    s0: nat,
    d: nat,
)
    requires
        c.len() >= 1,
        s0 < c.len(),
        forall|p: int, q: int| 0 <= p < q < c.len() ==> c[p] != c[q],
        forall|j: int|
            0 <= j < c.len() ==> mget(mem, #[trigger] c[j]) == c[(j + 1) % (c.len() as int)],
    ensures
        spec_reader(mem, c[s0 as int], d) == c[(((s0 + d) as int) % (c.len() as int)) as int],
{
    let l = c.len() as int;
    let rot = rot_seq(c, s0);
    lemma_cycle_mod_unroll(mem, c);
    lemma_rot_props(mem, c, s0);
    lemma_reader_cycle_zero(mem, rot, d);
    assert(0 <= (d as int) % l < l) by {
        vstd::arithmetic::div_mod::lemma_mod_bound(d as int, l);
    }
    assert(rot[(d as int) % l] == c[((s0 + ((d as int) % l)) as int % l) as int]);
    assert((s0 + ((d as int) % l)) as int % l == ((s0 + d) as int) % l) by {
        lemma_mod_adds(s0 as int, (d as int) % l, l);
        lemma_mod_adds(s0 as int, d as int, l);
        vstd::arithmetic::div_mod::lemma_mod_twice(d as int, l);
    }
}

/// The circular reader on a pure cycle, starting at its first element.
proof fn lemma_reader_cycle_zero(mem: Map<AbsValue, AbsValue>, c: Seq<AbsValue>, d: nat)
    requires
        c.len() >= 1,
        forall|p: int, q: int| 0 <= p < q < c.len() ==> c[p] != c[q],
        forall|j: int| 0 <= j < c.len() - 1 ==> mget(mem, #[trigger] c[j]) == c[j + 1],
        mget(mem, c[c.len() - 1]) == c[0],
    ensures
        spec_reader(mem, c[0], d) == c[(d as int) % (c.len() as int)],
{
    assert(seq![c[0]] =~= c.take(1));
    lemma_reader_cycle_zero_rec(mem, c, d, 0);
}

proof fn lemma_reader_cycle_zero_rec(mem: Map<AbsValue, AbsValue>, c: Seq<AbsValue>, d: nat, i: nat)
    requires
        c.len() >= 1,
        i <= d,
        i < c.len(),
        forall|p: int, q: int| 0 <= p < q < c.len() ==> c[p] != c[q],
        forall|j: int| 0 <= j < c.len() - 1 ==> mget(mem, #[trigger] c[j]) == c[j + 1],
        mget(mem, c[c.len() - 1]) == c[0],
    ensures
        spec_reader_rec(mem, c.take(i as int + 1), i, d) == c[(d as int) % (c.len() as int)],
    decreases d - i,
{
    let l = c.len() as int;
    let chain = c.take(i as int + 1);
    assert(chain.last() == c[i as int]);
    if i == d {
        vstd::arithmetic::div_mod::lemma_small_mod(d, c.len());
    } else {
        let cur = mget(mem, c[i as int]);
        if i as int + 1 < l {
            assert(cur == c[i as int + 1]);
            assert forall|p: int| 0 <= p < chain.len() implies chain[p] != cur by {
                assert(chain[p] == c[p]);
            }
            crate::run::lemma_first_occ_none(chain, cur);
            assert(chain.push(cur) =~= c.take(i as int + 2));
            lemma_reader_cycle_zero_rec(mem, c, d, i + 1);
        } else {
            // the chain holds the whole cycle; the next value closes it
            assert(cur == c[0]);
            assert(chain[0] == cur);
            assert forall|p: int| 0 < p < chain.len() implies chain[p] != cur by {
                assert(chain[p] == c[p]);
            }
            crate::run::lemma_first_occ_is(chain, cur, 0);
            let base = (d + i + 1) as int;
            assert(chain.len() == l);
            assert(spec_reader_rec(mem, chain, i, d) == chain[base % l]);
            assert(base == d + l);
            assert(base % l == (d as int) % l) by {
                vstd::arithmetic::div_mod::lemma_mod_add_multiples_vanish(d as int, l);
            }
            assert(chain[(d as int) % l] == c[(d as int) % l]) by {
                assert(0 <= (d as int) % l < l);
            }
        }
    }
}

/// Within one window of the cycle's length, the walked indices are
/// pairwise distinct.
proof fn lemma_window_mod_distinct(l: nat, s0: nat, p: nat, q: nat)
    requires
        l >= 1,
        p < q < l,
    ensures
        ((s0 + p) as int) % (l as int) != ((s0 + q) as int) % (l as int),
{
    let li = l as int;
    if ((s0 + p) as int) % li == ((s0 + q) as int) % li {
        assert(((s0 as int) % li + p) % li == ((s0 as int) % li + q) % li) by {
            lemma_mod_adds(s0 as int, p as int, li);
            lemma_mod_adds(s0 as int, q as int, li);
            vstd::arithmetic::div_mod::lemma_mod_twice(s0 as int, li);
            lemma_mod_adds((s0 as int) % li, p as int, li);
            lemma_mod_adds((s0 as int) % li, q as int, li);
        }
        let a: int = (s0 as int) % li + p;
        let b: int = (s0 as int) % li + q;
        assert(0 <= a < 2 * li);
        assert(0 <= b < 2 * li);
        assert(a % li == if a < li { a } else { a - li }) by {
            if a < li {
                vstd::arithmetic::div_mod::lemma_small_mod(a as nat, l);
            } else {
                vstd::arithmetic::div_mod::lemma_mod_sub_multiples_vanish(a, li);
                vstd::arithmetic::div_mod::lemma_small_mod((a - li) as nat, l);
            }
        }
        assert(b % li == if b < li { b } else { b - li }) by {
            if b < li {
                vstd::arithmetic::div_mod::lemma_small_mod(b as nat, l);
            } else {
                vstd::arithmetic::div_mod::lemma_mod_sub_multiples_vanish(b, li);
                vstd::arithmetic::div_mod::lemma_small_mod((b - li) as nat, l);
            }
        }
        assert(false);
    }
}

/// A failed conditional with skip quantity `q` skips exactly `q`
/// statements: the next statement executed is `pc + q + 1`.
pub proof fn lemma_conditional_skip(prog: Seq<AStmt>, s: MState, q: nat, tstr: Seq<char>)
    requires
        s.pc < prog.len(),
        prog[s.pc as int] == AStmt::Truthy(q) || prog[s.pc as int] == AStmt::Falsy(q),
    ensures
        prog[s.pc as int] == AStmt::Truthy(q) && !truthy(mget(s.mem, s.cursor)) ==> step_spec(
            prog,
            s,
            tstr,
        ).pc == s.pc + 1 + q,
        prog[s.pc as int] == AStmt::Falsy(q) && truthy(mget(s.mem, s.cursor)) ==> step_spec(
            prog,
            s,
            tstr,
        ).pc == s.pc + 1 + q,
        prog[s.pc as int] == AStmt::Truthy(q) && truthy(mget(s.mem, s.cursor)) ==> step_spec(
            prog,
            s,
            tstr,
        ).pc == s.pc + 1,
{
}

/// A define statement files the current statement index under the label.
pub proof fn lemma_define_installs(prog: Seq<AStmt>, s: MState, e: AExpr, tstr: Seq<char>)
    requires
        s.pc < prog.len(),
        prog[s.pc as int] == AStmt::Define(e),
    ensures
        step_spec(prog, s, tstr).mem == s.mem.insert(resolved(s, e), AbsValue::Jump(s.pc)),
        mget(step_spec(prog, s, tstr).mem, resolved(s, e)) == AbsValue::Jump(s.pc),
{
}

/// A jump through a label defined at statement `d` lands immediately
/// after that define: the next statement executed is `d + 1`.  A label
/// that holds anything else leaves control to fall through.
pub proof fn lemma_jump_returns(prog: Seq<AStmt>, s: MState, e: AExpr, d: nat, tstr: Seq<char>)
    requires
        s.pc < prog.len(),
        prog[s.pc as int] == AStmt::Jump(e),
    ensures
        mget(s.mem, resolved(s, e)) == AbsValue::Jump(d) ==> step_spec(prog, s, tstr).pc == d + 1,
        !(mget(s.mem, resolved(s, e)) is Jump) ==> step_spec(prog, s, tstr).pc == s.pc + 1,
{
}

/// Printing the cursor: with the pointer kind and no extra reader marks,
/// a symbol cursor prints its name -- reversed under the reverse flag,
/// with the newline unless it was toggled off.
pub proof fn lemma_log_prints_cursor(
    prog: Seq<AStmt>,
    s: MState,
    name: Seq<char>,
    reverse: bool,
    newline: bool,
    tstr: Seq<char>,
)
    requires
        s.pc < prog.len(),
        prog[s.pc as int] == (AStmt::Log {
            kind: Some(LogKind::Pointer),
            reader: 0,
            special: false,
            reverse,
            newline,
            space: 0,
            vertical: false,
            assign: false,
        }),
        s.cursor == AbsValue::Sym(name),
    ensures
        step_spec(prog, s, tstr).out == s.out + (if reverse {
            name.reverse()
        } else {
            name
        }) + (if newline {
            seq!['\n']
        } else {
            Seq::<char>::empty()
        }),
{
    let st = step_spec(prog, s, tstr);
    lemma_reader_zero(s.mem, s.cursor);
    let base = log_string(s, Some(LogKind::Pointer), 0, false, tstr);
    assert(base == name);
    let a = if reverse {
        name.reverse()
    } else {
        name
    };
    assert(spaces(0) =~= Seq::<char>::empty());
    let b = a + spaces(0) + (if newline {
        seq!['\n']
    } else {
        Seq::<char>::empty()
    });
    assert(b =~= a + (if newline {
        seq!['\n']
    } else {
        Seq::<char>::empty()
    }));
    assert(st.out =~= s.out + a + (if newline {
        seq!['\n']
    } else {
        Seq::<char>::empty()
    }));
}


/// A memory whose stored values are never time values.
pub open spec fn mem_no_time(m: Map<AbsValue, AbsValue>) -> bool {
    forall|k: AbsValue| m.dom().contains(k) ==> !(#[trigger] m[k] is Time)
}

pub open spec fn state_no_time(s: MState) -> bool {
    &&& !(s.cursor is Time)
    &&& mem_no_time(s.mem)
}

pub open spec fn expr_no_time(e: AExpr) -> bool {
    !(e.value is Time)
}

/// A statement that can neither introduce a time value nor write a
/// clock-dependent text back into memory.
pub open spec fn stmt_no_time(a: AStmt) -> bool {
    match a {
        AStmt::Load(e) => expr_no_time(e),
        AStmt::Define(e) => expr_no_time(e),
        AStmt::Jump(e) => expr_no_time(e),
        AStmt::Assign(e) => expr_no_time(e),
        AStmt::Overwrite(e) => expr_no_time(e),
        AStmt::Swap(e) => expr_no_time(e),
        AStmt::Index(e) => expr_no_time(e),
        AStmt::And(e) => expr_no_time(e),
        AStmt::Or(e) => expr_no_time(e),
        AStmt::Xor(e) => expr_no_time(e),
        AStmt::Plus(e) => expr_no_time(e),
        AStmt::Minus(e) => expr_no_time(e),
        AStmt::Times(e) => expr_no_time(e),
        AStmt::Divide(e) => expr_no_time(e),
        AStmt::Modulo(e) => expr_no_time(e),
        AStmt::Exponential(e) => expr_no_time(e),
        AStmt::Unequal(e) => expr_no_time(e),
        AStmt::Equal(e) => expr_no_time(e),
        AStmt::LessThan(e) => expr_no_time(e),
        AStmt::LessThanOrEqual(e) => expr_no_time(e),
        AStmt::GreaterThan(e) => expr_no_time(e),
        AStmt::GreaterThanOrEqual(e) => expr_no_time(e),
        AStmt::Log { assign, .. } => !assign,
        _ => true,
    }
}

pub open spec fn prog_no_time(p: Seq<AStmt>) -> bool {
    forall|i: int| 0 <= i < p.len() ==> stmt_no_time(#[trigger] p[i])
}

/// No input line reads back as a time value.
pub open spec fn inputs_no_time(ins: Seq<Seq<char>>) -> bool {
    forall|i: int| 0 <= i < ins.len() ==> !(classify(#[trigger] ins[i]) is Time)
}

proof fn lemma_reader_rec_no_time(
    mem: Map<AbsValue, AbsValue>,
    chain: Seq<AbsValue>,
    i: nat,
    reader: nat,
)
    requires
        mem_no_time(mem),
        forall|j: int| 0 <= j < chain.len() ==> !(#[trigger] chain[j] is Time),
        chain.len() > 0,
    ensures
        !(spec_reader_rec(mem, chain, i, reader) is Time),
    decreases reader - i,
{
    if i >= reader {
    } else {
        let cur = mget(mem, chain.last());
        assert(!(cur is Time));
        let idx = first_occ(chain, cur);
        if idx >= 0 {
            lemma_first_occ_bounds(chain, cur);
        } else {
            assert forall|j: int| 0 <= j < chain.push(cur).len() implies !(#[trigger] chain.push(
                cur,
            )[j] is Time) by {
                if j < chain.len() {
                    assert(chain.push(cur)[j] == chain[j]);
                }
            }
            lemma_reader_rec_no_time(mem, chain.push(cur), i + 1, reader);
        }
    }
}

proof fn lemma_first_occ_bounds(chain: Seq<AbsValue>, v: AbsValue)
    ensures
        first_occ(chain, v) >= 0 ==> 0 <= first_occ(chain, v) < chain.len(),
    decreases chain.len(),
{
    if chain.len() > 0 && chain[0] != v {
        lemma_first_occ_bounds(chain.drop_first(), v);
    }
}

/// The reader cannot invent a time value: its result comes from the
/// start value or from memory.
pub proof fn lemma_reader_no_time(mem: Map<AbsValue, AbsValue>, v: AbsValue, reader: nat)
    requires
        mem_no_time(mem),
        !(v is Time),
    ensures
        !(spec_reader(mem, v, reader) is Time),
{
    lemma_reader_rec_no_time(mem, seq![v], 0, reader);
}

/// Binary operators never produce a time value.
proof fn lemma_binop_no_time(op: crate::semantics::OpKind, l: AbsValue, r: AbsValue)
    ensures
        !(crate::semantics::apply_binop(op, l, r) is Time),
{
}

/// A time-free step reads nothing from the clock: any two oracle texts
/// give the same successor, and the successor is time-free again.
#[verifier::rlimit(100)]
#[verifier::spinoff_prover]
proof fn lemma_step_oblivious(prog: Seq<AStmt>, s: MState, t1: Seq<char>, t2: Seq<char>)
    requires
        s.pc < prog.len(),
        prog_no_time(prog),
        state_no_time(s),
        inputs_no_time(s.inputs),
    ensures
        step_spec(prog, s, t1) == step_spec(prog, s, t2),
        state_no_time(step_spec(prog, s, t1)),
        inputs_no_time(step_spec(prog, s, t1).inputs),
{
    assert(stmt_no_time(prog[s.pc as int]));
    match prog[s.pc as int] {
        AStmt::Load(e) => {
            lemma_reader_no_time(s.mem, e.value, e.reader);
        },
        AStmt::Define(e) => {},
        AStmt::Jump(e) => {},
        AStmt::Assign(e) => {
            lemma_reader_no_time(s.mem, e.value, e.reader);
        },
        AStmt::Overwrite(e) => {},
        AStmt::Swap(e) => {},
        AStmt::Index(e) => {
            lemma_binop_no_time(crate::semantics::OpKind::Index, mget(s.mem, s.cursor), crate::semantics::lr_right(s, e));
        },
        AStmt::And(e) => {},
        AStmt::Or(e) => {},
        AStmt::Xor(e) => {},
        AStmt::Plus(e) => {},
        AStmt::Minus(e) => {},
        AStmt::Times(e) => {},
        AStmt::Divide(e) => {},
        AStmt::Modulo(e) => {},
        AStmt::Exponential(e) => {},
        AStmt::Unequal(e) => {},
        AStmt::Equal(e) => {},
        AStmt::LessThan(e) => {},
        AStmt::LessThanOrEqual(e) => {},
        AStmt::GreaterThan(e) => {},
        AStmt::GreaterThanOrEqual(e) => {},
        AStmt::Truthy(_) => {},
        AStmt::Falsy(_) => {},
        AStmt::Exists(_) => {},
        AStmt::Empty(_) => {},
        AStmt::Log { kind, reader, special, reverse, newline, space, vertical, assign } => {
            match kind {
                Some(LogKind::Pointer) => {
                    lemma_reader_no_time(s.mem, s.cursor, reader);
                    assert(log_string(s, kind, reader, special, t1) == log_string(
                        s,
                        kind,
                        reader,
                        special,
                        t2,
                    ));
                },
                Some(LogKind::Value) => {
                    lemma_reader_no_time(s.mem, s.cursor, 1 + reader);
                    assert(log_string(s, kind, reader, special, t1) == log_string(
                        s,
                        kind,
                        reader,
                        special,
                        t2,
                    ));
                },
                _ => {},
            }
        },
        AStmt::Input => {
            if s.inputs.len() > 0 {
                assert(!(classify(s.inputs[0]) is Time));
                assert forall|i: int|
                    0 <= i < s.inputs.drop_first().len() implies !(classify(
                    #[trigger] s.inputs.drop_first()[i],
                ) is Time) by {
                    assert(s.inputs.drop_first()[i] == s.inputs[i + 1]);
                }
            } else {
                assert(trim(Seq::<char>::empty()).len() == 0);
            }
        },
    }
    let s1 = step_spec(prog, s, t1);
    assert forall|k: AbsValue| s1.mem.dom().contains(k) implies !(#[trigger] s1.mem[k] is Time) by {
        match prog[s.pc as int] {
            AStmt::Load(_) => {},
            _ => {},
        }
    }
}

/// Two runs of a time-free program on the same inputs that both halt
/// reach the same final state, whatever the clock said.
pub proof fn lemma_run_deterministic(
    prog: Seq<AStmt>,
    s: MState,
    n1: nat,
    ts1: Seq<Seq<char>>,
    n2: nat,
    ts2: Seq<Seq<char>>,
)
    requires
        prog_no_time(prog),
        state_no_time(s),
        inputs_no_time(s.inputs),
        run_spec(prog, s, n1, ts1).pc >= prog.len(),
        run_spec(prog, s, n2, ts2).pc >= prog.len(),
    ensures
        run_spec(prog, s, n1, ts1) == run_spec(prog, s, n2, ts2),
    decreases n1 + n2,
{
    if s.pc >= prog.len() {
    } else {
        let h1 = if ts1.len() > 0 {
            ts1[0]
        } else {
            Seq::<char>::empty()
        };
        let h2 = if ts2.len() > 0 {
            ts2[0]
        } else {
            Seq::<char>::empty()
        };
        lemma_step_oblivious(prog, s, h1, h2);
        let s1 = step_spec(prog, s, h1);
        let tl1 = if ts1.len() > 0 {
            ts1.drop_first()
        } else {
            ts1
        };
        let tl2 = if ts2.len() > 0 {
            ts2.drop_first()
        } else {
            ts2
        };
        lemma_run_deterministic(prog, s1, (n1 - 1) as nat, tl1, (n2 - 1) as nat, tl2);
    }
}

/// Determinism of a whole run from the initial state: the output of two
/// halting runs of the same time-free program on the same inputs is
/// byte-identical, and so is the final memory.
pub proof fn lemma_determinism(
    prog: Seq<AStmt>,
    ins: Seq<Seq<char>>,
    n1: nat,
    ts1: Seq<Seq<char>>,
    n2: nat,
    ts2: Seq<Seq<char>>,
)
    requires
        prog_no_time(prog),
        inputs_no_time(ins),
        run_spec(prog, init_state(ins), n1, ts1).pc >= prog.len(),
        run_spec(prog, init_state(ins), n2, ts2).pc >= prog.len(),
    ensures
        run_spec(prog, init_state(ins), n1, ts1).out == run_spec(prog, init_state(ins), n2, ts2).out,
        run_spec(prog, init_state(ins), n1, ts1).mem == run_spec(prog, init_state(ins), n2, ts2).mem,
{
    lemma_run_deterministic(prog, init_state(ins), n1, ts1, n2, ts2);
}

} // verus!

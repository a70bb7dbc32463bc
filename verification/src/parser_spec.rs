//! The parser's specification: what statement sequence a token sequence
//! denotes, or which error it raises.
//!
//! One token of lookahead, one statement per head token.  These spec
//! functions are the contract the executable parser is proved against.

use vstd::prelude::*;

use crate::ast::{AbsValue, AExpr, AStmt, LogKind};
use crate::bignum::dec_val;
use crate::floats::{float_of_lit, float_neg_of};
use crate::lexer::LexTok;
use crate::parse_error::AErr;
use crate::token::Token;

verus! {

/// The span blamed by an error raised at `pos`: the span of the last
/// consumed token, or the zero span at the very start.
pub open spec fn sp_area(t: Seq<LexTok>, pos: nat) -> (nat, nat) {
    if 0 < pos <= t.len() {
        (t[pos - 1].start, t[pos - 1].end)
    } else {
        (0, 0)
    }
}

/// Length of the run of consecutive `tok` tokens starting at `pos`.
pub open spec fn tok_run(t: Seq<LexTok>, pos: nat, tok: Token) -> nat
    decreases t.len() - pos,
{
    if pos < t.len() && t[pos as int].token == tok {
        1 + tok_run(t, pos + 1, tok)
    } else {
        0
    }
}

pub proof fn lemma_tok_run_bound(t: Seq<LexTok>, pos: nat, tok: Token)
    ensures
        pos <= t.len() ==> pos + tok_run(t, pos, tok) <= t.len(),
    decreases t.len() - pos,
{
    if pos < t.len() && t[pos as int].token == tok {
        lemma_tok_run_bound(t, pos + 1, tok);
    }
}

/// A sign run followed by a numeric literal: the parity of the minus
/// signs gives the final sign.
pub open spec fn sp_number(t: Seq<LexTok>, pos: nat, negative: bool) -> Result<
    (AbsValue, nat),
    AErr,
>
    decreases t.len() - pos,
{
    if pos >= t.len() {
        Err(AErr::Eof(sp_area(t, pos)))
    } else {
        let lt = t[pos as int];
        match lt.token {
            Token::Plus => sp_number(t, pos + 1, negative),
            Token::Minus => sp_number(t, pos + 1, !negative),
            Token::IntegerLiteral => {
                let v = dec_val(lt.text);
                Ok((AbsValue::Int(if negative { -v } else { v }), pos + 1))
            },
            Token::FloatLiteral => {
                let f = float_of_lit(lt.text);
                Ok((AbsValue::Flt(if negative { float_neg_of(f) } else { f }), pos + 1))
            },
            _ => Err(AErr::Syntax("integer or float"@, lt.token, (lt.start, lt.end))),
        }
    }
}

/// Unescaping of a text literal's contents: `\r \n \t \0 \\` are the
/// accepted escapes; any other escape, or a trailing backslash, is an
/// error.
pub open spec fn sp_unesc(
    inner: Seq<char>,
    i: nat,
    esc: bool,
    acc: Seq<char>,
    tokarea: (nat, nat),
) -> Result<Seq<char>, AErr>
    decreases inner.len() - i,
{
    if i >= inner.len() {
        if esc {
            Err(AErr::Custom("not sure if this is reachable"@, tokarea))
        } else {
            Ok(acc)
        }
    } else {
        let c = inner[i as int];
        if esc {
            if c == 'r' {
                sp_unesc(inner, i + 1, false, acc.push('\r'), tokarea)
            } else if c == 'n' {
                sp_unesc(inner, i + 1, false, acc.push('\n'), tokarea)
            } else if c == 't' {
                sp_unesc(inner, i + 1, false, acc.push('\t'), tokarea)
            } else if c == '0' {
                sp_unesc(inner, i + 1, false, acc.push('\u{0000}'), tokarea)
            } else if c == '\\' {
                sp_unesc(inner, i + 1, false, acc.push('\\'), tokarea)
            } else {
                Err(AErr::Custom("invalid escape character"@, (i, i + 1)))
            }
        } else if c == '\\' {
            sp_unesc(inner, i + 1, true, acc, tokarea)
        } else {
            sp_unesc(inner, i + 1, false, acc.push(c), tokarea)
        }
    }
}

/// One value: a symbol, a boolean, a signed number, a text literal, the
/// time-now literal, or null.
pub open spec fn sp_value(t: Seq<LexTok>, pos: nat) -> Result<(AbsValue, nat), AErr> {
    if pos < t.len() {
        let lt = t[pos as int];
        match lt.token {
            Token::Symbol => Ok((AbsValue::Sym(lt.text), pos + 1)),
            Token::True => Ok((AbsValue::Bool(true), pos + 1)),
            Token::False => Ok((AbsValue::Bool(false), pos + 1)),
            Token::Minus => sp_number(t, pos, false),
            Token::Plus => sp_number(t, pos, false),
            Token::IntegerLiteral => sp_number(t, pos, false),
            Token::FloatLiteral => sp_number(t, pos, false),
            Token::StringLiteral => {
                let inner = lt.text.subrange(1, lt.text.len() - 1);
                match sp_unesc(inner, 0, false, Seq::empty(), (lt.start, lt.end)) {
                    Ok(txt) => Ok((AbsValue::Txt(txt), pos + 1)),
                    Err(e) => Err(e),
                }
            },
            Token::Mu => Ok((AbsValue::Time, pos + 1)),
            Token::Null => Ok((AbsValue::Null, pos + 1)),
            _ => Err(AErr::Syntax("value"@, lt.token, (lt.start, lt.end))),
        }
    } else {
        Err(AErr::Eof(sp_area(t, pos)))
    }
}

/// A run of reader marks, then one value.
pub open spec fn sp_expression(t: Seq<LexTok>, pos: nat) -> Result<(AExpr, nat), AErr> {
    let rd = tok_run(t, pos, Token::Reader);
    match sp_value(t, pos + rd) {
        Ok((v, p2)) => Ok((AExpr { reader: rd, value: v }, p2)),
        Err(e) => Err(e),
    }
}

/// The options of a print group, collected left to right.
pub struct LogOpts {
    pub kind: Option<LogKind>,
    pub reader: nat,
    pub special: bool,
    pub reverse: bool,
    pub newline: bool,
    pub space: nat,
    pub vertical: bool,
    pub assign: bool,
}

pub open spec fn log_opts_start() -> LogOpts {
    LogOpts {
        kind: None,
        reader: 0,
        special: false,
        reverse: false,
        newline: true,
        space: 0,
        vertical: false,
        assign: false,
    }
}

pub open spec fn sp_print_opts(t: Seq<LexTok>, pos: nat, o: LogOpts) -> Result<
    (LogOpts, nat),
    AErr,
>
    decreases t.len() - pos,
{
    if pos >= t.len() {
        Err(AErr::Eof(sp_area(t, pos)))
    } else {
        let lt = t[pos as int];
        match lt.token {
            Token::Percent => sp_print_opts(
                t,
                pos + 1,
                LogOpts { kind: Some(LogKind::Value), ..o },
            ),
            Token::At => sp_print_opts(t, pos + 1, LogOpts { kind: Some(LogKind::Pointer), ..o }),
            Token::Reader => sp_print_opts(t, pos + 1, LogOpts { reader: o.reader + 1, ..o }),
            Token::Truthy => sp_print_opts(t, pos + 1, LogOpts { special: !o.special, ..o }),
            Token::Falsy => sp_print_opts(t, pos + 1, LogOpts { special: !o.special, ..o }),
            Token::Tilde => sp_print_opts(t, pos + 1, LogOpts { reverse: !o.reverse, ..o }),
            Token::Backslash => sp_print_opts(t, pos + 1, LogOpts { newline: !o.newline, ..o }),
            Token::Empty => sp_print_opts(t, pos + 1, LogOpts { space: o.space + 1, ..o }),
            Token::Circumflex => sp_print_opts(t, pos + 1, LogOpts { vertical: !o.vertical, ..o }),
            Token::LessThan => sp_print_opts(t, pos + 1, LogOpts { assign: !o.assign, ..o }),
            Token::CurlyBracketClose => Ok((o, pos + 1)),
            _ => Err(AErr::Syntax("print option"@, lt.token, (lt.start, lt.end))),
        }
    }
}

/// The marker of a jump group: define-here, jump-to, or nothing.
pub open spec fn sp_jump_opts(t: Seq<LexTok>, pos: nat, kind: Option<bool>) -> Result<
    (Option<bool>, nat),
    AErr,
>
    decreases t.len() - pos,
{
    if pos >= t.len() {
        Err(AErr::Eof(sp_area(t, pos)))
    } else {
        let lt = t[pos as int];
        match lt.token {
            Token::LessThan => sp_jump_opts(t, pos + 1, Some(true)),
            Token::GreaterThan => sp_jump_opts(t, pos + 1, Some(false)),
            Token::SquareBracketClose => Ok((kind, pos + 1)),
            _ => Err(AErr::Syntax("jump option"@, lt.token, (lt.start, lt.end))),
        }
    }
}

/// One statement, from the head token at `pos`.
pub open spec fn sp_statement(t: Seq<LexTok>, pos: nat) -> Result<(AStmt, nat), AErr> {
    if pos >= t.len() {
        Err(AErr::Eof(sp_area(t, pos)))
    } else {
        let lt = t[pos as int];
        let p1 = pos + 1;
        match lt.token {
            Token::Load => sp_expr_stmt(t, p1, lt.token),
            Token::Assign => sp_expr_stmt(t, p1, lt.token),
            Token::Overwrite => sp_expr_stmt(t, p1, lt.token),
            Token::Swap => sp_expr_stmt(t, p1, lt.token),
            Token::Tilde => sp_expr_stmt(t, p1, lt.token),
            Token::And => sp_expr_stmt(t, p1, lt.token),
            Token::Or => sp_expr_stmt(t, p1, lt.token),
            Token::Xor => sp_expr_stmt(t, p1, lt.token),
            Token::Plus => sp_expr_stmt(t, p1, lt.token),
            Token::Minus => sp_expr_stmt(t, p1, lt.token),
            Token::Asterisk => sp_expr_stmt(t, p1, lt.token),
            Token::Backslash => sp_expr_stmt(t, p1, lt.token),
            Token::Percent => sp_expr_stmt(t, p1, lt.token),
            Token::Circumflex => sp_expr_stmt(t, p1, lt.token),
            Token::Unequal => sp_expr_stmt(t, p1, lt.token),
            Token::Equal => sp_expr_stmt(t, p1, lt.token),
            Token::LessThan => sp_expr_stmt(t, p1, lt.token),
            Token::LessThanOrEqual => sp_expr_stmt(t, p1, lt.token),
            Token::GreaterThan => sp_expr_stmt(t, p1, lt.token),
            Token::GreaterThanOrEqual => sp_expr_stmt(t, p1, lt.token),
            Token::Truthy => {
                let r = tok_run(t, p1, Token::Truthy);
                Ok((AStmt::Truthy(1 + r), p1 + r))
            },
            Token::Falsy => {
                let r = tok_run(t, p1, Token::Falsy);
                Ok((AStmt::Falsy(1 + r), p1 + r))
            },
            Token::Exists => {
                let r = tok_run(t, p1, Token::Exists);
                Ok((AStmt::Exists(1 + r), p1 + r))
            },
            Token::Empty => {
                let r = tok_run(t, p1, Token::Empty);
                Ok((AStmt::Empty(1 + r), p1 + r))
            },
            Token::SquareBracketOpen => match sp_jump_opts(t, p1, None) {
                Ok((kind, p2)) => match sp_expression(t, p2) {
                    Ok((e, p3)) => match kind {
                        Some(true) => Ok((AStmt::Define(e), p3)),
                        Some(false) => Ok((AStmt::Jump(e), p3)),
                        None => Err(
                            AErr::Syntax(
                                "`>` or `<` inside of the []"@,
                                Token::Mu,
                                sp_area(t, p3),
                            ),
                        ),
                    },
                    Err(e) => Err(e),
                },
                Err(e) => Err(e),
            },
            Token::CurlyBracketOpen => match sp_print_opts(t, p1, log_opts_start()) {
                Ok((o, p2)) => Ok(
                    (
                        AStmt::Log {
                            kind: o.kind,
                            reader: o.reader,
                            special: o.special,
                            reverse: o.reverse,
                            newline: o.newline,
                            space: o.space,
                            vertical: o.vertical,
                            assign: o.assign,
                        },
                        p2,
                    ),
                ),
                Err(e) => Err(e),
            },
            _ => Err(AErr::Syntax("operator"@, lt.token, (lt.start, lt.end))),
        }
    }
}

/// An operator head followed by its operand expression.
pub open spec fn sp_expr_stmt(t: Seq<LexTok>, pos: nat, head: Token) -> Result<
    (AStmt, nat),
    AErr,
> {
    match sp_expression(t, pos) {
        Ok((e, p2)) => Ok((sp_expr_ctor(head, e), p2)),
        Err(e) => Err(e),
    }
}

/// Which statement an operator head token builds.
pub open spec fn sp_expr_ctor(head: Token, e: AExpr) -> AStmt {
    match head {
        Token::Load => AStmt::Load(e),
        Token::Assign => AStmt::Assign(e),
        Token::Overwrite => AStmt::Overwrite(e),
        Token::Swap => AStmt::Swap(e),
        Token::Tilde => AStmt::Index(e),
        Token::And => AStmt::And(e),
        Token::Or => AStmt::Or(e),
        Token::Xor => AStmt::Xor(e),
        Token::Plus => AStmt::Plus(e),
        Token::Minus => AStmt::Minus(e),
        Token::Asterisk => AStmt::Times(e),
        Token::Backslash => AStmt::Divide(e),
        Token::Percent => AStmt::Modulo(e),
        Token::Circumflex => AStmt::Exponential(e),
        Token::Unequal => AStmt::Unequal(e),
        Token::Equal => AStmt::Equal(e),
        Token::LessThan => AStmt::LessThan(e),
        Token::LessThanOrEqual => AStmt::LessThanOrEqual(e),
        Token::GreaterThan => AStmt::GreaterThan(e),
        Token::GreaterThanOrEqual => AStmt::GreaterThanOrEqual(e),
        _ => AStmt::Input,
    }
}

pub proof fn lemma_sp_number_pos(t: Seq<LexTok>, pos: nat, negative: bool)
    requires
        pos <= t.len(),
    ensures
        match sp_number(t, pos, negative) {
            Ok((_, p2)) => pos < p2 <= t.len(),
            Err(_) => true,
        },
    decreases t.len() - pos,
{
    if pos < t.len() {
        let lt = t[pos as int];
        if lt.token is Plus || lt.token is Minus {
            lemma_sp_number_pos(t, pos + 1, negative);
            lemma_sp_number_pos(t, pos + 1, !negative);
        }
    }
}

pub proof fn lemma_sp_value_pos(t: Seq<LexTok>, pos: nat)
    requires
        pos <= t.len(),
    ensures
        match sp_value(t, pos) {
            Ok((_, p2)) => pos < p2 <= t.len(),
            Err(_) => true,
        },
{
    lemma_sp_number_pos(t, pos, false);
}

pub proof fn lemma_sp_expression_pos(t: Seq<LexTok>, pos: nat)
    requires
        pos <= t.len(),
    ensures
        match sp_expression(t, pos) {
            Ok((_, p2)) => pos < p2 <= t.len(),
            Err(_) => true,
        },
{
    lemma_tok_run_bound(t, pos, Token::Reader);
    lemma_sp_value_pos(t, pos + tok_run(t, pos, Token::Reader));
}

pub proof fn lemma_sp_print_opts_pos(t: Seq<LexTok>, pos: nat, o: LogOpts)
    requires
        pos <= t.len(),
    ensures
        match sp_print_opts(t, pos, o) {
            Ok((_, p2)) => pos < p2 <= t.len(),
            Err(_) => true,
        },
    decreases t.len() - pos,
{
    if pos < t.len() {
        let lt = t[pos as int];
        match lt.token {
            Token::Percent => lemma_sp_print_opts_pos(
                t,
                pos + 1,
                LogOpts { kind: Some(LogKind::Value), ..o },
            ),
            Token::At => lemma_sp_print_opts_pos(
                t,
                pos + 1,
                LogOpts { kind: Some(LogKind::Pointer), ..o },
            ),
            Token::Reader => lemma_sp_print_opts_pos(
                t,
                pos + 1,
                LogOpts { reader: o.reader + 1, ..o },
            ),
            Token::Truthy => lemma_sp_print_opts_pos(
                t,
                pos + 1,
                LogOpts { special: !o.special, ..o },
            ),
            Token::Falsy => lemma_sp_print_opts_pos(
                t,
                pos + 1,
                LogOpts { special: !o.special, ..o },
            ),
            Token::Tilde => lemma_sp_print_opts_pos(
                t,
                pos + 1,
                LogOpts { reverse: !o.reverse, ..o },
            ),
            Token::Backslash => lemma_sp_print_opts_pos(
                t,
                pos + 1,
                LogOpts { newline: !o.newline, ..o },
            ),
            Token::Empty => lemma_sp_print_opts_pos(t, pos + 1, LogOpts { space: o.space + 1, ..o }),
            Token::Circumflex => lemma_sp_print_opts_pos(
                t,
                pos + 1,
                LogOpts { vertical: !o.vertical, ..o },
            ),
            Token::LessThan => lemma_sp_print_opts_pos(
                t,
                pos + 1,
                LogOpts { assign: !o.assign, ..o },
            ),
            _ => {},
        }
    }
}

pub proof fn lemma_sp_jump_opts_pos(t: Seq<LexTok>, pos: nat, kind: Option<bool>)
    requires
        pos <= t.len(),
    ensures
        match sp_jump_opts(t, pos, kind) {
            Ok((_, p2)) => pos < p2 <= t.len(),
            Err(_) => true,
        },
    decreases t.len() - pos,
{
    if pos < t.len() {
        let lt = t[pos as int];
        match lt.token {
            Token::LessThan => lemma_sp_jump_opts_pos(t, pos + 1, Some(true)),
            Token::GreaterThan => lemma_sp_jump_opts_pos(t, pos + 1, Some(false)),
            _ => {},
        }
    }
}

pub proof fn lemma_sp_statement_pos(t: Seq<LexTok>, pos: nat)
    requires
        pos <= t.len(),
    ensures
        match sp_statement(t, pos) {
            Ok((_, p2)) => pos < p2 <= t.len(),
            Err(_) => true,
        },
{
    if pos < t.len() {
        let p1 = pos + 1;
        lemma_sp_expression_pos(t, p1);
        lemma_tok_run_bound(t, p1, Token::Truthy);
        lemma_tok_run_bound(t, p1, Token::Falsy);
        lemma_tok_run_bound(t, p1, Token::Exists);
        lemma_tok_run_bound(t, p1, Token::Empty);
        lemma_sp_jump_opts_pos(t, p1, None);
        match sp_jump_opts(t, p1, None) {
            Ok((_, p2)) => lemma_sp_expression_pos(t, p2),
            Err(_) => {},
        }
        lemma_sp_print_opts_pos(t, p1, log_opts_start());
    }
}

/// The whole program: statements until the tokens run out.
pub open spec fn sp_statements(t: Seq<LexTok>, pos: nat) -> Result<Seq<AStmt>, AErr>
    decreases t.len() - pos,
{
    if pos >= t.len() {
        Ok(Seq::empty())
    } else {
        match sp_statement(t, pos) {
            Ok((st, p2)) => if pos < p2 <= t.len() {
                match sp_statements(t, p2) {
                    Ok(rest) => Ok(seq![st] + rest),
                    Err(e) => Err(e),
                }
            } else {
                Ok(Seq::empty())
            },
            Err(e) => Err(e),
        }
    }
}

} // verus!

//! The parser: tokens to statements.
//!
//! A token cursor with one-token lookahead.  Each public method is proved
//! to return exactly what the corresponding `sp_*` specification function
//! says, both on success and on error.

use vstd::prelude::*;

use crate::ast::{
    AStmt, Expression, LogKind, Statement, Statements, Value, compress_integer, expr_abs,
    stmt_abs, stmt_wf, vabs, value_wf,
};
use crate::bignum::{big_neg, big_parse_digits};
use crate::clock::time_now;
use crate::floats::{float_neg, float_parse};
use crate::lexer::{Lexed, LexTok, lex, lexed_abs, lextok_wf, lextoks_wf, lemma_spec_lex_wf, spec_lex};
use crate::parse_error::{AErr, CodeArea, ParseResult, ParsingError, err_abs};
use crate::parser_spec::{
    LogOpts, log_opts_start, sp_area, sp_expr_ctor, sp_expr_stmt, sp_expression, sp_jump_opts,
    sp_number, sp_print_opts, sp_statement, sp_statements, sp_unesc, sp_value, tok_run,
    lemma_sp_statement_pos, lemma_sp_expression_pos, lemma_sp_value_pos, lemma_sp_number_pos,
    lemma_tok_run_bound,
};
use crate::strutil::{chars_string, str_chars};
use crate::token::Token;

verus! {

pub struct Parser {
    pub toks: Vec<Lexed>,
    pub pos: usize,
    pub last_start: usize,
    pub last_end: usize,
    pub last_text: String,
}

/// The token sequence a parser walks.
pub open spec fn p_toks(p: Parser) -> Seq<LexTok> {
    p.toks@.map_values(|l: Lexed| lexed_abs(l))
}

/// The parser's invariant: the cursor is inside the token list, the
/// remembered span and text are those of the last consumed token, and the
/// tokens came from the scanner.
pub open spec fn parser_wf(p: Parser) -> bool {
    &&& p.pos <= p.toks@.len()
    &&& lextoks_wf(p_toks(p))
    &&& (p.last_start as nat, p.last_end as nat) == sp_area(p_toks(p), p.pos as nat)
    &&& (p.pos > 0 ==> p.last_text@ == p_toks(p)[p.pos - 1].text)
}

impl Parser {
    pub fn new(string: &str) -> (r: Parser)
        ensures
            parser_wf(r),
            r.pos == 0,
            p_toks(r) == spec_lex(string@, 0),
    {
        let chars = str_chars(string);
        let toks = lex(&chars);
        proof {
            lemma_spec_lex_wf(chars@, 0);
        }
        Parser { toks, pos: 0, last_start: 0, last_end: 0, last_text: String::new() }
    }

    /// Take the next token, or report the end of the file.
    fn next(&mut self) -> (r: ParseResult<Token>)
        requires
            parser_wf(*old(self)),
        ensures
            parser_wf(*final(self)),
            final(self).toks == old(self).toks,
            match r {
                Ok(tok) => old(self).pos < old(self).toks@.len() && tok == p_toks(*old(self))[old(
                    self,
                ).pos as int].token && final(self).pos == old(self).pos + 1,
                Err(e) => old(self).pos >= old(self).toks@.len() && final(self).pos == old(
                    self,
                ).pos && err_abs(e) == AErr::Eof(sp_area(p_toks(*old(self)), old(self).pos as nat))
                    && final(self).last_start == old(self).last_start && final(self).last_end
                    == old(self).last_end && final(self).last_text == old(self).last_text,
            },
    {
        if self.pos < self.toks.len() {
            let l = &self.toks[self.pos];
            self.last_start = l.start;
            self.last_end = l.end;
            self.last_text = l.text.clone();
            self.pos += 1;
            Ok(l.token)
        } else {
            Err(
                ParsingError::UnexpectedEndOfFile {
                    area: CodeArea(self.last_start, self.last_end),
                },
            )
        }
    }

    fn peek(&self) -> (r: Option<Token>)
        ensures
            match r {
                Some(tok) => self.pos < self.toks@.len() && tok == p_toks(*self)[self.pos as int]
                    .token,
                None => self.pos >= self.toks@.len(),
            },
    {
        if self.pos < self.toks.len() {
            Some(self.toks[self.pos].token)
        } else {
            None
        }
    }

    fn next_is_token(&self) -> (r: bool)
        ensures
            r == (self.pos < self.toks@.len()),
    {
        self.pos < self.toks.len()
    }

    /// The span of the last consumed token.
    pub fn span(&self) -> (r: core::ops::Range<usize>)
        ensures
            r.start == self.last_start,
            r.end == self.last_end,
    {
        self.last_start..self.last_end
    }

    /// The text of the last consumed token.
    pub fn slice(&self) -> (r: &str)
        ensures
            r@ == self.last_text@,
    {
        self.last_text.as_str()
    }

    fn reader_is_next(&self) -> (r: bool)
        ensures
            r == (self.pos < self.toks@.len() && p_toks(*self)[self.pos as int].token
                == Token::Reader),
    {
        self.pos < self.toks.len() && matches!(self.toks[self.pos].token, Token::Reader)
    }

    /// One value: a symbol, a boolean, a signed number, a text literal,
    /// the time-now literal, or null.
    pub fn parse_value(&mut self) -> (r: ParseResult<Value>)
        requires
            parser_wf(*old(self)),
        ensures
            parser_wf(*final(self)),
            final(self).toks == old(self).toks,
            match r {
                Ok(v) => sp_value(p_toks(*old(self)), old(self).pos as nat) == Ok::<_, AErr>(
                    (vabs(v), final(self).pos as nat),
                ) && value_wf(v),
                Err(e) => sp_value(p_toks(*old(self)), old(self).pos as nat) == Err::<
                    (crate::ast::AbsValue, nat),
                    _,
                >(err_abs(e)),
            },
    {
        let ghost t = p_toks(*self);
        let ghost pos0 = self.pos as nat;
        match self.peek() {
            Some(Token::Symbol) => {
                let _ = self.next();
                Ok(Value::Symbol(self.last_text.clone()))
            },
            Some(Token::True) => {
                let _ = self.next();
                Ok(Value::Boolean(true))
            },
            Some(Token::False) => {
                let _ = self.next();
                Ok(Value::Boolean(false))
            },
            Some(Token::Minus) | Some(Token::Plus) | Some(Token::IntegerLiteral) | Some(
                Token::FloatLiteral,
            ) => {
                assert(sp_value(t, pos0) == sp_number(t, pos0, false));
                let mut negative = false;
                loop
                    invariant
                        parser_wf(*self),
                        self.toks == old(self).toks,
                        t == p_toks(*old(self)),
                        t == p_toks(*self),
                        pos0 == old(self).pos as nat,
                        pos0 <= self.pos as nat <= t.len(),
                        sp_value(t, pos0) == sp_number(t, self.pos as nat, negative),
                    decreases self.toks@.len() - self.pos,
                {
                    let ghost posb = self.pos as nat;
                    let tok = match self.next() {
                        Ok(tok) => tok,
                        Err(e) => {
                            assert(sp_number(t, posb, negative) == Err::<(crate::ast::AbsValue,
                                nat), AErr>(AErr::Eof(sp_area(t, posb))));
                            return Err(e);
                        },
                    };
                    match tok {
                        Token::Plus => {},
                        Token::Minus => {
                            negative = !negative;
                        },
                        Token::IntegerLiteral => {
                            assert(lextok_wf(t[posb as int]));
                            assert(self.last_text@ == t[posb as int].text);
                            let b = big_parse_digits(self.slice());
                            let b = if negative {
                                big_neg(b)
                            } else {
                                b
                            };
                            return Ok(compress_integer(b));
                        },
                        Token::FloatLiteral => {
                            let f = float_parse(self.slice());
                            let f = if negative {
                                float_neg(f.as_str())
                            } else {
                                f
                            };
                            return Ok(Value::Float(f));
                        },
                        _ => {
                            return Err(
                                ParsingError::SyntaxError {
                                    expected: String::from_str("integer or float"),
                                    found: tok,
                                    area: CodeArea(self.last_start, self.last_end),
                                },
                            );
                        },
                    }
                }
            },
            Some(Token::StringLiteral) => {
                let _ = self.next();
                let ghost snap = *self;
                assert(lextok_wf(t[pos0 as int]));
                let chars = str_chars(self.slice());
                assert(chars@ == t[pos0 as int].text);
                let ghost inner = chars@.subrange(1, chars@.len() - 1);
                let ghost area = (self.last_start as nat, self.last_end as nat);
                assert(area == (t[pos0 as int].start, t[pos0 as int].end));
                let mut acc: Vec<char> = Vec::new();
                let mut is_escape = false;
                let mut j: usize = 1;
                let end = chars.len() - 1;
                while j < end
                    invariant
                        parser_wf(*self),
                        self.toks == old(self).toks,
                        t == p_toks(*old(self)),
                        t == p_toks(*self),
                        pos0 == old(self).pos as nat,
                        pos0 < t.len(),
                        t[pos0 as int].token == Token::StringLiteral,
                        self.pos as nat == pos0 + 1,
                        (self.last_start as nat, self.last_end as nat) == area,
                        area == (t[pos0 as int].start, t[pos0 as int].end),
                        chars@ == t[pos0 as int].text,
                        1 <= j <= end,
                        end == chars@.len() - 1,
                        chars@.len() >= 2,
                        inner == chars@.subrange(1, chars@.len() - 1),
                        sp_unesc(inner, 0, false, Seq::empty(), area) == sp_unesc(
                            inner,
                            (j - 1) as nat,
                            is_escape,
                            acc@,
                            area,
                        ),
                    decreases end - j,
                {
                    let c = chars[j];
                    assert(inner[j - 1] == c);
                    if is_escape {
                        if c == 'r' {
                            acc.push('\r');
                            is_escape = false;
                        } else if c == 'n' {
                            acc.push('\n');
                            is_escape = false;
                        } else if c == 't' {
                            acc.push('\t');
                            is_escape = false;
                        } else if c == '0' {
                            acc.push('\u{0000}');
                            is_escape = false;
                        } else if c == '\\' {
                            acc.push('\\');
                            is_escape = false;
                        } else {
                            return Err(
                                ParsingError::CustomError {
                                    text: String::from_str("invalid escape character"),
                                    area: CodeArea(j - 1, j),
                                },
                            );
                        }
                    } else if c == '\\' {
                        is_escape = true;
                    } else {
                        acc.push(c);
                    }
                    j += 1;
                }
                if is_escape {
                    return Err(
                        ParsingError::CustomError {
                            text: String::from_str("not sure if this is reachable"),
                            area: CodeArea(self.last_start, self.last_end),
                        },
                    );
                }
                Ok(Value::Text(chars_string(&acc)))
            },
            Some(Token::Mu) => {
                let _ = self.next();
                Ok(Value::Time(Some(time_now())))
            },
            Some(Token::Null) => {
                let _ = self.next();
                Ok(Value::Null)
            },
            _ => {
                let found = match self.next() {
                    Ok(tok) => tok,
                    Err(e) => {
                        return Err(e);
                    },
                };
                Err(
                    ParsingError::SyntaxError {
                        expected: String::from_str("value"),
                        found,
                        area: CodeArea(self.last_start, self.last_end),
                    },
                )
            },
        }
    }

    /// A run of reader marks, then one value.
    pub fn parse_expression(&mut self) -> (r: ParseResult<Expression>)
        requires
            parser_wf(*old(self)),
        ensures
            parser_wf(*final(self)),
            final(self).toks == old(self).toks,
            match r {
                Ok(e) => sp_expression(p_toks(*old(self)), old(self).pos as nat) == Ok::<_, AErr>(
                    (expr_abs(e), final(self).pos as nat),
                ) && value_wf(e.value),
                Err(e) => sp_expression(p_toks(*old(self)), old(self).pos as nat) == Err::<
                    (crate::ast::AExpr, nat),
                    _,
                >(err_abs(e)),
            },
    {
        let ghost t = p_toks(*self);
        let ghost pos0 = self.pos as nat;
        let mut reader_count: usize = 0;
        while self.reader_is_next()
            invariant
                parser_wf(*self),
                self.toks == old(self).toks,
                t == p_toks(*old(self)),
                t == p_toks(*self),
                pos0 == old(self).pos as nat,
                reader_count == self.pos - pos0,
                pos0 <= self.pos as nat <= t.len(),
                tok_run(t, pos0, Token::Reader) == (self.pos - pos0) + tok_run(
                    t,
                    self.pos as nat,
                    Token::Reader,
                ),
            decreases self.toks@.len() - self.pos,
        {
            let _ = self.next();
            reader_count += 1;
        }
        assert(reader_count as nat == tok_run(t, pos0, Token::Reader));
        match self.parse_value() {
            Ok(v) => Ok(Expression { reader: reader_count, value: v }),
            Err(e) => Err(e),
        }
    }

    fn tok_is_next(&self, tok: Token) -> (r: bool)
        ensures
            r == (self.pos < self.toks@.len() && p_toks(*self)[self.pos as int].token == tok),
    {
        self.pos < self.toks.len() && self.toks[self.pos].token == tok
    }

    /// Count how many consecutive `tok` tokens follow, consuming them.
    fn count_following(&mut self, tok: Token) -> (q: usize)
        requires
            parser_wf(*old(self)),
        ensures
            parser_wf(*final(self)),
            final(self).toks == old(self).toks,
            q as nat == tok_run(p_toks(*old(self)), old(self).pos as nat, tok),
            final(self).pos == old(self).pos + q,
    {
        let ghost t = p_toks(*self);
        let ghost pos0 = self.pos as nat;
        let mut q: usize = 0;
        while self.tok_is_next(tok)
            invariant
                parser_wf(*self),
                self.toks == old(self).toks,
                t == p_toks(*old(self)),
                t == p_toks(*self),
                pos0 == old(self).pos as nat,
                q == self.pos - pos0,
                pos0 <= self.pos as nat <= t.len(),
                tok_run(t, pos0, tok) == (self.pos - pos0) + tok_run(t, self.pos as nat, tok),
            decreases self.toks@.len() - self.pos,
        {
            let _ = self.next();
            q += 1;
        }
        q
    }

    /// The markers inside a jump group: `<` selects define, `>` selects
    /// jump, `]` closes the group.
    fn parse_jump_opts(&mut self) -> (r: ParseResult<Option<bool>>)
        requires
            parser_wf(*old(self)),
        ensures
            parser_wf(*final(self)),
            final(self).toks == old(self).toks,
            match r {
                Ok(kind) => sp_jump_opts(p_toks(*old(self)), old(self).pos as nat, None)
                    == Ok::<_, AErr>((kind, final(self).pos as nat)),
                Err(e) => sp_jump_opts(p_toks(*old(self)), old(self).pos as nat, None) == Err::<
                    (Option<bool>, nat),
                    _,
                >(err_abs(e)),
            },
    {
        let ghost t = p_toks(*self);
        let ghost pos0 = self.pos as nat;
        let mut kind: Option<bool> = None;
        loop
            invariant
                parser_wf(*self),
                self.toks == old(self).toks,
                t == p_toks(*old(self)),
                t == p_toks(*self),
                pos0 == old(self).pos as nat,
                pos0 <= self.pos as nat <= t.len(),
                sp_jump_opts(t, pos0, None) == sp_jump_opts(t, self.pos as nat, kind),
            decreases self.toks@.len() - self.pos,
        {
            let tok = match self.next() {
                Ok(tok) => tok,
                Err(e) => {
                    return Err(e);
                },
            };
            match tok {
                Token::LessThan => {
                    kind = Some(true);
                },
                Token::GreaterThan => {
                    kind = Some(false);
                },
                Token::SquareBracketClose => {
                    return Ok(kind);
                },
                _ => {
                    return Err(
                        ParsingError::SyntaxError {
                            expected: String::from_str("jump option"),
                            found: tok,
                            area: CodeArea(self.last_start, self.last_end),
                        },
                    );
                },
            }
        }
    }

    /// The flags inside a print group, folded into a `Log` statement.
    fn parse_print_opts(&mut self) -> (r: ParseResult<Statement>)
        requires
            parser_wf(*old(self)),
        ensures
            parser_wf(*final(self)),
            final(self).toks == old(self).toks,
            match r {
                Ok(st) => stmt_wf(st) && match sp_print_opts(
                    p_toks(*old(self)),
                    old(self).pos as nat,
                    log_opts_start(),
                ) {
                    Ok((o, p2)) => p2 == final(self).pos as nat && stmt_abs(st) == (AStmt::Log {
                        kind: o.kind,
                        reader: o.reader,
                        special: o.special,
                        reverse: o.reverse,
                        newline: o.newline,
                        space: o.space,
                        vertical: o.vertical,
                        assign: o.assign,
                    }),
                    Err(_) => false,
                },
                Err(e) => sp_print_opts(
                    p_toks(*old(self)),
                    old(self).pos as nat,
                    log_opts_start(),
                ) == Err::<(LogOpts, nat), _>(err_abs(e)),
            },
    {
        let ghost t = p_toks(*self);
        let ghost pos0 = self.pos as nat;
        let mut kind: Option<LogKind> = None;
        let mut reader: usize = 0;
        let mut special = false;
        let mut reverse = false;
        let mut newline = true;
        let mut space: usize = 0;
        let mut vertical = false;
        let mut assign = false;
        loop
            invariant
                parser_wf(*self),
                self.toks == old(self).toks,
                t == p_toks(*old(self)),
                t == p_toks(*self),
                pos0 == old(self).pos as nat,
                pos0 <= self.pos as nat <= t.len(),
                reader as nat + pos0 <= self.pos as nat,
                space <= self.pos,
                sp_print_opts(t, pos0, log_opts_start()) == sp_print_opts(
                    t,
                    self.pos as nat,
                    LogOpts {
                        kind: kind,
                        reader: reader as nat,
                        special: special,
                        reverse: reverse,
                        newline: newline,
                        space: space as nat,
                        vertical: vertical,
                        assign: assign,
                    },
                ),
            decreases self.toks@.len() - self.pos,
        {
            let tok = match self.next() {
                Ok(tok) => tok,
                Err(e) => {
                    return Err(e);
                },
            };
            match tok {
                Token::Percent => {
                    kind = Some(LogKind::Value);
                },
                Token::At => {
                    kind = Some(LogKind::Pointer);
                },
                Token::Reader => {
                    reader += 1;
                },
                Token::Truthy => {
                    special = !special;
                },
                Token::Falsy => {
                    special = !special;
                },
                Token::Tilde => {
                    reverse = !reverse;
                },
                Token::Backslash => {
                    newline = !newline;
                },
                Token::Empty => {
                    space += 1;
                },
                Token::Circumflex => {
                    vertical = !vertical;
                },
                Token::LessThan => {
                    assign = !assign;
                },
                Token::CurlyBracketClose => {
                    assert(reader < usize::MAX);
                    return Ok(
                        Statement::Log {
                            kind,
                            reader,
                            special,
                            reverse,
                            newline,
                            space,
                            vertical,
                            assign,
                        },
                    );
                },
                _ => {
                    return Err(
                        ParsingError::SyntaxError {
                            expected: String::from_str("print option"),
                            found: tok,
                            area: CodeArea(self.last_start, self.last_end),
                        },
                    );
                },
            }
        }
    }

    /// One statement, dispatched on its head token.
    pub fn parse_statement(&mut self) -> (r: ParseResult<Statement>)
        requires
            parser_wf(*old(self)),
        ensures
            parser_wf(*final(self)),
            final(self).toks == old(self).toks,
            match r {
                Ok(st) => sp_statement(p_toks(*old(self)), old(self).pos as nat) == Ok::<_, AErr>(
                    (stmt_abs(st), final(self).pos as nat),
                ) && stmt_wf(st),
                Err(e) => sp_statement(p_toks(*old(self)), old(self).pos as nat) == Err::<
                    (AStmt, nat),
                    _,
                >(err_abs(e)),
            },
    {
        let ghost t = p_toks(*self);
        let ghost pos0 = self.pos as nat;
        let token = match self.next() {
            Ok(tok) => tok,
            Err(e) => {
                return Err(e);
            },
        };
        match token {
            Token::Load | Token::Assign | Token::Overwrite | Token::Swap | Token::Tilde
                | Token::And | Token::Or | Token::Xor | Token::Plus | Token::Minus
                | Token::Asterisk | Token::Backslash | Token::Percent | Token::Circumflex
                | Token::Unequal | Token::Equal | Token::LessThan | Token::LessThanOrEqual
                | Token::GreaterThan | Token::GreaterThanOrEqual => {
                let e = match self.parse_expression() {
                    Ok(e) => e,
                    Err(err) => {
                        return Err(err);
                    },
                };
                Ok(expr_statement(token, e))
            },
            Token::Truthy => {
                let q = self.count_following(Token::Truthy);
                Ok(Statement::Truthy(1 + q))
            },
            Token::Falsy => {
                let q = self.count_following(Token::Falsy);
                Ok(Statement::Falsy(1 + q))
            },
            Token::Exists => {
                let q = self.count_following(Token::Exists);
                Ok(Statement::Exists(1 + q))
            },
            Token::Empty => {
                let q = self.count_following(Token::Empty);
                Ok(Statement::Empty(1 + q))
            },
            Token::SquareBracketOpen => {
                let kind = match self.parse_jump_opts() {
                    Ok(kind) => kind,
                    Err(e) => {
                        return Err(e);
                    },
                };
                let e = match self.parse_expression() {
                    Ok(e) => e,
                    Err(err) => {
                        return Err(err);
                    },
                };
                match kind {
                    Some(true) => Ok(Statement::Define(e)),
                    Some(false) => Ok(Statement::Jump(e)),
                    None => Err(
                        ParsingError::SyntaxError {
                            expected: String::from_str("`>` or `<` inside of the []"),
                            found: Token::Mu,
                            area: CodeArea(self.last_start, self.last_end),
                        },
                    ),
                }
            },
            Token::CurlyBracketOpen => self.parse_print_opts(),
            _ => Err(
                ParsingError::SyntaxError {
                    expected: String::from_str("operator"),
                    found: token,
                    area: CodeArea(self.last_start, self.last_end),
                },
            ),
        }
    }

    /// The whole program: statements until the tokens run out.
    pub fn parse_statements(&mut self) -> (r: ParseResult<Statements>)
        requires
            parser_wf(*old(self)),
        ensures
            parser_wf(*final(self)),
            final(self).toks == old(self).toks,
            match r {
                Ok(v) => sp_statements(p_toks(*old(self)), old(self).pos as nat) == Ok::<_, AErr>(
                    v@.map_values(|s: Statement| stmt_abs(s)),
                ) && (forall|i: int| 0 <= i < v@.len() ==> stmt_wf(#[trigger] v@[i])),
                Err(e) => sp_statements(p_toks(*old(self)), old(self).pos as nat) == Err::<
                    Seq<AStmt>,
                    _,
                >(err_abs(e)),
            },
    {
        let ghost t = p_toks(*self);
        let ghost pos0 = self.pos as nat;
        let mut program: Statements = Vec::new();
        while self.next_is_token()
            invariant
                parser_wf(*self),
                self.toks == old(self).toks,
                t == p_toks(*old(self)),
                t == p_toks(*self),
                pos0 == old(self).pos as nat,
                pos0 <= self.pos as nat <= t.len(),
                forall|i: int| 0 <= i < program@.len() ==> stmt_wf(#[trigger] program@[i]),
                match sp_statements(t, self.pos as nat) {
                    Ok(rest) => sp_statements(t, pos0) == Ok::<_, AErr>(
                        program@.map_values(|s: Statement| stmt_abs(s)) + rest,
                    ),
                    Err(e) => sp_statements(t, pos0) == Err::<Seq<AStmt>, _>(e),
                },
            decreases self.toks@.len() - self.pos,
        {
            let ghost posb = self.pos as nat;
            let ghost prog0 = program@;
            proof {
                lemma_sp_statement_pos(t, posb);
            }
            let st = match self.parse_statement() {
                Ok(st) => st,
                Err(e) => {
                    return Err(e);
                },
            };
            program.push(st);
            proof {
                let f = |s: Statement| stmt_abs(s);
                assert(program@.map_values(f) =~= prog0.map_values(f) + seq![stmt_abs(st)]);
                match sp_statements(t, self.pos as nat) {
                    Ok(rest) => {
                        assert((prog0.map_values(f) + (seq![stmt_abs(st)] + rest)) =~= (
                        program@.map_values(f) + rest));
                    },
                    Err(_) => {},
                }
            }
        }
        proof {
            let f = |s: Statement| stmt_abs(s);
            assert(program@.map_values(f) + Seq::<AStmt>::empty() =~= program@.map_values(f));
        }
        Ok(program)
    }
}

/// Which statement an operator head token builds.
fn expr_statement(token: Token, e: Expression) -> (r: Statement)
    ensures
        stmt_abs(r) == sp_expr_ctor(token, expr_abs(e)),
        value_wf(e.value) ==> stmt_wf(r),
{
    match token {
        Token::Load => Statement::Load(e),
        Token::Assign => Statement::Assign(e),
        Token::Overwrite => Statement::Overwrite(e),
        Token::Swap => Statement::Swap(e),
        Token::Tilde => Statement::Index(e),
        Token::And => Statement::And(e),
        Token::Or => Statement::Or(e),
        Token::Xor => Statement::Xor(e),
        Token::Plus => Statement::Plus(e),
        Token::Minus => Statement::Minus(e),
        Token::Asterisk => Statement::Times(e),
        Token::Backslash => Statement::Divide(e),
        Token::Percent => Statement::Modulo(e),
        Token::Circumflex => Statement::Exponential(e),
        Token::Unequal => Statement::Unequal(e),
        Token::Equal => Statement::Equal(e),
        Token::LessThan => Statement::LessThan(e),
        Token::LessThanOrEqual => Statement::LessThanOrEqual(e),
        Token::GreaterThan => Statement::GreaterThan(e),
        Token::GreaterThanOrEqual => Statement::GreaterThanOrEqual(e),
        _ => Statement::Input,
    }
}

} // verus!

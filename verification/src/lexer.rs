//! The lexer: source text to tokens.
//!
//! Scanning is maximal-munch over a fixed alphabet: the longest lexeme
//! wins, keywords beat bare symbols of the same length, and a float
//! literal takes precedence over the integer literal that prefixes it.
//! Whitespace, `#` comments and unrecognised characters are skipped.
//! `spec_lex` is the specification the executable scanner is proved
//! against.

use vstd::prelude::*;

use crate::bignum::is_dec_digit;
use crate::strutil::chars_string;
use crate::token::Token;

verus! {

/// A scanned token: its kind, its character span in the source, and the
/// text of that span.
pub struct Lexed {
    pub token: Token,
    pub start: usize,
    pub end: usize,
    pub text: String,
}

/// The mathematical reading of a scanned token.
pub struct LexTok {
    pub token: Token,
    pub start: nat,
    pub end: nat,
    pub text: Seq<char>,
}

pub open spec fn lexed_abs(l: Lexed) -> LexTok {
    LexTok { token: l.token, start: l.start as nat, end: l.end as nat, text: l.text@ }
}

pub open spec fn is_ws(c: char) -> bool {
    c == ' ' || c == '\t' || c == '\r' || c == '\n'
}

pub open spec fn is_sym_start(c: char) -> bool {
    ('a' <= c && c <= 'z') || ('A' <= c && c <= 'Z') || c == '_'
}

pub open spec fn is_sym_cont(c: char) -> bool {
    is_sym_start(c) || is_dec_digit(c)
}

/// Length of the run of decimal digits starting at `i`.
pub open spec fn digits_run(s: Seq<char>, i: nat) -> nat
    decreases s.len() - i,
{
    if i < s.len() && is_dec_digit(s[i as int]) {
        1 + digits_run(s, i + 1)
    } else {
        0
    }
}

/// Length of the run of symbol characters starting at `i`.
pub open spec fn sym_run(s: Seq<char>, i: nat) -> nat
    decreases s.len() - i,
{
    if i < s.len() && is_sym_cont(s[i as int]) {
        1 + sym_run(s, i + 1)
    } else {
        0
    }
}

/// Length of the run of non-slash characters starting at `i`.
pub open spec fn slash_run(s: Seq<char>, i: nat) -> nat
    decreases s.len() - i,
{
    if i < s.len() && s[i as int] != '/' {
        1 + slash_run(s, i + 1)
    } else {
        0
    }
}

/// Length of the run of non-newline characters starting at `i`.
pub open spec fn comment_run(s: Seq<char>, i: nat) -> nat
    decreases s.len() - i,
{
    if i < s.len() && s[i as int] != '\n' {
        1 + comment_run(s, i + 1)
    } else {
        0
    }
}

pub proof fn lemma_digits_run_bound(s: Seq<char>, i: nat)
    ensures
        i <= s.len() ==> i + digits_run(s, i) <= s.len(),
    decreases s.len() - i,
{
    if i < s.len() && is_dec_digit(s[i as int]) {
        lemma_digits_run_bound(s, i + 1);
    }
}

pub proof fn lemma_sym_run_bound(s: Seq<char>, i: nat)
    ensures
        i <= s.len() ==> i + sym_run(s, i) <= s.len(),
    decreases s.len() - i,
{
    if i < s.len() && is_sym_cont(s[i as int]) {
        lemma_sym_run_bound(s, i + 1);
    }
}

pub proof fn lemma_slash_run_bound(s: Seq<char>, i: nat)
    ensures
        i <= s.len() ==> i + slash_run(s, i) <= s.len(),
    decreases s.len() - i,
{
    if i < s.len() && s[i as int] != '/' {
        lemma_slash_run_bound(s, i + 1);
    }
}

pub proof fn lemma_comment_run_bound(s: Seq<char>, i: nat)
    ensures
        i <= s.len() ==> i + comment_run(s, i) <= s.len(),
    decreases s.len() - i,
{
    if i < s.len() && s[i as int] != '\n' {
        lemma_comment_run_bound(s, i + 1);
    }
}

/// Whether the character at `i` is `c`.
pub open spec fn at(s: Seq<char>, i: nat, c: char) -> bool {
    i < s.len() && s[i as int] == c
}

/// The fixed (punctuation) lexeme starting at `i`, longest first.
pub open spec fn fixed_at(s: Seq<char>, i: nat) -> Option<(Token, nat)> {
    if at(s, i, '<') && at(s, i + 1, '=') && at(s, i + 2, '>') {
        Some((Token::Swap, 3 as nat))
    } else if at(s, i, '>') && at(s, i + 1, '-') && at(s, i + 2, '<') {
        Some((Token::Xor, 3 as nat))
    } else if at(s, i, '|') && at(s, i + 1, '<') {
        Some((Token::Load, 2 as nat))
    } else if at(s, i, '<') && at(s, i + 1, '=') {
        Some((Token::Assign, 2 as nat))
    } else if at(s, i, '=') && at(s, i + 1, '>') {
        Some((Token::Overwrite, 2 as nat))
    } else if at(s, i, '>') && at(s, i + 1, '<') {
        Some((Token::Unequal, 2 as nat))
    } else if at(s, i, '=') && at(s, i + 1, '<') {
        Some((Token::LessThanOrEqual, 2 as nat))
    } else if at(s, i, '>') && at(s, i + 1, '=') {
        Some((Token::GreaterThanOrEqual, 2 as nat))
    } else if at(s, i, '&') {
        Some((Token::And, 1 as nat))
    } else if at(s, i, '|') {
        Some((Token::Or, 1 as nat))
    } else if at(s, i, '+') {
        Some((Token::Plus, 1 as nat))
    } else if at(s, i, '-') {
        Some((Token::Minus, 1 as nat))
    } else if at(s, i, '*') {
        Some((Token::Asterisk, 1 as nat))
    } else if at(s, i, '%') {
        Some((Token::Percent, 1 as nat))
    } else if at(s, i, '^') {
        Some((Token::Circumflex, 1 as nat))
    } else if at(s, i, '=') {
        Some((Token::Equal, 1 as nat))
    } else if at(s, i, '<') {
        Some((Token::LessThan, 1 as nat))
    } else if at(s, i, '>') {
        Some((Token::GreaterThan, 1 as nat))
    } else if at(s, i, '?') {
        Some((Token::Truthy, 1 as nat))
    } else if at(s, i, '!') {
        Some((Token::Falsy, 1 as nat))
    } else if at(s, i, '$') {
        Some((Token::Exists, 1 as nat))
    } else if at(s, i, '\u{00b0}') {
        Some((Token::Empty, 1 as nat))
    } else if at(s, i, '{') {
        Some((Token::CurlyBracketOpen, 1 as nat))
    } else if at(s, i, '}') {
        Some((Token::CurlyBracketClose, 1 as nat))
    } else if at(s, i, '[') {
        Some((Token::SquareBracketOpen, 1 as nat))
    } else if at(s, i, ']') {
        Some((Token::SquareBracketClose, 1 as nat))
    } else if at(s, i, '@') {
        Some((Token::At, 1 as nat))
    } else if at(s, i, '\\') {
        Some((Token::Backslash, 1 as nat))
    } else if at(s, i, '~') {
        Some((Token::Tilde, 1 as nat))
    } else if at(s, i, '\u{00a7}') {
        Some((Token::Reader, 1 as nat))
    } else if at(s, i, '\u{00b5}') {
        Some((Token::Mu, 1 as nat))
    } else {
        None
    }
}

/// The token starting at a non-skipped position, with its length.
/// `None` means the character is unrecognised and is skipped.
pub open spec fn token_at(s: Seq<char>, i: nat) -> Option<(Token, nat)> {
    if i < s.len() && is_dec_digit(s[i as int]) {
        let d = digits_run(s, i);
        let e = digits_run(s, i + d + 1);
        if i + d < s.len() && s[(i + d) as int] == '.' && e > 0 {
            Some((Token::FloatLiteral, d + 1 + e))
        } else {
            Some((Token::IntegerLiteral, d))
        }
    } else if i < s.len() && is_sym_start(s[i as int]) {
        let l = sym_run(s, i);
        if l == 4 && at(s, i, 'n') && at(s, i + 1, 'u') && at(s, i + 2, 'l') && at(s, i + 3, 'l') {
            Some((Token::Null, l))
        } else if l == 4 && at(s, i, 't') && at(s, i + 1, 'r') && at(s, i + 2, 'u') && at(
            s,
            i + 3,
            'e',
        ) {
            Some((Token::True, l))
        } else if l == 5 && at(s, i, 'f') && at(s, i + 1, 'a') && at(s, i + 2, 'l') && at(
            s,
            i + 3,
            's',
        ) && at(s, i + 4, 'e') {
            Some((Token::False, l))
        } else {
            Some((Token::Symbol, l))
        }
    } else if at(s, i, '/') {
        let c = slash_run(s, i + 1);
        if i + 1 + c < s.len() {
            Some((Token::StringLiteral, c + 2))
        } else {
            None
        }
    } else {
        fixed_at(s, i)
    }
}

pub proof fn lemma_token_at_bounds(s: Seq<char>, i: nat)
    requires
        i < s.len(),
    ensures
        match token_at(s, i) {
            Some((t, l)) => 1 <= l && i + l <= s.len(),
            None => true,
        },
{
    lemma_digits_run_bound(s, i);
    if i < s.len() && is_dec_digit(s[i as int]) {
        let d = digits_run(s, i);
        if i + d + 1 <= s.len() {
            lemma_digits_run_bound(s, i + d + 1);
        }
    } else if i < s.len() && is_sym_start(s[i as int]) {
        lemma_sym_run_bound(s, i);
    } else if at(s, i, '/') {
        lemma_slash_run_bound(s, i + 1);
    }
}

/// The token sequence of the source from position `i` on.
pub open spec fn spec_lex(s: Seq<char>, i: nat) -> Seq<LexTok>
    decreases s.len() - i,
    when i <= s.len()
    via spec_lex_decreases
{
    if i >= s.len() {
        Seq::empty()
    } else if is_ws(s[i as int]) {
        spec_lex(s, i + 1)
    } else if s[i as int] == '#' {
        spec_lex(s, i + 1 + comment_run(s, i + 1))
    } else {
        match token_at(s, i) {
            Some((t, l)) => seq![
                LexTok {
                    token: t,
                    start: i,
                    end: i + l,
                    text: s.subrange(i as int, (i + l) as int),
                },
            ] + spec_lex(s, i + l),
            None => spec_lex(s, i + 1),
        }
    }
}

#[via_fn]
proof fn spec_lex_decreases(s: Seq<char>, i: nat) {
    if i < s.len() {
        lemma_comment_run_bound(s, i + 1);
        lemma_token_at_bounds(s, i);
    }
}

/// What the scanner guarantees of each token's text: an integer literal
/// is a non-empty digit run, and a text literal keeps its two delimiting
/// slashes.
pub open spec fn lextok_wf(l: LexTok) -> bool {
    match l.token {
        Token::IntegerLiteral => l.text.len() > 0 && forall|j: int|
            0 <= j < l.text.len() ==> is_dec_digit(#[trigger] l.text[j]),
        Token::StringLiteral => l.text.len() >= 2,
        _ => true,
    }
}

pub open spec fn lextoks_wf(t: Seq<LexTok>) -> bool {
    forall|i: int| 0 <= i < t.len() ==> lextok_wf(#[trigger] t[i])
}

proof fn lemma_digits_run_chars(s: Seq<char>, i: nat, j: int)
    requires
        i <= j < i + digits_run(s, i),
    ensures
        is_dec_digit(s[j]),
    decreases j - i,
{
    if j > i {
        lemma_digits_run_chars(s, i + 1, j);
    }
}

pub proof fn lemma_spec_lex_wf(s: Seq<char>, i: nat)
    requires
        i <= s.len(),
    ensures
        lextoks_wf(spec_lex(s, i)),
    decreases s.len() - i,
{
    if i >= s.len() {
    } else if is_ws(s[i as int]) {
        lemma_spec_lex_wf(s, i + 1);
    } else if s[i as int] == '#' {
        lemma_comment_run_bound(s, i + 1);
        lemma_spec_lex_wf(s, i + 1 + comment_run(s, i + 1));
    } else {
        lemma_token_at_bounds(s, i);
        match token_at(s, i) {
            Some((t, l)) => {
                lemma_spec_lex_wf(s, i + l);
                let tk = LexTok {
                    token: t,
                    start: i,
                    end: i + l,
                    text: s.subrange(i as int, (i + l) as int),
                };
                assert(lextok_wf(tk)) by {
                    if t is IntegerLiteral {
                        let d = digits_run(s, i);
                        assert(l == d);
                        assert forall|j: int| 0 <= j < tk.text.len() implies is_dec_digit(
                            #[trigger] tk.text[j],
                        ) by {
                            lemma_digits_run_chars(s, i, i + j);
                        }
                    }
                }
                assert forall|k: int| 0 <= k < spec_lex(s, i).len() implies lextok_wf(
                    #[trigger] spec_lex(s, i)[k],
                ) by {
                    if k > 0 {
                        assert(spec_lex(s, i)[k] == spec_lex(s, i + l)[k - 1]);
                    }
                }
            },
            None => {
                lemma_spec_lex_wf(s, i + 1);
            },
        }
    }
}

fn is_digit_exec(c: char) -> (r: bool)
    ensures
        r == is_dec_digit(c),
{
    '0' <= c && c <= '9'
}

fn is_sym_start_exec(c: char) -> (r: bool)
    ensures
        r == is_sym_start(c),
{
    ('a' <= c && c <= 'z') || ('A' <= c && c <= 'Z') || c == '_'
}

fn is_sym_cont_exec(c: char) -> (r: bool)
    ensures
        r == is_sym_cont(c),
{
    is_sym_start_exec(c) || is_digit_exec(c)
}

pub(crate) fn is_ws_exec(c: char) -> (r: bool)
    ensures
        r == is_ws(c),
{
    c == ' ' || c == '\t' || c == '\r' || c == '\n'
}

fn scan_digits(src: &Vec<char>, from: usize) -> (n: usize)
    requires
        from <= src@.len(),
    ensures
        n as nat == digits_run(src@, from as nat),
        from + n <= src@.len(),
{
    let mut j = from;
    loop
        invariant
            from <= j <= src@.len(),
            digits_run(src@, from as nat) == (j - from) + digits_run(src@, j as nat),
        decreases src@.len() - j,
    {
        if j < src.len() && is_digit_exec(src[j]) {
            j += 1;
        } else {
            return j - from;
        }
    }
}

fn scan_sym(src: &Vec<char>, from: usize) -> (n: usize)
    requires
        from <= src@.len(),
    ensures
        n as nat == sym_run(src@, from as nat),
        from + n <= src@.len(),
{
    let mut j = from;
    loop
        invariant
            from <= j <= src@.len(),
            sym_run(src@, from as nat) == (j - from) + sym_run(src@, j as nat),
        decreases src@.len() - j,
    {
        if j < src.len() && is_sym_cont_exec(src[j]) {
            j += 1;
        } else {
            return j - from;
        }
    }
}

fn scan_slash(src: &Vec<char>, from: usize) -> (n: usize)
    requires
        from <= src@.len(),
    ensures
        n as nat == slash_run(src@, from as nat),
        from + n <= src@.len(),
{
    let mut j = from;
    loop
        invariant
            from <= j <= src@.len(),
            slash_run(src@, from as nat) == (j - from) + slash_run(src@, j as nat),
        decreases src@.len() - j,
    {
        if j < src.len() && src[j] != '/' {
            j += 1;
        } else {
            return j - from;
        }
    }
}

fn scan_comment(src: &Vec<char>, from: usize) -> (n: usize)
    requires
        from <= src@.len(),
    ensures
        n as nat == comment_run(src@, from as nat),
        from + n <= src@.len(),
{
    let mut j = from;
    loop
        invariant
            from <= j <= src@.len(),
            comment_run(src@, from as nat) == (j - from) + comment_run(src@, j as nat),
        decreases src@.len() - j,
    {
        if j < src.len() && src[j] != '\n' {
            j += 1;
        } else {
            return j - from;
        }
    }
}

/// The characters of `src` between `a` and `b`, as a string.
pub fn chars_sub(src: &Vec<char>, a: usize, b: usize) -> (r: String)
    requires
        a <= b <= src@.len(),
    ensures
        r@ == src@.subrange(a as int, b as int),
{
    let mut out: Vec<char> = Vec::new();
    let mut j = a;
    while j < b
        invariant
            a <= j <= b <= src@.len(),
            out@ == src@.subrange(a as int, j as int),
        decreases b - j,
    {
        out.push(src[j]);
        proof {
            assert(out@ =~= src@.subrange(a as int, (j + 1) as int));
        }
        j += 1;
    }
    chars_string(&out)
}

fn fixed_token(src: &Vec<char>, i: usize) -> (r: Option<(Token, usize)>)
    requires
        i < src@.len(),
    ensures
        match r {
            Some((t, l)) => fixed_at(src@, i as nat) == Some((t, l as nat)),
            None => fixed_at(src@, i as nat) is None,
        },
{
    let n = src.len();
    if src[i] == '<' && n - i > 2 && src[i + 1] == '=' && src[i + 2] == '>' {
        Some((Token::Swap, 3))
    } else if src[i] == '>' && n - i > 2 && src[i + 1] == '-' && src[i + 2] == '<' {
        Some((Token::Xor, 3))
    } else if src[i] == '|' && n - i > 1 && src[i + 1] == '<' {
        Some((Token::Load, 2))
    } else if src[i] == '<' && n - i > 1 && src[i + 1] == '=' {
        Some((Token::Assign, 2))
    } else if src[i] == '=' && n - i > 1 && src[i + 1] == '>' {
        Some((Token::Overwrite, 2))
    } else if src[i] == '>' && n - i > 1 && src[i + 1] == '<' {
        Some((Token::Unequal, 2))
    } else if src[i] == '=' && n - i > 1 && src[i + 1] == '<' {
        Some((Token::LessThanOrEqual, 2))
    } else if src[i] == '>' && n - i > 1 && src[i + 1] == '=' {
        Some((Token::GreaterThanOrEqual, 2))
    } else if src[i] == '&' {
        Some((Token::And, 1))
    } else if src[i] == '|' {
        Some((Token::Or, 1))
    } else if src[i] == '+' {
        Some((Token::Plus, 1))
    } else if src[i] == '-' {
        Some((Token::Minus, 1))
    } else if src[i] == '*' {
        Some((Token::Asterisk, 1))
    } else if src[i] == '%' {
        Some((Token::Percent, 1))
    } else if src[i] == '^' {
        Some((Token::Circumflex, 1))
    } else if src[i] == '=' {
        Some((Token::Equal, 1))
    } else if src[i] == '<' {
        Some((Token::LessThan, 1))
    } else if src[i] == '>' {
        Some((Token::GreaterThan, 1))
    } else if src[i] == '?' {
        Some((Token::Truthy, 1))
    } else if src[i] == '!' {
        Some((Token::Falsy, 1))
    } else if src[i] == '$' {
        Some((Token::Exists, 1))
    } else if src[i] == '\u{00b0}' {
        Some((Token::Empty, 1))
    } else if src[i] == '{' {
        Some((Token::CurlyBracketOpen, 1))
    } else if src[i] == '}' {
        Some((Token::CurlyBracketClose, 1))
    } else if src[i] == '[' {
        Some((Token::SquareBracketOpen, 1))
    } else if src[i] == ']' {
        Some((Token::SquareBracketClose, 1))
    } else if src[i] == '@' {
        Some((Token::At, 1))
    } else if src[i] == '\\' {
        Some((Token::Backslash, 1))
    } else if src[i] == '~' {
        Some((Token::Tilde, 1))
    } else if src[i] == '\u{00a7}' {
        Some((Token::Reader, 1))
    } else if src[i] == '\u{00b5}' {
        Some((Token::Mu, 1))
    } else {
        None
    }
}

/// Scan the whole source into tokens.
pub fn lex(src: &Vec<char>) -> (r: Vec<Lexed>)
    ensures
        r@.map_values(|l: Lexed| lexed_abs(l)) == spec_lex(src@, 0),
{
    let n = src.len();
    let mut toks: Vec<Lexed> = Vec::new();
    let mut i: usize = 0;
    while i < n
        invariant
            n == src@.len(),
            i <= n,
            spec_lex(src@, 0) == toks@.map_values(|l: Lexed| lexed_abs(l)) + spec_lex(
                src@,
                i as nat,
            ),
        decreases n - i,
    {
        let c = src[i];
        if is_ws_exec(c) {
            i += 1;
        } else if c == '#' {
            let k = scan_comment(src, i + 1);
            i = i + 1 + k;
        } else {
            let tok_len: Option<(Token, usize)> = if is_digit_exec(c) {
                let d = scan_digits(src, i);
                if i + d < n && src[i + d] == '.' {
                    let e = scan_digits(src, i + d + 1);
                    if e > 0 {
                        Some((Token::FloatLiteral, d + 1 + e))
                    } else {
                        Some((Token::IntegerLiteral, d))
                    }
                } else {
                    Some((Token::IntegerLiteral, d))
                }
            } else if is_sym_start_exec(c) {
                let l = scan_sym(src, i);
                if l == 4 && src[i] == 'n' && src[i + 1] == 'u' && src[i + 2] == 'l' && src[i + 3]
                    == 'l' {
                    Some((Token::Null, l))
                } else if l == 4 && src[i] == 't' && src[i + 1] == 'r' && src[i + 2] == 'u' && src[i
                    + 3] == 'e' {
                    Some((Token::True, l))
                } else if l == 5 && src[i] == 'f' && src[i + 1] == 'a' && src[i + 2] == 'l' && src[i
                    + 3] == 's' && src[i + 4] == 'e' {
                    Some((Token::False, l))
                } else {
                    Some((Token::Symbol, l))
                }
            } else if c == '/' {
                let k = scan_slash(src, i + 1);
                if i + 1 + k < n {
                    Some((Token::StringLiteral, k + 2))
                } else {
                    None
                }
            } else {
                fixed_token(src, i)
            };
            proof {
                lemma_token_at_bounds(src@, i as nat);
            }
            match tok_len {
                Some((t, l)) => {
                    assert(token_at(src@, i as nat) == Some((t, l as nat)));
                    let text = chars_sub(src, i, i + l);
                    let ghost prev = toks@;
                    toks.push(Lexed { token: t, start: i, end: i + l, text });
                    proof {
                        assert(toks@.map_values(|l: Lexed| lexed_abs(l)) =~= prev.map_values(
                            |l: Lexed| lexed_abs(l),
                        ) + seq![
                            LexTok {
                                token: t,
                                start: i as nat,
                                end: (i + l) as nat,
                                text: src@.subrange(i as int, (i + l) as int),
                            },
                        ]);
                    }
                    i = i + l;
                },
                None => {
                    assert(token_at(src@, i as nat) is None);
                    i = i + 1;
                },
            }
        }
    }
    proof {
        assert(toks@.map_values(|l: Lexed| lexed_abs(l)) + spec_lex(src@, n as nat) =~= toks@
            .map_values(|l: Lexed| lexed_abs(l)));
    }
    toks
}

} // verus!

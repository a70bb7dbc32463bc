use specky::ast::{LogKind, Statement, Value};
use specky::parse_error::ParsingError;
use specky::parser::Parser;
use specky::run::run;

fn run_src(src: &str) -> String {
    let mut parser = Parser::new(src);
    let parsed = parser.parse_statements().unwrap();
    run(&parsed, &Vec::new()).stdout
}

fn parse_err(src: &str) -> ParsingError {
    let mut parser = Parser::new(src);
    parser.parse_statements().unwrap_err()
}

#[test]
fn arithmetic_exact() {
    assert_eq!(run_src(r"|< x <= 7 + 5 {%}"), "12\n");
    assert_eq!(run_src(r"|< x <= 7 - 12 {%}"), "-5\n");
    assert_eq!(run_src(r"|< x <= 6 * 7 {%}"), "42\n");
    assert_eq!(run_src(r"|< x <= 2 ^ 10 {%}"), "1024\n");
    assert_eq!(run_src(r"|< x <= 17 % 5 {%}"), "2\n");
}

#[test]
fn division_truncates_toward_zero() {
    assert_eq!(run_src("|< x <= 7 \\ 2 {%}"), "3\n");
    assert_eq!(run_src("|< x <= -7 \\ 2 {%}"), "-3\n");
    assert_eq!(run_src("|< x <= -7 % 2 {%}"), "-1\n");
}

#[test]
fn division_by_zero_is_null() {
    assert_eq!(run_src("|< x <= 7 \\ 0 {%}"), "null\n");
    assert_eq!(run_src("|< x <= 7 % 0 {%}"), "null\n");
}

#[test]
fn big_integers_widen_and_compress() {
    // 2^127 does not fit the small form; printing it round-trips the digits
    assert_eq!(
        run_src(r"|< x <= 170141183460469231731687303715884105728 {%}"),
        "170141183460469231731687303715884105728\n"
    );
    // widening multiplication, then narrowing subtraction back to a small value
    assert_eq!(
        run_src(
            r"|< x <= 170141183460469231731687303715884105728 - 170141183460469231731687303715884105723 = 5 {%}"
        ),
        "true\n"
    );
    // products beyond 128 bits stay exact
    assert_eq!(
        run_src(r"|< x <= 170141183460469231731687303715884105728 * 2 {%}"),
        "340282366920938463463374607431768211456\n"
    );
}

#[test]
fn negative_literals_take_sign_parity() {
    assert_eq!(run_src(r"|< x <= - - 5 {%}"), "5\n");
    assert_eq!(run_src(r"|< x <= -+-+- 5 {%}"), "-5\n");
}

#[test]
fn text_operators() {
    assert_eq!(run_src(r"|< x <= /ab/ + /cd/ {?%}"), "abcd\n");
    assert_eq!(run_src(r"|< x <= /n=/ + 42 {?%}"), "n=42\n");
    assert_eq!(run_src(r"|< x <= /hello/ ~ 1 {?%}"), "e\n");
    assert_eq!(run_src(r"|< x <= /hello/ ~ 9 {%}"), "null\n");
    assert_eq!(run_src(r"|< x <= /abc/ < /abd/ {%}"), "true\n");
    assert_eq!(run_src(r"|< x <= /b/ < /ab/ {%}"), "false\n");
}

#[test]
fn text_escapes_and_quoting() {
    // escaped characters inside a literal, printed raw
    assert_eq!(run_src("|< x <= /a\\tb/ {?%}"), "a\tb\n");
    // the quoted form escapes interior slashes
    assert_eq!(run_src(r"|< x <= /hi/ {%}"), "/hi/\n");
}

#[test]
fn logical_operators_booleanise() {
    assert_eq!(run_src(r"|< x <= 3 & 0 {%}"), "false\n");
    assert_eq!(run_src(r"|< x <= 3 | 0 {%}"), "true\n");
    assert_eq!(run_src(r"|< x <= 3 >-< 5 {%}"), "false\n");
    assert_eq!(run_src(r"|< x <= 3 >-< 0 {%}"), "true\n");
}

#[test]
fn equality_across_types() {
    assert_eq!(run_src(r"|< x <= 5 = /5/ {%}"), "false\n");
    assert_eq!(run_src(r"|< x <= 5 >< 6 {%}"), "true\n");
    assert_eq!(run_src(r"|< x <= null = null {%}"), "true\n");
}

#[test]
fn float_comparisons() {
    assert_eq!(run_src(r"|< f <= 1.5 < 2.25 {%}"), "true\n");
    assert_eq!(run_src(r"|< f <= 2.25 =< 1.5 {%}"), "false\n");
}

#[test]
fn float_arithmetic() {
    // equal values have equal canonical texts, so the comparison by
    // equality sees through the decimal arithmetic
    assert_eq!(run_src("|< f <= 1.5 + 1.75 = 3.25 {%}"), "true\n");
    assert_eq!(run_src("|< f <= 3.5 - 1.25 = 2.25 {%}"), "true\n");
    assert_eq!(run_src("|< f <= 1.5 * 2.5 = 3.75 {%}"), "true\n");
    assert_eq!(run_src("|< f <= 7.5 \\ 2.5 = 3.0 {%}"), "true\n");
    assert_eq!(run_src("|< f <= 5.5 % 2.0 = 1.5 {%}"), "true\n");
    assert_eq!(run_src("|< f <= 2.0 ^ 3.0 = 8.0 {%}"), "true\n");
    assert_eq!(run_src("|< f <= -1.5 + 1.5 = 0.0 {%}"), "true\n");
}

#[test]
fn float_truthiness_and_narrowing() {
    assert_eq!(run_src("|< f <= 0.0 & true {%}"), "false\n");
    assert_eq!(run_src("|< f <= 1.5 & true {%}"), "true\n");
    // the special form narrows to a 64-bit float's rendering
    assert_eq!(run_src("|< f <= 1.5 {?%}"), "1.5\n");
}

#[test]
fn swap_and_overwrite() {
    // overwrite stores the cursor at the operand's key
    assert_eq!(run_src(r"|< a => b |< b {%}"), "a\n");
    // swap exchanges the two cells
    assert_eq!(run_src(r"|< a <= 1 |< b <= 2 |< a <=> b {%} |< b {%}"), "2\n1\n");
}

#[test]
fn special_prints() {
    // a code point printed as its character
    assert_eq!(run_src(r"|< x <= 65 {?%}"), "A\n");
    // booleans as bits
    assert_eq!(run_src(r"|< x <= true {?%}"), "1\n");
    // the special form of null is the NUL byte
    assert_eq!(run_src(r"|< x <= null {?%}"), "\u{0}\n");
    // a symbol cursor printed specially is the numeral of its bytes
    assert_eq!(run_src(r"|< s {?@}"), "115\n");
    // an out-of-range code point falls back to the replacement character
    assert_eq!(run_src(r"|< x <= 1114112 {?%}"), "\u{fffd}\n");
}

#[test]
fn print_options_compose() {
    // spaces, reverse and newline suppression
    assert_eq!(run_src(r"|< x <= /ab/ {?%~\}"), "ba");
    assert_eq!(run_src("|< x <= /ab/ {?%\u{b0}\u{b0}}"), "ab  \n");
    // the vertical transposition turns the line into a column
    assert_eq!(run_src(r"|< x <= /ab/ {?%^}"), "a\nb");
}

#[test]
fn print_assign_reparses() {
    // the printed text (with its newline) is read back as a value:
    // "12\n" trims back to the number 12
    assert_eq!(run_src(r"|< x <= /12/ {?%<} {%}"), "12\n12\n");
}

#[test]
fn conditional_skip_counts() {
    // a failed double conditional skips two statements, not one
    assert_eq!(run_src(r"|< a <= false ?? |< b {@} |< c {@}"), "c\n");
    // a failed single conditional skips exactly one statement: the load
    // is skipped, the print still runs against the old cursor
    assert_eq!(run_src(r"|< a <= false ? |< b {@} |< c {@}"), "a\nc\n");
}

#[test]
fn define_jump_round_trip() {
    // the jump returns control to just after the define
    assert_eq!(
        run_src("|< n <= 3 [<] l |< o <= /x/ {?%} |< n - 1 |< t <= \u{a7}n > 0 ? [>] l"),
        "x\nx\nx\n"
    );
    // a jump through an undefined label is a no-op
    assert_eq!(run_src(r"[>] nowhere |< a {@}"), "a\n");
}

#[test]
fn empty_program_prints_nothing() {
    assert_eq!(run_src(""), "");
    assert_eq!(run_src("# just a comment"), "");
}

#[test]
fn comments_and_junk_are_skipped() {
    assert_eq!(run_src("|< a # trailing words\n{@}"), "a\n");
    // an unrecognised character between tokens is dropped
    assert_eq!(run_src("|< a \u{263a} {@}"), "a\n");
}

#[test]
fn syntax_error_reports_token() {
    match parse_err(r"}") {
        ParsingError::SyntaxError { expected, .. } => assert_eq!(expected, "operator"),
        other => panic!("unexpected: {:?}", other),
    }
    match parse_err(r"|< }") {
        ParsingError::SyntaxError { expected, .. } => assert_eq!(expected, "value"),
        other => panic!("unexpected: {:?}", other),
    }
}

#[test]
fn custom_error_on_bad_escape() {
    match parse_err(r"|< /a\qb/") {
        ParsingError::CustomError { text, .. } => assert_eq!(text, "invalid escape character"),
        other => panic!("unexpected: {:?}", other),
    }
}

#[test]
fn eof_error_on_missing_operand() {
    match parse_err(r"|<") {
        ParsingError::UnexpectedEndOfFile { .. } => {},
        other => panic!("unexpected: {:?}", other),
    }
}

#[test]
fn input_lines_are_classified() {
    let log = Statement::Log {
        kind: Some(LogKind::Value),
        reader: 0,
        special: false,
        reverse: false,
        newline: true,
        space: 0,
        vertical: false,
        assign: false,
    };
    let program = vec![Statement::Input, log.clone()];
    let out = run(&program, &vec!["  42 ".to_string()]);
    assert_eq!(out.stdout, "42\n");

    let program = vec![Statement::Input, log.clone()];
    let out = run(&program, &vec!["yes".to_string()]);
    assert_eq!(out.stdout, "true\n");

    let program = vec![Statement::Input, log.clone()];
    let out = run(&program, &vec!["two words".to_string()]);
    assert_eq!(out.stdout, "/two words/\n");

    // exhausted input reads as null
    let program = vec![Statement::Input, log];
    let out = run(&program, &Vec::new());
    assert_eq!(out.stdout, "null\n");
}

#[test]
fn cursor_starts_null() {
    let log = Statement::Log {
        kind: Some(LogKind::Pointer),
        reader: 0,
        special: false,
        reverse: false,
        newline: true,
        space: 0,
        vertical: false,
        assign: false,
    };
    let out = run(&vec![log], &Vec::new());
    assert_eq!(out.stdout, "null\n");
}

#[test]
fn jump_address_prints() {
    // a defined label prints as its statement index, or in binary
    assert_eq!(run_src(r"[<] l |< l {%}"), "0\n");
    assert_eq!(run_src(r"|< pad [<] l |< l {%}"), "1\n");
    assert_eq!(run_src(r"|< a [<] b [<] c [<] d |< d {?%}"), "11\n");
}

#[test]
fn type_kind_is_dead_but_value_constructible() {
    // the parser never produces the type kind, but the machine supports it
    let log = Statement::Log {
        kind: Some(LogKind::Type),
        reader: 0,
        special: false,
        reverse: false,
        newline: true,
        space: 0,
        vertical: false,
        assign: false,
    };
    let program = vec![
        Statement::Assign(specky::ast::Expression { reader: 0, value: Value::SmallInt(7) }),
        log,
    ];
    let out = run(&program, &Vec::new());
    assert_eq!(out.stdout, "SmallInt\n");
}

#[test]
fn reader_resolves_chains() {
    // one reader mark dereferences once; the cursor takes the stored value
    assert_eq!(run_src("|< a <= 7 |< \u{a7}a {@}"), "7\n");
    // two marks follow two links
    assert_eq!(run_src("|< a <= b |< b <= 9 |< \u{a7}\u{a7}a {@}"), "9\n");
}

use specky::parser::Parser;
use specky::run::run;

fn run_src(src: &str) -> String {
    let mut parser = Parser::new(src);
    let parsed = parser.parse_statements().unwrap();
    run(&parsed, &Vec::new()).stdout
}

fn factorial_src() -> &'static str {
    "|< acc <= 1\n\
     |< i <= 1\n\
     [<] loop\n\
     |< acc * i\n\
     |< i + 1\n\
     |< chk <= \u{a7}i =< 10\n\
     ? [>] loop\n\
     |< acc {%}\n"
}

fn multi_machine_src() -> &'static str {
    "|< a <= 50\n\
     |< b <= 10\n\
     |< r <= 0\n\
     [<] loop\n\
     |< r + a\n\
     |< b - 1\n\
     |< chk <= \u{a7}b > 0\n\
     ? [>] loop\n\
     |< r {%}\n"
}

fn fizzbuzz_src() -> &'static str {
    "|< i <= 1\n\
     [<] loop\n\
     |< s <= //\n\
     |< m <= \u{a7}i % 3\n\
     !!\n\
     |< s + /Fizz/\n\
     |< m <= \u{a7}i % 5\n\
     !!\n\
     |< s + /Buzz/\n\
     |< t <= \u{a7}s = //\n\
     |< t ??\n\
     |< i {%}\n\
     |< t !!\n\
     |< s {?%}\n\
     |< i + 1\n\
     |< c <= \u{a7}i =< 1000\n\
     ? [>] loop\n"
}

fn bottles_old_src() -> String {
    "|< i <= 99\n\
     [<] verse\n\
     |< i {%}\n\
     |< w <= /bottles of beer on the wall,/ {%}\n\
     |< i {%}\n\
     |< w <= /bottles of beer./ {%}\n\
     |< w <= /Take one down, pass it around,/ {%}\n\
     |< i - 1\n\
     |< i {%}\n\
     |< w <= /bottles of beer on the wall,/ {%}\n\
     |< w <= // {%}\n\
     |< t <= \u{a7}i > 0\n\
     ? [>] verse\n"
        .to_string()
}

#[test]
fn test_bottles_of_beer() {
    let output = run_src(&bottles_old_src());

    let expected = (1..100)
        .rev()
        .map(|i: i32| {
            [
                i.to_string(),
                "/bottles of beer on the wall,/".to_string(),
                i.to_string(),
                "/bottles of beer./".to_string(),
                "/Take one down, pass it around,/".to_string(),
                (i - 1).to_string(),
                "/bottles of beer on the wall,/".to_string(),
                "//".to_string(),
                "".to_string(),
            ]
            .join("\n")
        })
        .collect::<String>();

    assert!(output.contains(&expected))
}

#[test]
fn test_fibonacci() {
    let output = run_src(factorial_src());

    let value: i32 = 10;

    assert_eq!(output, (1..=value).fold(1, |acc, x| acc * x).to_string() + "\n")
}

#[test]
fn test_multi_machine() {
    let output = run_src(multi_machine_src());

    let a: i32 = 50;
    let b: i32 = 10;

    assert_eq!(output, (a * b).to_string() + "\n");
}

#[test]
fn test_print_test() {
    let output = run_src(r"|< ab {@}");
    assert_eq!(output, "ab\n");

    let output = run_src(r"|< ab {~@}");
    assert_eq!(output, "ba\n");

    let output = run_src(r"|< ab{@\}");
    assert_eq!(output, "ab");

    let output = run_src(r"|< ab {~@\}");
    assert_eq!(output, "ba");
}

#[test]
fn test_sequential_test() {
    let bools = ["true", "false"];
    let results = ["holy shit", "kinda sus"];
    for i in 0..bools.len() {
        let output = run_src(&format!(
            r"|< a <= {} ??? |< new <= /{}/ {{%}} |< a !!! |< old <= /{}/ {{%}}",
            bools[i], results[0], results[1]
        ));
        assert_eq!(output, format!("/{}/\n", results[i]));
    }
}

#[test]
fn test_fizzbuzz() {
    assert_eq!(
        run_src(fizzbuzz_src()),
        (1..=1000)
            .map(|i: i32| {
                let mut string = String::with_capacity(8);
                if i % 3 == 0 {
                    string += "Fizz"
                }
                if i % 5 == 0 {
                    string += "Buzz"
                }
                if string.is_empty() {
                    string += &i.to_string()
                }
                string + "\n"
            })
            .collect::<String>()
    )
}

fn bf_source(instructions: &str, debug: &str) -> String {
    let handler = |test: char, inner: &[&str]| -> Vec<String> {
        let mut v = vec![
            "|< t".to_string(),
            "<= \u{a7}c".to_string(),
            format!("= /{}/", test),
        ];
        v.push("?".repeat(inner.len() + 1));
        v.extend(inner.iter().map(|s| s.to_string()));
        v.push("[>] step".to_string());
        v
    };

    let plus: Vec<&str> = vec![
        "|< \u{a7}ptr", "\u{b0}", "<= 0", "+ 1",
        "|< m", "<= \u{a7}\u{a7}ptr", "= 256", "??",
        "|< \u{a7}ptr", "<= 0",
        "|< pc", "+ 1",
    ];
    let minus: Vec<&str> = vec![
        "|< \u{a7}ptr", "\u{b0}", "<= 0", "- 1",
        "|< m", "<= \u{a7}\u{a7}ptr", "= -1", "??",
        "|< \u{a7}ptr", "<= 255",
        "|< pc", "+ 1",
    ];
    let right: Vec<&str> = vec!["|< ptr", "+ 1", "|< pc", "+ 1"];
    let left: Vec<&str> = vec!["|< ptr", "- 1", "|< pc", "+ 1"];
    let dot: Vec<&str> = vec!["|< \u{a7}ptr", "{?%\\}", "|< pc", "+ 1"];
    let lbracket: Vec<&str> = vec![
        "|< \u{a7}ptr", "\u{b0}", "<= 0",
        "|< m", "<= \u{a7}\u{a7}ptr",
        "???",
        "|< pc", "+ 1", "[>] step",
        "|< depth", "<= 1",
        "|< sp", "<= \u{a7}pc",
        "[<] scanf",
        "|< sp", "+ 1",
        "|< c2", "<= \u{a7}prog", "~ \u{a7}sp",
        "\u{b0}\u{b0}\u{b0}\u{b0}",
        "|< sp", "<= 999999999",
        "|< depth", "<= 0",
        "|< t2", "<= \u{a7}c2", "= /[/",
        "??",
        "|< depth", "+ 1",
        "|< t2", "<= \u{a7}c2", "= /]/",
        "??",
        "|< depth", "- 1",
        "|< t2", "<= \u{a7}depth", "> 0",
        "?",
        "[>] scanf",
        "|< pc", "<= \u{a7}sp", "+ 1",
    ];
    let rbracket: Vec<&str> = vec![
        "|< \u{a7}ptr", "\u{b0}", "<= 0",
        "|< m", "<= \u{a7}\u{a7}ptr",
        "!!!",
        "|< pc", "+ 1", "[>] step",
        "|< depth", "<= 1",
        "|< sp", "<= \u{a7}pc",
        "[<] scanb",
        "|< sp", "- 1",
        "|< c2", "<= \u{a7}prog", "~ \u{a7}sp",
        "\u{b0}\u{b0}\u{b0}\u{b0}",
        "|< sp", "<= 999999998",
        "|< depth", "<= 0",
        "|< t2", "<= \u{a7}c2", "= /]/",
        "??",
        "|< depth", "+ 1",
        "|< t2", "<= \u{a7}c2", "= /[/",
        "??",
        "|< depth", "- 1",
        "|< t2", "<= \u{a7}depth", "> 0",
        "?",
        "[>] scanb",
        "|< pc", "<= \u{a7}sp", "+ 1",
    ];
    let fallback: Vec<String> = vec!["|< pc".to_string(), "+ 1".to_string(), "[>] step".to_string()];

    let mut body: Vec<String> = Vec::new();
    body.extend(handler('+', &plus));
    body.extend(handler('-', &minus));
    body.extend(handler('>', &right));
    body.extend(handler('<', &left));
    body.extend(handler('.', &dot));
    body.extend(handler('[', &lbracket));
    body.extend(handler(']', &rbracket));
    body.extend(fallback);

    let mut program: Vec<String> = vec![
        "|< prog".to_string(),
        format!("<= /{instructions}/"),
        "|< debug".to_string(),
        format!("<= {debug}"),
        "|< pc".to_string(),
        "<= 0".to_string(),
        "|< ptr".to_string(),
        "<= 0".to_string(),
        "[<] step".to_string(),
        "|< c".to_string(),
        "<= \u{a7}prog".to_string(),
        "~ \u{a7}pc".to_string(),
        "$".repeat(body.len()),
    ];
    program.extend(body);
    program.join("\n")
}

#[test]
fn test_brainfuck() {
    let bf = |instructions: &str, debug: bool| {
        run_src(&bf_source(instructions, &debug.to_string()))
    };

    assert_eq!(bf("+++++[>+++++++>++<<-]>.>.][", false), "#\n");

    assert_eq!(
        bf(".+[.+]", false),
        (0..=255u32).map(|i| char::from(i as u8)).collect::<String>()
    );
}

#[test]
fn brainfuck_small_programs() {
    // fetch and print the fetched character
    assert_eq!(
        run_src("|< prog <= /./\n|< pc <= 0\n|< ptr <= 0\n[<] step\n|< c <= \u{a7}prog ~ \u{a7}pc {?%}"),
        ".\n"
    );
    // the halt guard lets an existing character through
    assert_eq!(
        run_src("|< prog <= /./\n|< pc <= 0\n|< ptr <= 0\n[<] step\n|< c <= \u{a7}prog ~ \u{a7}pc\n$$\n|< \u{a7}ptr\n{?%\\}"),
        "\u{0}"
    );
    // a matching handler guard falls through into its body
    assert_eq!(
        run_src("|< prog <= /./\n|< pc <= 0\n|< ptr <= 0\n[<] step\n|< c <= \u{a7}prog ~ \u{a7}pc\n$$$$$$\n|< t\n<= \u{a7}c\n= /./\n??\n|< \u{a7}ptr\n{?%\\}"),
        "\u{0}"
    );
    // a falsy triple conditional skips three statements
    assert_eq!(
        run_src("|< m <= 0 ??? |< a {@} |< a {@} |< a {@} |< b {@}"),
        "m\na\nb\n"
    );
    // the forward bracket scan finds the matching close bracket
    assert_eq!(
        run_src(
            "|< prog <= /[.]/\n|< sp <= 0\n|< depth <= 1\n[<] scanf\n|< sp + 1\n\
             |< c2 <= \u{a7}prog ~ \u{a7}sp\n\u{b0}\u{b0}\u{b0}\u{b0}\n|< sp <= 99\n|< depth <= 0\n\
             |< t2 <= \u{a7}c2 = /[/\n??\n|< depth + 1\n\
             |< t2 <= \u{a7}c2 = /]/\n??\n|< depth - 1\n\
             |< t2 <= \u{a7}depth > 0\n?\n[>] scanf\n|< sp {%}"
        ),
        "2\n"
    );
    let bf = |instructions: &str| run_src(&bf_source(instructions, "false"));
    assert_eq!(bf("."), "\u{0}");
    assert_eq!(bf("+."), "\u{1}");
    assert_eq!(bf(">."), "\u{0}");
    assert_eq!(bf("+++++."), "\u{5}");
    assert_eq!(bf("[.]."), "\u{0}");
    assert_eq!(bf("+[-]."), "\u{0}");
    assert_eq!(bf("+++[>++<-]>."), "\u{6}");
}

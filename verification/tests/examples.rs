use specky::parser::Parser;
use specky::run::run;

fn run_src(src: &str) -> String {
    let mut parser = Parser::new(src);
    let parsed = parser.parse_statements().unwrap();
    run(&parsed, &Vec::new()).stdout
}

fn bottles_src() -> &'static str {
    "|< i <= 99\n\
     [<] verse\n\
     |< t <= \u{a7}i = 1\n\
     |< p <= /s/\n\
     |< t ??\n\
     |< p <= //\n\
     |< i {%\\}\n\
     |< w <= / bottle/ {?%\\}\n\
     |< p {?%\\}\n\
     |< w <= / of beer on the wall,/ {?%}\n\
     |< i {%\\}\n\
     |< w <= / bottle/ {?%\\}\n\
     |< p {?%\\}\n\
     |< w <= / of beer./ {?%}\n\
     |< w <= /Take one down, pass it around,/ {?%}\n\
     |< i - 1\n\
     |< t <= \u{a7}i = 1\n\
     |< q <= /s/\n\
     |< t ??\n\
     |< q <= //\n\
     |< i {%\\}\n\
     |< w <= / bottle/ {?%\\}\n\
     |< q {?%\\}\n\
     |< w <= / of beer on the wall,/ {?%}\n\
     |< e <= // {?%}\n\
     |< t <= \u{a7}i > 0\n\
     ? [>] verse\n\
     |< w <= /No bottles of beer on the wall,/ {?%}\n\
     |< w <= /No bottles of beer./ {?%}\n\
     |< w <= /Go to the store, buy some more,/ {?%}\n\
     |< w <= /99 bottles of beer on the wall./ {?%}\n"
}

#[test]
fn examples_bottles_of_beer() {
    let output = run_src(bottles_src());

    let max_bottles: usize = 99;

    let plural = |i: usize| if i == 1 { "" } else { "s" };

    let expected = (1..=max_bottles)
        .rev()
        .map(|i| {
            let s = plural(i);
            let d = i - 1;
            let sd = plural(d);
            [
                format!("{i} bottle{s} of beer on the wall,"),
                format!("{i} bottle{s} of beer."),
                "Take one down, pass it around,".to_string(),
                format!("{d} bottle{sd} of beer on the wall,"),
                "".to_string(),
                "".to_string(),
            ]
            .join("\n")
        })
        .collect::<String>()
        + &[
            "No bottles of beer on the wall,",
            "No bottles of beer.",
            "Go to the store, buy some more,",
            &format!("{max_bottles} bottle{} of beer on the wall.", plural(max_bottles)),
            "",
        ]
        .join("\n");

    assert_eq!(output, expected)
}

#[test]
fn examples_fibonacci() {
    let output = run_src(
        "|< acc <= 1\n\
         |< i <= 1\n\
         [<] loop\n\
         |< acc * i\n\
         |< i + 1\n\
         |< chk <= \u{a7}i =< 10\n\
         ? [>] loop\n\
         |< acc {%}\n",
    );

    let value: i32 = 10;

    assert_eq!(output, (1..=value).fold(1, |acc, x| acc * x).to_string() + "\n")
}

#[test]
fn examples_multi_machine() {
    let output = run_src(
        "|< a <= 50\n\
         |< b <= 10\n\
         |< r <= 0\n\
         [<] loop\n\
         |< r + a\n\
         |< b - 1\n\
         |< chk <= \u{a7}b > 0\n\
         ? [>] loop\n\
         |< r {%}\n",
    );

    let a: i32 = 50;
    let b: i32 = 10;

    assert_eq!(output, (a * b).to_string() + "\n");
}

#[test]
fn examples_fizzbuzz() {
    let output = run_src(
        "|< i <= 1\n\
         [<] loop\n\
         |< s <= //\n\
         |< m <= \u{a7}i % 3\n\
         !!\n\
         |< s + /Fizz/\n\
         |< m <= \u{a7}i % 5\n\
         !!\n\
         |< s + /Buzz/\n\
         |< t <= \u{a7}s = //\n\
         |< t ??\n\
         |< i {%}\n\
         |< t !!\n\
         |< s {?%}\n\
         |< i + 1\n\
         |< c <= \u{a7}i =< 1000\n\
         ? [>] loop\n",
    );

    assert_eq!(
        output,
        (1..=1000)
            .map(|i: i32| {
                let mut string = String::with_capacity(8);
                if i % 3 == 0 {
                    string += "Fizz"
                }
                if i % 5 == 0 {
                    string += "Buzz"
                }
                if string.is_empty() {
                    string += &i.to_string()
                }
                string + "\n"
            })
            .collect::<String>()
    )
}

fn bf_source(instructions: &str, debug: &str) -> String {
    let handler = |test: char, inner: &[&str]| -> Vec<String> {
        let mut v = vec![
            "|< t".to_string(),
            "<= \u{a7}c".to_string(),
            format!("= /{}/", test),
        ];
        v.push("?".repeat(inner.len() + 1));
        v.extend(inner.iter().map(|s| s.to_string()));
        v.push("[>] step".to_string());
        v
    };

    let plus: Vec<&str> = vec![
        "|< \u{a7}ptr", "\u{b0}", "<= 0", "+ 1",
        "|< m", "<= \u{a7}\u{a7}ptr", "= 256", "??",
        "|< \u{a7}ptr", "<= 0",
        "|< pc", "+ 1",
    ];
    let minus: Vec<&str> = vec![
        "|< \u{a7}ptr", "\u{b0}", "<= 0", "- 1",
        "|< m", "<= \u{a7}\u{a7}ptr", "= -1", "??",
        "|< \u{a7}ptr", "<= 255",
        "|< pc", "+ 1",
    ];
    let right: Vec<&str> = vec!["|< ptr", "+ 1", "|< pc", "+ 1"];
    let left: Vec<&str> = vec!["|< ptr", "- 1", "|< pc", "+ 1"];
    let dot: Vec<&str> = vec!["|< \u{a7}ptr", "{?%\\}", "|< pc", "+ 1"];
    let lbracket: Vec<&str> = vec![
        "|< \u{a7}ptr", "\u{b0}", "<= 0",
        "|< m", "<= \u{a7}\u{a7}ptr",
        "???",
        "|< pc", "+ 1", "[>] step",
        "|< depth", "<= 1",
        "|< sp", "<= \u{a7}pc",
        "[<] scanf",
        "|< sp", "+ 1",
        "|< c2", "<= \u{a7}prog", "~ \u{a7}sp",
        "\u{b0}\u{b0}\u{b0}\u{b0}",
        "|< sp", "<= 999999999",
        "|< depth", "<= 0",
        "|< t2", "<= \u{a7}c2", "= /[/",
        "??",
        "|< depth", "+ 1",
        "|< t2", "<= \u{a7}c2", "= /]/",
        "??",
        "|< depth", "- 1",
        "|< t2", "<= \u{a7}depth", "> 0",
        "?",
        "[>] scanf",
        "|< pc", "<= \u{a7}sp", "+ 1",
    ];
    let rbracket: Vec<&str> = vec![
        "|< \u{a7}ptr", "\u{b0}", "<= 0",
        "|< m", "<= \u{a7}\u{a7}ptr",
        "!!!",
        "|< pc", "+ 1", "[>] step",
        "|< depth", "<= 1",
        "|< sp", "<= \u{a7}pc",
        "[<] scanb",
        "|< sp", "- 1",
        "|< c2", "<= \u{a7}prog", "~ \u{a7}sp",
        "\u{b0}\u{b0}\u{b0}\u{b0}",
        "|< sp", "<= 999999998",
        "|< depth", "<= 0",
        "|< t2", "<= \u{a7}c2", "= /]/",
        "??",
        "|< depth", "+ 1",
        "|< t2", "<= \u{a7}c2", "= /[/",
        "??",
        "|< depth", "- 1",
        "|< t2", "<= \u{a7}depth", "> 0",
        "?",
        "[>] scanb",
        "|< pc", "<= \u{a7}sp", "+ 1",
    ];
    let fallback: Vec<String> = vec!["|< pc".to_string(), "+ 1".to_string(), "[>] step".to_string()];

    let mut body: Vec<String> = Vec::new();
    body.extend(handler('+', &plus));
    body.extend(handler('-', &minus));
    body.extend(handler('>', &right));
    body.extend(handler('<', &left));
    body.extend(handler('.', &dot));
    body.extend(handler('[', &lbracket));
    body.extend(handler(']', &rbracket));
    body.extend(fallback);

    let mut program: Vec<String> = vec![
        "|< prog".to_string(),
        format!("<= /{instructions}/"),
        "|< debug".to_string(),
        format!("<= {debug}"),
        "|< pc".to_string(),
        "<= 0".to_string(),
        "|< ptr".to_string(),
        "<= 0".to_string(),
        "[<] step".to_string(),
        "|< c".to_string(),
        "<= \u{a7}prog".to_string(),
        "~ \u{a7}pc".to_string(),
        "$".repeat(body.len()),
    ];
    program.extend(body);
    program.join("\n")
}

#[test]
fn examples_brainfuck() {
    let bf = |instructions: &str, debug: bool| {
        run_src(&bf_source(instructions, &debug.to_string()))
    };

    assert_eq!(bf("+++++[>+++++++>++<<-]>.>.][", false), "#\n");

    assert_eq!(
        bf(".+[.+]", false),
        (0..=255u32).map(|i| char::from(i as u8)).collect::<String>()
    );
}

use specky::parser::Parser;
use specky::run::run;

fn run_src(src: &str) -> String {
    let mut parser = Parser::new(src);
    let parsed = parser.parse_statements().unwrap();
    run(&parsed, &Vec::new()).stdout
}

#[test]
fn features_print_test() {
    let output = run_src(r"|< ab {@}");
    assert_eq!(output, "ab\n");

    let output = run_src(r"|< ab {~@}");
    assert_eq!(output, "ba\n");

    let output = run_src(r"|< ab {@\}");
    assert_eq!(output, "ab");

    let output = run_src(r"|< ab {~@\}");
    assert_eq!(output, "ba");
}

#[test]
fn features_sequential_test() {
    let bools = ["true", "false"];
    let results = ["holy shit", "kinda sus"];
    for i in 0..bools.len() {
        let output = run_src(&format!(
            r"|< a <= {} ??? |< new <= /{}/ {{%}} |< a !!! |< old <= /{}/ {{%}}",
            bools[i], results[0], results[1]
        ));
        assert_eq!(output, format!("/{}/\n", results[i]));
    }
}

#[test]
fn reader() {
    let mut script = String::new();
    let mut expected_output = String::new();

    let numbers = 1..50usize;

    for (i, n) in numbers.clone().enumerate() {
        script += &format!("|< {n} <= {i}\n");
    }
    for n in numbers.rev() {
        for i in 0..n {
            script += &format!("|< {}{n} {{@}}\n", "\u{a7}".repeat(i));
            expected_output += &format!("{}\n", n - i);
        }
    }

    assert_eq!(run_src(&script), expected_output);
}

#[test]
fn circular_reader() {
    for size in 2..=15usize {
        let numbers: Vec<usize> = (0..size).collect();

        let mut definition = (0..size)
            .map(|a| format!("|< {} <= {}\n", numbers[a], numbers[(a + 1) % size]))
            .collect::<String>();

        let mut expected_output = String::new();

        for i in 0..(3 * size) {
            for j in 0..size {
                definition += &format!("|< {}{} {{@}}\n", "\u{a7}".repeat(i), numbers[j]);
                expected_output += &format!("{}\n", numbers[(i + j) % size]);
            }
        }

        let ran = run_src(&definition);
        assert_eq!(ran, expected_output);
    }
}

use qvm::program::{any_malformed, make_instruction, parse, render_program};
use qvm::Instruction;

fn single(gate: &str, qb: &str) -> Instruction {
    Instruction::Single(gate.to_string(), qb.to_string())
}

fn double(gate: &str, a: &str, b: &str) -> Instruction {
    Instruction::Double(gate.to_string(), a.to_string(), b.to_string())
}

#[test]
fn parse_reads_one_instruction_from_each_line() {
    assert_eq!(parse("h 0\ncnot 0 1\n"), vec![single("h", "0"), double("cnot", "0", "1")]);
    assert_eq!(parse("h 0\ncnot 0 1"), vec![single("h", "0"), double("cnot", "0", "1")]);
}

#[test]
fn parse_of_an_empty_text_is_an_empty_program() {
    assert_eq!(parse(""), Vec::<Instruction>::new());
    assert_eq!(parse("\n\n\n"), Vec::<Instruction>::new());
}

#[test]
fn parse_skips_lines_without_a_character() {
    assert_eq!(parse("\nh 0\n\n\nx 1\n\n"), vec![single("h", "0"), single("x", "1")]);
}

#[test]
fn parse_drops_a_carriage_return_at_the_end_of_a_line() {
    assert_eq!(parse("h 0\r\nx 1\r\n"), vec![single("h", "0"), single("x", "1")]);
    assert_eq!(parse("h 0\r\n\r\nx 1\r"), vec![single("h", "0"), single("x", "1")]);
    assert_eq!(parse("\r"), Vec::<Instruction>::new());
}

#[test]
fn parse_marks_other_lines_as_malformed() {
    assert_eq!(parse("h"), vec![Instruction::Malformed]);
    assert_eq!(parse("a b c d"), vec![Instruction::Malformed]);
    assert_eq!(parse(" "), vec![Instruction::Malformed]);
    assert_eq!(parse("h 0\n \nx 1"), vec![single("h", "0"), Instruction::Malformed, single("x", "1")]);
    assert_eq!(parse("\r\r"), vec![Instruction::Malformed]);
}

#[test]
fn parse_goes_by_the_number_of_words_alone() {
    assert_eq!(parse("nothing here"), vec![single("nothing", "here")]);
    assert_eq!(parse("  swap\t7   0  "), vec![double("swap", "7", "0")]);
}

#[test]
fn make_instruction_counts_words() {
    let words = |v: &[&str]| v.iter().map(|w| w.to_string()).collect::<Vec<String>>();
    assert_eq!(make_instruction(&words(&[])), Instruction::Malformed);
    assert_eq!(make_instruction(&words(&["h"])), Instruction::Malformed);
    assert_eq!(make_instruction(&words(&["h", "0"])), single("h", "0"));
    assert_eq!(make_instruction(&words(&["s", "0", "1"])), double("s", "0", "1"));
    assert_eq!(make_instruction(&words(&["s", "0", "1", "2"])), Instruction::Malformed);
}

#[test]
fn any_malformed_finds_a_malformed_instruction() {
    assert!(!any_malformed(&vec![]));
    assert!(!any_malformed(&vec![single("h", "0"), double("cnot", "0", "1")]));
    assert!(any_malformed(&vec![single("h", "0"), Instruction::Malformed]));
    assert!(any_malformed(&vec![Instruction::Malformed, single("h", "0")]));
}

#[test]
fn render_writes_one_line_for_each_instruction() {
    let program = vec![single("h", "0"), double("cnot", "0", "1")];
    assert_eq!(render_program(&program), "h 0\ncnot 0 1\n");
    assert_eq!(render_program(&vec![]), "");
}

#[test]
fn render_writes_nothing_for_a_malformed_instruction() {
    let program = vec![single("h", "0"), Instruction::Malformed, single("x", "1")];
    assert_eq!(render_program(&program), "h 0\nx 1\n");
}

#[test]
fn a_parsed_program_is_parsed_again_from_its_text() {
    let texts = ["h 0\ncnot 0 1", "  x   3 \r\n\nswap 2 7\n", "", "y 1"];
    for text in texts.iter() {
        let program = parse(text);
        assert_eq!(parse(&render_program(&program)), program);
    }
}

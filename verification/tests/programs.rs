use rustably::error::AssembleError;
use rustably::parser::Parser;

fn assemble(source: &str) -> Result<String, AssembleError> {
    Parser.handle(source)
}

#[test]
fn address_instruction_alone() {
    assert_eq!(assemble("@3"), Ok("0000000000000011\n".to_string()));
}

#[test]
fn compute_instruction_with_destination() {
    assert_eq!(assemble("D=M"), Ok("1111110000010000\n".to_string()));
}

#[test]
fn compute_instruction_with_jump() {
    assert_eq!(assemble("0;JMP"), Ok("1110101010000111\n".to_string()));
}

#[test]
fn compute_instruction_with_destination_and_jump() {
    assert_eq!(assemble("MD=M-1;JNE"), Ok("1111110010011101\n".to_string()));
}

#[test]
fn addition_program() {
    let program = assemble("@2\nD=A\n@3\nD=D+A\n@0\nM=D");
    let expected = [
        "0000000000000010",
        "1110110000010000",
        "0000000000000011",
        "1110000010010000",
        "0000000000000000",
        "1110001100001000",
    ];
    assert_eq!(program, Ok(expected.join("\n") + "\n"));
}

#[test]
fn addition_program_has_one_line_per_instruction() {
    let program = assemble("@2\nD=A\n@3\nD=D+A\n@0\nM=D").unwrap();
    let lines: Vec<&str> = program.lines().collect();
    assert_eq!(lines.len(), 6);
    assert!(lines.iter().all(|l| l.len() == 16 && l.chars().all(|c| c == '0' || c == '1')));
    assert_eq!(lines.iter().filter(|l| l.starts_with('0')).count(), 3);
    assert_eq!(lines.iter().filter(|l| l.starts_with("111")).count(), 3);
}

const MAX: &str = "// Computes R2 = max(R0, R1)
   @R0
   D=M              // D = first number
   @R1
   D=D-M            // D = first number - second number
   @OUTPUT_FIRST
   D;JGT            // if D>0 (first is greater) goto output_first
   @R1
   D=M              // D = second number
   @OUTPUT_D
   0;JMP            // goto output_d
(OUTPUT_FIRST)
   @R0
   D=M              // D = first number
(OUTPUT_D)
   @R2
   M=D              // M[2] = D (greatest number)
(INFINITE_LOOP)
   @INFINITE_LOOP
   0;JMP            // infinite loop
";

const MAX_WORDS: [&str; 16] = [
    "0000000000000000",
    "1111110000010000",
    "0000000000000001",
    "1111010011010000",
    "0000000000001010",
    "1110001100000001",
    "0000000000000001",
    "1111110000010000",
    "0000000000001100",
    "1110101010000111",
    "0000000000000000",
    "1111110000010000",
    "0000000000000010",
    "1110001100001000",
    "0000000000001110",
    "1110101010000111",
];

#[test]
fn program_with_labels() {
    assert_eq!(assemble(MAX), Ok(MAX_WORDS.join("\n") + "\n"));
}

#[test]
fn program_with_labels_and_variables() {
    let source = "// Draws a rectangle at the top-left corner of the screen.
   @0
   D=M
   @INFINITE_LOOP
   D;JLE
   @counter
   M=D
   @SCREEN
   D=A
   @address
   M=D
(LOOP)
   @address
   A=M
   M=-1
   @address
   D=M
   @32
   D=D+A
   @address
   M=D
   @counter
   MD=M-1
   @LOOP
   D;JGT
(INFINITE_LOOP)
   @INFINITE_LOOP
   0;JMP
";
    let expected = [
        "0000000000000000",
        "1111110000010000",
        "0000000000010111",
        "1110001100000110",
        "0000000000010000",
        "1110001100001000",
        "0100000000000000",
        "1110110000010000",
        "0000000000010001",
        "1110001100001000",
        "0000000000010001",
        "1111110000100000",
        "1110111010001000",
        "0000000000010001",
        "1111110000010000",
        "0000000000100000",
        "1110000010010000",
        "0000000000010001",
        "1110001100001000",
        "0000000000010000",
        "1111110010011000",
        "0000000000001010",
        "1110001100000001",
        "0000000000010111",
        "1110101010000111",
    ];
    assert_eq!(assemble(source), Ok(expected.join("\n") + "\n"));
}

#[test]
fn carriage_returns_are_whitespace() {
    assert_eq!(assemble(&MAX.replace('\n', "\r\n")), Ok(MAX_WORDS.join("\n") + "\n"));
}

#[test]
fn empty_source_gives_empty_program() {
    assert_eq!(assemble(""), Ok(String::new()));
    assert_eq!(assemble("\n\n"), Ok(String::new()));
    assert_eq!(assemble("// nothing here\n"), Ok(String::new()));
}

#[test]
fn same_source_same_program() {
    let first = assemble(MAX);
    let second = assemble(MAX);
    assert!(first.is_ok());
    assert_eq!(first, second);
    assert_eq!(assemble("@1\nD=Q"), assemble("@1\nD=Q"));
}

#[test]
fn runs_do_not_share_a_table() {
    let first = assemble("@first\n@second");
    let second = assemble("@second\n@first");
    assert_eq!(first, Ok("0000000000010000\n0000000000010001\n".to_string()));
    assert_eq!(first, second);
}

#[test]
fn forward_reference_resolves_to_the_label() {
    let program = assemble("@END\n0;JMP\n@5\nD=A\n(END)\n@END\n0;JMP");
    let expected = [
        "0000000000000100",
        "1110101010000111",
        "0000000000000101",
        "1110110000010000",
        "0000000000000100",
        "1110101010000111",
    ];
    assert_eq!(program, Ok(expected.join("\n") + "\n"));
}

#[test]
fn label_before_first_instruction_is_zero() {
    assert_eq!(
        assemble("(START)\n@START\n0;JMP"),
        Ok("0000000000000000\n1110101010000111\n".to_string())
    );
}

#[test]
fn label_after_last_instruction() {
    assert_eq!(
        assemble("@END\n0;JMP\n(END)"),
        Ok("0000000000000010\n1110101010000111\n".to_string())
    );
}

#[test]
fn variables_get_slots_in_order_of_first_use() {
    let program = assemble("@i\n@sum\n@i\n@sum\n@third\n@i");
    let expected = [
        "0000000000010000",
        "0000000000010001",
        "0000000000010000",
        "0000000000010001",
        "0000000000010010",
        "0000000000010000",
    ];
    assert_eq!(program, Ok(expected.join("\n") + "\n"));
}

#[test]
fn labels_take_no_variable_slot() {
    let program = assemble("@LOOP\n@x\n(LOOP)\n@y");
    let expected = ["0000000000000010", "0000000000010000", "0000000000010001"];
    assert_eq!(program, Ok(expected.join("\n") + "\n"));
}

#[test]
fn blank_lines_and_comments_change_nothing() {
    let plain = assemble("@2\nD=A\n(L)\n@L\n0;JMP");
    let padded = assemble(
        "\n// header\n@2\n\n   \n  // indented comment\nD=A // trailing\n//\n(L)\n\t\n@L\n//(X)\n0;JMP\n// @5\n",
    );
    assert!(plain.is_ok());
    assert_eq!(plain, padded);
}

#[test]
fn comment_before_label_does_not_move_it() {
    let program = assemble("// first\n@1\n// second\n(HERE)\n// third\n@HERE");
    assert_eq!(program, Ok("0000000000000001\n0000000000000001\n".to_string()));
}

#[test]
fn comment_marker_without_text_is_a_comment() {
    assert_eq!(assemble("D=M//"), Ok("1111110000010000\n".to_string()));
    assert_eq!(assemble("D=M //"), Ok("1111110000010000\n".to_string()));
    assert_eq!(assemble("//"), Ok(String::new()));
}

#[test]
fn seeded_names_resolve_without_declaration() {
    let source = "@SP\n@LCL\n@ARG\n@THIS\n@THAT\n@SCREEN\n@KBD";
    let expected = [
        "0000000000000000",
        "0000000000000001",
        "0000000000000010",
        "0000000000000011",
        "0000000000000100",
        "0100000000000000",
        "0110000000000000",
    ];
    assert_eq!(assemble(source), Ok(expected.join("\n") + "\n"));
}

#[test]
fn registers_resolve_to_their_ordinals() {
    for n in 0..16u16 {
        let source = format!("@R{}", n);
        assert_eq!(assemble(&source), Ok(format!("{:016b}\n", n)));
    }
}

#[test]
fn numeric_operands_encode_as_themselves() {
    for n in [0u16, 1, 2, 9, 10, 15, 16, 255, 256, 1000, 16384, 24576, 32766, 32767] {
        let source = format!("@{}", n);
        assert_eq!(assemble(&source), Ok(format!("{:016b}\n", n)));
    }
}

#[test]
fn every_numeric_operand_encodes_as_itself() {
    let mut source = String::new();
    let mut expected = String::new();
    for n in 0..=32767u16 {
        source.push_str(&format!("@{}\n", n));
        expected.push_str(&format!("{:016b}\n", n));
    }
    assert_eq!(assemble(&source), Ok(expected));
}

#[test]
fn leading_zeros_do_not_matter() {
    assert_eq!(assemble("@007"), Ok("0000000000000111\n".to_string()));
    assert_eq!(assemble("@0000000000000000000000032767"), Ok("0111111111111111\n".to_string()));
}

#[test]
fn explicit_plus_sign_is_a_numeral() {
    assert_eq!(assemble("@+5"), Ok("0000000000000101\n".to_string()));
}

#[test]
fn largest_label_address() {
    let mut source = "D=A\n".repeat(32767);
    source.push_str("(LAST)\n@LAST\n");
    let program = assemble(&source).unwrap();
    assert_eq!(program.lines().count(), 32768);
    assert_eq!(program.lines().last(), Some("0111111111111111"));
}

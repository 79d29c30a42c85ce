use regex::Regex;
use rustably::binary::{binary_word, MAX_ADDRESS};
use rustably::error::AssembleError;
use rustably::instruction::{address, address_word, compute, kind, strip_sigils, translate};
use rustably::parser::utils::CommandType;
use rustably::parser::Parser;
use rustably::symbols::{SymbolTable, FIRST_VARIABLE};
use rustably::tables::{comp_bits, dest_bits, jump_bits, spells};

fn chars(s: &str) -> Vec<char> {
    s.chars().collect()
}

#[test]
fn binary_word_of_small_numbers() {
    assert_eq!(binary_word(0), "0000000000000000");
    assert_eq!(binary_word(1), "0000000000000001");
    assert_eq!(binary_word(2), "0000000000000010");
    assert_eq!(binary_word(3), "0000000000000011");
    assert_eq!(binary_word(16), "0000000000010000");
}

#[test]
fn binary_word_of_large_numbers() {
    assert_eq!(binary_word(16384), "0100000000000000");
    assert_eq!(binary_word(24576), "0110000000000000");
    assert_eq!(binary_word(MAX_ADDRESS), "0111111111111111");
    assert_eq!(binary_word(32768), "1000000000000000");
    assert_eq!(binary_word(43690), "1010101010101010");
    assert_eq!(binary_word(u16::MAX), "1111111111111111");
}

#[test]
fn binary_word_denotes_its_number() {
    for n in 0..=u16::MAX {
        let w = binary_word(n);
        assert_eq!(w.len(), 16);
        assert_eq!(u16::from_str_radix(&w, 2), Ok(n));
    }
}

#[test]
fn limits_of_the_address_space() {
    assert_eq!(MAX_ADDRESS, 32767);
    assert_eq!(FIRST_VARIABLE, 16);
}

#[test]
fn decode_command_type_by_first_character() {
    assert_eq!(Parser.decode_command_type("@R0"), CommandType::ACOMMAND);
    assert_eq!(Parser.decode_command_type("@"), CommandType::ACOMMAND);
    assert_eq!(Parser.decode_command_type("(LOOP)"), CommandType::LCOMMAND);
    assert_eq!(Parser.decode_command_type("("), CommandType::LCOMMAND);
    assert_eq!(Parser.decode_command_type("D=M"), CommandType::CCOMMAND);
    assert_eq!(Parser.decode_command_type("0;JMP"), CommandType::CCOMMAND);
    assert_eq!(Parser.decode_command_type("anything else"), CommandType::CCOMMAND);
    assert_eq!(Parser.decode_command_type(")"), CommandType::CCOMMAND);
    assert_eq!(Parser.decode_command_type(""), CommandType::NOCOMMAND);
}

#[test]
fn decode_command_type_ignores_whitespace_and_comments() {
    assert_eq!(Parser.decode_command_type("   "), CommandType::NOCOMMAND);
    assert_eq!(Parser.decode_command_type("\t\r"), CommandType::NOCOMMAND);
    assert_eq!(Parser.decode_command_type("// comment"), CommandType::NOCOMMAND);
    assert_eq!(Parser.decode_command_type("   // comment"), CommandType::NOCOMMAND);
    assert_eq!(Parser.decode_command_type("//"), CommandType::NOCOMMAND);
    assert_eq!(Parser.decode_command_type("//@R0"), CommandType::NOCOMMAND);
    assert_eq!(Parser.decode_command_type("  @R0 // load"), CommandType::ACOMMAND);
    assert_eq!(Parser.decode_command_type("  (LOOP) // top"), CommandType::LCOMMAND);
    assert_eq!(Parser.decode_command_type("  D=M // load"), CommandType::CCOMMAND);
    assert_eq!(Parser.decode_command_type("/ one slash"), CommandType::CCOMMAND);
}

#[test]
fn decode_command_type_takes_a_string_reference() {
    let line = String::from("@R0");
    assert_eq!(Parser.decode_command_type(&line), CommandType::ACOMMAND);
}

#[test]
fn kind_of_a_normalized_line() {
    assert_eq!(kind(&chars("@1")), CommandType::ACOMMAND);
    assert_eq!(kind(&chars("(A)")), CommandType::LCOMMAND);
    assert_eq!(kind(&chars("A")), CommandType::CCOMMAND);
    assert_eq!(kind(&chars(" @1")), CommandType::CCOMMAND);
    assert_eq!(kind(&chars("")), CommandType::NOCOMMAND);
}

#[test]
fn symbol_strips_sigils_at_the_ends() {
    assert_eq!(Parser.symbol("@R0"), "R0");
    assert_eq!(Parser.symbol("@123"), "123");
    assert_eq!(Parser.symbol("(LOOP)"), "LOOP");
    assert_eq!(Parser.symbol("(LOOP"), "LOOP");
    assert_eq!(Parser.symbol("()"), "");
    assert_eq!(Parser.symbol("("), "");
    assert_eq!(Parser.symbol("@"), "");
    assert_eq!(Parser.symbol("D=M"), "D=M");
    assert_eq!(Parser.symbol(""), "");
}

#[test]
fn symbol_keeps_sigils_inside() {
    assert_eq!(Parser.symbol("@a@b"), "a@b");
    assert_eq!(Parser.symbol("@(x)"), "(x)");
    assert_eq!(Parser.symbol("(a(b)c)"), "a(b)c");
    assert_eq!(Parser.symbol("(a))"), "a)");
    assert_eq!(Parser.symbol("x)"), "x)");
}

#[test]
fn symbol_agrees_with_the_sigil_pattern() {
    let sigils = Regex::new(r"[@\(\)]").unwrap();
    for line in ["@R0", "@i", "@123", "(LOOP)", "(OUTPUT_FIRST)", "@sys.init$0", "(a_b.c:d)"] {
        assert_eq!(Parser.symbol(line), sigils.replace_all(line, "").to_string());
        assert_eq!(
            chars(&sigils.replace_all(line, "")),
            strip_sigils(&chars(line)).to_vec()
        );
    }
}

#[test]
fn handle_l_command_gives_the_label() {
    assert_eq!(Parser.handle_l_command("(LOOP)"), "LOOP");
    assert_eq!(Parser.handle_l_command("( LOOP )"), "LOOP");
    assert_eq!(Parser.handle_l_command("(END"), "END");
    assert_eq!(Parser.handle_l_command("()"), "");
}

#[test]
fn handle_l_command_agrees_with_the_delimiter_pattern() {
    let delimiters = Regex::new(r"\(|\)").unwrap();
    for line in ["(LOOP)", "(OUTPUT_FIRST)", "( padded )", "(x.y$z)"] {
        let expected = delimiters.replace_all(line, "").trim().to_string();
        assert_eq!(Parser.handle_l_command(line), expected);
    }
}

#[test]
fn handle_a_command_with_numbers() {
    let mut table = SymbolTable::new();
    assert_eq!(Parser.handle_a_command("@3", &mut table), Ok("0000000000000011".to_string()));
    assert_eq!(Parser.handle_a_command("@0", &mut table), Ok("0000000000000000".to_string()));
    assert_eq!(Parser.handle_a_command("@32767", &mut table), Ok("0111111111111111".to_string()));
    assert_eq!(Parser.handle_a_command("@-0", &mut table), Ok("0000000000000000".to_string()));
    assert_eq!(Parser.handle_a_command("@32768", &mut table), Err(AssembleError::Symbol));
    assert_eq!(Parser.handle_a_command("@-3", &mut table), Err(AssembleError::Symbol));
}

#[test]
fn handle_a_command_with_names() {
    let mut table = SymbolTable::new();
    assert_eq!(Parser.handle_a_command("@R7", &mut table), Ok("0000000000000111".to_string()));
    assert_eq!(Parser.handle_a_command("@i", &mut table), Ok("0000000000010000".to_string()));
    assert_eq!(Parser.handle_a_command("@j", &mut table), Ok("0000000000010001".to_string()));
    assert_eq!(Parser.handle_a_command("@i", &mut table), Ok("0000000000010000".to_string()));
    assert_eq!(Parser.handle_a_command("@KBD", &mut table), Ok("0110000000000000".to_string()));
    assert_eq!(Parser.handle_a_command("@k", &mut table), Ok("0000000000010010".to_string()));
}

#[test]
fn handle_a_command_with_names_that_look_like_numbers() {
    let mut table = SymbolTable::new();
    assert_eq!(Parser.handle_a_command("@1x", &mut table), Ok("0000000000010000".to_string()));
    assert_eq!(Parser.handle_a_command("@-", &mut table), Ok("0000000000010001".to_string()));
    assert_eq!(Parser.handle_a_command("@+", &mut table), Ok("0000000000010010".to_string()));
    assert_eq!(Parser.handle_a_command("@1 2", &mut table), Ok("0000000000010011".to_string()));
    assert_eq!(Parser.handle_a_command("@--1", &mut table), Ok("0000000000010100".to_string()));
    assert_eq!(Parser.handle_a_command("@1x", &mut table), Ok("0000000000010000".to_string()));
}

#[test]
fn address_of_an_operand() {
    let mut table = SymbolTable::new();
    assert_eq!(address(&chars("42"), &mut table), Ok(42));
    assert_eq!(address(&chars("SCREEN"), &mut table), Ok(16384));
    assert_eq!(address(&chars("x"), &mut table), Ok(16));
    assert_eq!(address(&chars(""), &mut table), Err(AssembleError::Syntax));
    assert_eq!(address(&chars("32768"), &mut table), Err(AssembleError::Symbol));
    assert_eq!(address_word(&chars("@x"), &mut table), Ok("0000000000010000".to_string()));
}

#[test]
fn handle_c_command_splits_the_fields() {
    assert_eq!(Parser.handle_c_command("D=M"), Ok("1111110000010000".to_string()));
    assert_eq!(Parser.handle_c_command("0;JMP"), Ok("1110101010000111".to_string()));
    assert_eq!(Parser.handle_c_command("D"), Ok("1110001100000000".to_string()));
    assert_eq!(Parser.handle_c_command("AMD=D|M;JLE"), Ok("1111010101111110".to_string()));
    assert_eq!(Parser.handle_c_command("D;"), Ok("1110001100000000".to_string()));
    assert_eq!(Parser.handle_c_command("=D"), Ok("1110001100000000".to_string()));
    assert_eq!(compute(&chars("A=-1")), Ok("1110111010100000".to_string()));
}

#[test]
fn handle_c_command_sets_the_memory_bit() {
    for (line, bit) in [("D=A", '0'), ("D=M", '1'), ("D=D+A", '0'), ("D=D+M", '1'), ("M=D", '0'), ("M=M+1", '1')] {
        let word = Parser.handle_c_command(line).unwrap();
        assert_eq!(word.chars().nth(3), Some(bit), "{}", line);
    }
}

#[test]
fn handle_c_command_rejects_what_no_table_holds() {
    assert_eq!(Parser.handle_c_command("D=Q"), Err(AssembleError::Syntax));
    assert_eq!(Parser.handle_c_command("Q=D"), Err(AssembleError::Syntax));
    assert_eq!(Parser.handle_c_command("D;JJJ"), Err(AssembleError::Syntax));
    assert_eq!(Parser.handle_c_command(""), Err(AssembleError::Syntax));
    assert_eq!(Parser.handle_c_command("D=M "), Err(AssembleError::Syntax));
    assert_eq!(Parser.handle_c_command("M=D=A"), Err(AssembleError::Syntax));
}

#[test]
fn resolve_jump_table() {
    let table = [
        ("", "000"), ("JGT", "001"), ("JEQ", "010"), ("JGE", "011"), ("JLT", "100"),
        ("JNE", "101"), ("JLE", "110"), ("JMP", "111"),
    ];
    for (mnemonic, bits) in table {
        assert_eq!(Parser.resolve_jump(mnemonic), Ok(bits));
        assert_eq!(jump_bits(&chars(mnemonic)), Some(bits));
    }
    for other in ["J", "JM", "JMPP", "jmp", "JGT ", " JGT", "D", "0"] {
        assert_eq!(Parser.resolve_jump(other), Err(AssembleError::Syntax));
        assert_eq!(jump_bits(&chars(other)), None);
    }
}

#[test]
fn resolve_dest_table() {
    let table = [
        ("", "000"), ("M", "001"), ("D", "010"), ("MD", "011"), ("A", "100"), ("AM", "101"),
        ("AD", "110"), ("AMD", "111"),
    ];
    for (mnemonic, bits) in table {
        assert_eq!(Parser.resolve_dest(mnemonic), Ok(bits));
        assert_eq!(dest_bits(&chars(mnemonic)), Some(bits));
    }
    for other in ["DM", "MA", "DA", "ADM", "AMDD", "m", "X", " M", "0"] {
        assert_eq!(Parser.resolve_dest(other), Err(AssembleError::Syntax));
        assert_eq!(dest_bits(&chars(other)), None);
    }
}

#[test]
fn resolve_comp_table() {
    let table = [
        ("0", "101010"), ("1", "111111"), ("-1", "111010"), ("D", "001100"), ("A", "110000"),
        ("M", "110000"), ("!D", "001101"), ("!A", "110001"), ("!M", "110001"), ("-D", "001111"),
        ("-A", "110011"), ("-M", "110011"), ("D+1", "011111"), ("A+1", "110111"),
        ("M+1", "110111"), ("D-1", "001110"), ("A-1", "110010"), ("M-1", "110010"),
        ("D+A", "000010"), ("D+M", "000010"), ("D-A", "010011"), ("D-M", "010011"),
        ("A-D", "000111"), ("M-D", "000111"), ("D&A", "000000"), ("D&M", "000000"),
        ("D|A", "010101"), ("D|M", "010101"),
    ];
    assert_eq!(table.len(), 28);
    for (mnemonic, bits) in table {
        assert_eq!(Parser.resolve_comp(mnemonic), Ok(bits));
        assert_eq!(comp_bits(&chars(mnemonic)), Some(bits));
    }
    for other in ["", "2", "A+D", "M+D", "1+D", "D+D", "A&D", "D+1 ", "d", "+1", "!1", "A+M", "D + 1"] {
        assert_eq!(Parser.resolve_comp(other), Err(AssembleError::Syntax));
        assert_eq!(comp_bits(&chars(other)), None);
    }
}

#[test]
fn spells_compares_whole_words() {
    assert!(spells(&chars("JMP"), "JMP"));
    assert!(spells(&chars(""), ""));
    assert!(!spells(&chars("JMP"), "JM"));
    assert!(!spells(&chars("JM"), "JMP"));
    assert!(!spells(&chars("JMP"), "JMQ"));
    assert!(!spells(&chars(""), "J"));
    assert!(!spells(&chars("J"), ""));
}

#[test]
fn parse_gives_a_word_for_an_instruction_only() {
    let mut table = SymbolTable::new();
    assert_eq!(Parser.parse("  @5 // five", &mut table), Ok(Some("0000000000000101".to_string())));
    assert_eq!(Parser.parse("  D=M // load", &mut table), Ok(Some("1111110000010000".to_string())));
    assert_eq!(Parser.parse("(LOOP)", &mut table), Ok(None));
    assert_eq!(Parser.parse("// comment", &mut table), Ok(None));
    assert_eq!(Parser.parse("", &mut table), Ok(None));
    assert_eq!(Parser.parse("   ", &mut table), Ok(None));
    assert_eq!(translate(&chars(" @x "), &mut table), Ok(Some("0000000000010000".to_string())));
}

#[test]
fn passes_can_be_run_one_by_one() {
    let source = "@x\n(HERE)\n@HERE\n@y";
    let mut table = Parser.collect_labels(source).unwrap();
    assert_eq!(table.lookup("HERE"), Some(1));
    assert_eq!(table.lookup("x"), None);
    let program = Parser.encode(source, &mut table);
    assert_eq!(
        program,
        Ok("0000000000010000\n0000000000000001\n0000000000010001\n".to_string())
    );
    assert_eq!(table.lookup("x"), Some(16));
    assert_eq!(table.lookup("y"), Some(17));
}

#[test]
fn first_pass_counts_instructions_only() {
    let source = "// c\n\n(A)\n@1\n   \n(B)\nD=M // x\n(C)\n//\n(D)";
    let table = Parser.collect_labels(source).unwrap();
    assert_eq!(table.lookup("A"), Some(0));
    assert_eq!(table.lookup("B"), Some(1));
    assert_eq!(table.lookup("C"), Some(2));
    assert_eq!(table.lookup("D"), Some(2));
}

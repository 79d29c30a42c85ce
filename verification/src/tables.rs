//! The fixed mnemonic tables of the compute-instruction.

use vstd::prelude::*;
use vstd::string::*;
use crate::binary::is_bits;

verus! {

/// The jump mnemonics and their three bits. The empty mnemonic stands for
/// an instruction without a jump.
pub open spec fn jump_table() -> Map<Seq<char>, Seq<char>> {
    map![
        ""@ => "000"@,
        "JGT"@ => "001"@,
        "JEQ"@ => "010"@,
        "JGE"@ => "011"@,
        "JLT"@ => "100"@,
        "JNE"@ => "101"@,
        "JLE"@ => "110"@,
        "JMP"@ => "111"@,
    ]
}

/// The destination mnemonics and their three bits. The empty mnemonic
/// stands for an instruction that stores nothing.
pub open spec fn dest_table() -> Map<Seq<char>, Seq<char>> {
    map![
        ""@ => "000"@,
        "M"@ => "001"@,
        "D"@ => "010"@,
        "MD"@ => "011"@,
        "A"@ => "100"@,
        "AM"@ => "101"@,
        "AD"@ => "110"@,
        "AMD"@ => "111"@,
    ]
}

/// The computation mnemonics and their six bits.
pub open spec fn comp_table() -> Map<Seq<char>, Seq<char>> {
    map![
        "0"@ => "101010"@,
        "1"@ => "111111"@,
        "-1"@ => "111010"@,
        "D"@ => "001100"@,
        "A"@ => "110000"@,
        "M"@ => "110000"@,
        "!D"@ => "001101"@,
        "!A"@ => "110001"@,
        "!M"@ => "110001"@,
        "-D"@ => "001111"@,
        "-A"@ => "110011"@,
        "-M"@ => "110011"@,
        "D+1"@ => "011111"@,
        "A+1"@ => "110111"@,
        "M+1"@ => "110111"@,
        "D-1"@ => "001110"@,
        "A-1"@ => "110010"@,
        "M-1"@ => "110010"@,
        "D+A"@ => "000010"@,
        "D+M"@ => "000010"@,
        "D-A"@ => "010011"@,
        "D-M"@ => "010011"@,
        "A-D"@ => "000111"@,
        "M-D"@ => "000111"@,
        "D&A"@ => "000000"@,
        "D&M"@ => "000000"@,
        "D|A"@ => "010101"@,
        "D|M"@ => "010101"@,
    ]
}

/// The jump table read entry by entry: what each of its mnemonics maps to,
/// and that it holds no other mnemonic.
pub proof fn lemma_jump_table()
    ensures
        jump_table().contains_key(""@) && jump_table()[""@] == "000"@,
        jump_table().contains_key("JGT"@) && jump_table()["JGT"@] == "001"@,
        jump_table().contains_key("JEQ"@) && jump_table()["JEQ"@] == "010"@,
        jump_table().contains_key("JGE"@) && jump_table()["JGE"@] == "011"@,
        jump_table().contains_key("JLT"@) && jump_table()["JLT"@] == "100"@,
        jump_table().contains_key("JNE"@) && jump_table()["JNE"@] == "101"@,
        jump_table().contains_key("JLE"@) && jump_table()["JLE"@] == "110"@,
        jump_table().contains_key("JMP"@) && jump_table()["JMP"@] == "111"@,
        forall|m: Seq<char>| #[trigger]
            jump_table().contains_key(m) ==> {
                ||| m == ""@
                ||| m == "JGT"@
                ||| m == "JEQ"@
                ||| m == "JGE"@
                ||| m == "JLT"@
                ||| m == "JNE"@
                ||| m == "JLE"@
                ||| m == "JMP"@
            },
{
    reveal_strlit("");
    reveal_strlit("JGT");
    reveal_strlit("JEQ");
    reveal_strlit("JGE");
    reveal_strlit("JLT");
    reveal_strlit("JNE");
    reveal_strlit("JLE");
    reveal_strlit("JMP");
    assert(""@.len() == 0);
    assert("JGT"@.len() == 3 && "JGT"@[0] == 'J' && "JGT"@[1] == 'G' && "JGT"@[2] == 'T');
    assert("JEQ"@.len() == 3 && "JEQ"@[0] == 'J' && "JEQ"@[1] == 'E' && "JEQ"@[2] == 'Q');
    assert("JGE"@.len() == 3 && "JGE"@[0] == 'J' && "JGE"@[1] == 'G' && "JGE"@[2] == 'E');
    assert("JLT"@.len() == 3 && "JLT"@[0] == 'J' && "JLT"@[1] == 'L' && "JLT"@[2] == 'T');
    assert("JNE"@.len() == 3 && "JNE"@[0] == 'J' && "JNE"@[1] == 'N' && "JNE"@[2] == 'E');
    assert("JLE"@.len() == 3 && "JLE"@[0] == 'J' && "JLE"@[1] == 'L' && "JLE"@[2] == 'E');
    assert("JMP"@.len() == 3 && "JMP"@[0] == 'J' && "JMP"@[1] == 'M' && "JMP"@[2] == 'P');
}

/// The destination table read entry by entry: what each of its mnemonics maps to,
/// and that it holds no other mnemonic.
pub proof fn lemma_dest_table()
    ensures
        dest_table().contains_key(""@) && dest_table()[""@] == "000"@,
        dest_table().contains_key("M"@) && dest_table()["M"@] == "001"@,
        dest_table().contains_key("D"@) && dest_table()["D"@] == "010"@,
        dest_table().contains_key("MD"@) && dest_table()["MD"@] == "011"@,
        dest_table().contains_key("A"@) && dest_table()["A"@] == "100"@,
        dest_table().contains_key("AM"@) && dest_table()["AM"@] == "101"@,
        dest_table().contains_key("AD"@) && dest_table()["AD"@] == "110"@,
        dest_table().contains_key("AMD"@) && dest_table()["AMD"@] == "111"@,
        forall|m: Seq<char>| #[trigger]
            dest_table().contains_key(m) ==> {
                ||| m == ""@
                ||| m == "M"@
                ||| m == "D"@
                ||| m == "MD"@
                ||| m == "A"@
                ||| m == "AM"@
                ||| m == "AD"@
                ||| m == "AMD"@
            },
{
    reveal_strlit("");
    reveal_strlit("M");
    reveal_strlit("D");
    reveal_strlit("MD");
    reveal_strlit("A");
    reveal_strlit("AM");
    reveal_strlit("AD");
    reveal_strlit("AMD");
    assert(""@.len() == 0);
    assert("M"@.len() == 1 && "M"@[0] == 'M');
    assert("D"@.len() == 1 && "D"@[0] == 'D');
    assert("MD"@.len() == 2 && "MD"@[0] == 'M' && "MD"@[1] == 'D');
    assert("A"@.len() == 1 && "A"@[0] == 'A');
    assert("AM"@.len() == 2 && "AM"@[0] == 'A' && "AM"@[1] == 'M');
    assert("AD"@.len() == 2 && "AD"@[0] == 'A' && "AD"@[1] == 'D');
    assert("AMD"@.len() == 3 && "AMD"@[0] == 'A' && "AMD"@[1] == 'M' && "AMD"@[2] == 'D');
}

/// The computation table read entry by entry: what each of its mnemonics maps to,
/// and that it holds no other mnemonic.
pub proof fn lemma_comp_table()
    ensures
        comp_table().contains_key("0"@) && comp_table()["0"@] == "101010"@,
        comp_table().contains_key("1"@) && comp_table()["1"@] == "111111"@,
        comp_table().contains_key("-1"@) && comp_table()["-1"@] == "111010"@,
        comp_table().contains_key("D"@) && comp_table()["D"@] == "001100"@,
        comp_table().contains_key("A"@) && comp_table()["A"@] == "110000"@,
        comp_table().contains_key("M"@) && comp_table()["M"@] == "110000"@,
        comp_table().contains_key("!D"@) && comp_table()["!D"@] == "001101"@,
        comp_table().contains_key("!A"@) && comp_table()["!A"@] == "110001"@,
        comp_table().contains_key("!M"@) && comp_table()["!M"@] == "110001"@,
        comp_table().contains_key("-D"@) && comp_table()["-D"@] == "001111"@,
        comp_table().contains_key("-A"@) && comp_table()["-A"@] == "110011"@,
        comp_table().contains_key("-M"@) && comp_table()["-M"@] == "110011"@,
        comp_table().contains_key("D+1"@) && comp_table()["D+1"@] == "011111"@,
        comp_table().contains_key("A+1"@) && comp_table()["A+1"@] == "110111"@,
        comp_table().contains_key("M+1"@) && comp_table()["M+1"@] == "110111"@,
        comp_table().contains_key("D-1"@) && comp_table()["D-1"@] == "001110"@,
        comp_table().contains_key("A-1"@) && comp_table()["A-1"@] == "110010"@,
        comp_table().contains_key("M-1"@) && comp_table()["M-1"@] == "110010"@,
        comp_table().contains_key("D+A"@) && comp_table()["D+A"@] == "000010"@,
        comp_table().contains_key("D+M"@) && comp_table()["D+M"@] == "000010"@,
        comp_table().contains_key("D-A"@) && comp_table()["D-A"@] == "010011"@,
        comp_table().contains_key("D-M"@) && comp_table()["D-M"@] == "010011"@,
        comp_table().contains_key("A-D"@) && comp_table()["A-D"@] == "000111"@,
        comp_table().contains_key("M-D"@) && comp_table()["M-D"@] == "000111"@,
        comp_table().contains_key("D&A"@) && comp_table()["D&A"@] == "000000"@,
        comp_table().contains_key("D&M"@) && comp_table()["D&M"@] == "000000"@,
        comp_table().contains_key("D|A"@) && comp_table()["D|A"@] == "010101"@,
        comp_table().contains_key("D|M"@) && comp_table()["D|M"@] == "010101"@,
        forall|m: Seq<char>| #[trigger]
            comp_table().contains_key(m) ==> {
                ||| m == "0"@
                ||| m == "1"@
                ||| m == "-1"@
                ||| m == "D"@
                ||| m == "A"@
                ||| m == "M"@
                ||| m == "!D"@
                ||| m == "!A"@
                ||| m == "!M"@
                ||| m == "-D"@
                ||| m == "-A"@
                ||| m == "-M"@
                ||| m == "D+1"@
                ||| m == "A+1"@
                ||| m == "M+1"@
                ||| m == "D-1"@
                ||| m == "A-1"@
                ||| m == "M-1"@
                ||| m == "D+A"@
                ||| m == "D+M"@
                ||| m == "D-A"@
                ||| m == "D-M"@
                ||| m == "A-D"@
                ||| m == "M-D"@
                ||| m == "D&A"@
                ||| m == "D&M"@
                ||| m == "D|A"@
                ||| m == "D|M"@
            },
{
    reveal_strlit("0");
    reveal_strlit("1");
    reveal_strlit("-1");
    reveal_strlit("D");
    reveal_strlit("A");
    reveal_strlit("M");
    reveal_strlit("!D");
    reveal_strlit("!A");
    reveal_strlit("!M");
    reveal_strlit("-D");
    reveal_strlit("-A");
    reveal_strlit("-M");
    reveal_strlit("D+1");
    reveal_strlit("A+1");
    reveal_strlit("M+1");
    reveal_strlit("D-1");
    reveal_strlit("A-1");
    reveal_strlit("M-1");
    reveal_strlit("D+A");
    reveal_strlit("D+M");
    reveal_strlit("D-A");
    reveal_strlit("D-M");
    reveal_strlit("A-D");
    reveal_strlit("M-D");
    reveal_strlit("D&A");
    reveal_strlit("D&M");
    reveal_strlit("D|A");
    reveal_strlit("D|M");
    assert("0"@.len() == 1 && "0"@[0] == '0');
    assert("1"@.len() == 1 && "1"@[0] == '1');
    assert("-1"@.len() == 2 && "-1"@[0] == '-' && "-1"@[1] == '1');
    assert("D"@.len() == 1 && "D"@[0] == 'D');
    assert("A"@.len() == 1 && "A"@[0] == 'A');
    assert("M"@.len() == 1 && "M"@[0] == 'M');
    assert("!D"@.len() == 2 && "!D"@[0] == '!' && "!D"@[1] == 'D');
    assert("!A"@.len() == 2 && "!A"@[0] == '!' && "!A"@[1] == 'A');
    assert("!M"@.len() == 2 && "!M"@[0] == '!' && "!M"@[1] == 'M');
    assert("-D"@.len() == 2 && "-D"@[0] == '-' && "-D"@[1] == 'D');
    assert("-A"@.len() == 2 && "-A"@[0] == '-' && "-A"@[1] == 'A');
    assert("-M"@.len() == 2 && "-M"@[0] == '-' && "-M"@[1] == 'M');
    assert("D+1"@.len() == 3 && "D+1"@[0] == 'D' && "D+1"@[1] == '+' && "D+1"@[2] == '1');
    assert("A+1"@.len() == 3 && "A+1"@[0] == 'A' && "A+1"@[1] == '+' && "A+1"@[2] == '1');
    assert("M+1"@.len() == 3 && "M+1"@[0] == 'M' && "M+1"@[1] == '+' && "M+1"@[2] == '1');
    assert("D-1"@.len() == 3 && "D-1"@[0] == 'D' && "D-1"@[1] == '-' && "D-1"@[2] == '1');
    assert("A-1"@.len() == 3 && "A-1"@[0] == 'A' && "A-1"@[1] == '-' && "A-1"@[2] == '1');
    assert("M-1"@.len() == 3 && "M-1"@[0] == 'M' && "M-1"@[1] == '-' && "M-1"@[2] == '1');
    assert("D+A"@.len() == 3 && "D+A"@[0] == 'D' && "D+A"@[1] == '+' && "D+A"@[2] == 'A');
    assert("D+M"@.len() == 3 && "D+M"@[0] == 'D' && "D+M"@[1] == '+' && "D+M"@[2] == 'M');
    assert("D-A"@.len() == 3 && "D-A"@[0] == 'D' && "D-A"@[1] == '-' && "D-A"@[2] == 'A');
    assert("D-M"@.len() == 3 && "D-M"@[0] == 'D' && "D-M"@[1] == '-' && "D-M"@[2] == 'M');
    assert("A-D"@.len() == 3 && "A-D"@[0] == 'A' && "A-D"@[1] == '-' && "A-D"@[2] == 'D');
    assert("M-D"@.len() == 3 && "M-D"@[0] == 'M' && "M-D"@[1] == '-' && "M-D"@[2] == 'D');
    assert("D&A"@.len() == 3 && "D&A"@[0] == 'D' && "D&A"@[1] == '&' && "D&A"@[2] == 'A');
    assert("D&M"@.len() == 3 && "D&M"@[0] == 'D' && "D&M"@[1] == '&' && "D&M"@[2] == 'M');
    assert("D|A"@.len() == 3 && "D|A"@[0] == 'D' && "D|A"@[1] == '|' && "D|A"@[2] == 'A');
    assert("D|M"@.len() == 3 && "D|M"@[0] == 'D' && "D|M"@[1] == '|' && "D|M"@[2] == 'M');
}

/// Every entry of the jump table is a group of 3 binary digits.
pub proof fn lemma_jump_bits(m: Seq<char>)
    requires
        jump_table().contains_key(m),
    ensures
        is_bits(jump_table()[m], 3),
{
    lemma_jump_table();
    reveal_strlit("000");
    reveal_strlit("001");
    reveal_strlit("010");
    reveal_strlit("011");
    reveal_strlit("100");
    reveal_strlit("101");
    reveal_strlit("110");
    reveal_strlit("111");
    assert("000"@.len() == 3 && "000"@[0] == '0' && "000"@[1] == '0' && "000"@[2] == '0');
    assert("001"@.len() == 3 && "001"@[0] == '0' && "001"@[1] == '0' && "001"@[2] == '1');
    assert("010"@.len() == 3 && "010"@[0] == '0' && "010"@[1] == '1' && "010"@[2] == '0');
    assert("011"@.len() == 3 && "011"@[0] == '0' && "011"@[1] == '1' && "011"@[2] == '1');
    assert("100"@.len() == 3 && "100"@[0] == '1' && "100"@[1] == '0' && "100"@[2] == '0');
    assert("101"@.len() == 3 && "101"@[0] == '1' && "101"@[1] == '0' && "101"@[2] == '1');
    assert("110"@.len() == 3 && "110"@[0] == '1' && "110"@[1] == '1' && "110"@[2] == '0');
    assert("111"@.len() == 3 && "111"@[0] == '1' && "111"@[1] == '1' && "111"@[2] == '1');
}

/// Every entry of the destination table is a group of 3 binary digits.
pub proof fn lemma_dest_bits(m: Seq<char>)
    requires
        dest_table().contains_key(m),
    ensures
        is_bits(dest_table()[m], 3),
{
    lemma_dest_table();
    reveal_strlit("000");
    reveal_strlit("001");
    reveal_strlit("010");
    reveal_strlit("011");
    reveal_strlit("100");
    reveal_strlit("101");
    reveal_strlit("110");
    reveal_strlit("111");
    assert("000"@.len() == 3 && "000"@[0] == '0' && "000"@[1] == '0' && "000"@[2] == '0');
    assert("001"@.len() == 3 && "001"@[0] == '0' && "001"@[1] == '0' && "001"@[2] == '1');
    assert("010"@.len() == 3 && "010"@[0] == '0' && "010"@[1] == '1' && "010"@[2] == '0');
    assert("011"@.len() == 3 && "011"@[0] == '0' && "011"@[1] == '1' && "011"@[2] == '1');
    assert("100"@.len() == 3 && "100"@[0] == '1' && "100"@[1] == '0' && "100"@[2] == '0');
    assert("101"@.len() == 3 && "101"@[0] == '1' && "101"@[1] == '0' && "101"@[2] == '1');
    assert("110"@.len() == 3 && "110"@[0] == '1' && "110"@[1] == '1' && "110"@[2] == '0');
    assert("111"@.len() == 3 && "111"@[0] == '1' && "111"@[1] == '1' && "111"@[2] == '1');
}

/// Every entry of the computation table is a group of 6 binary digits.
pub proof fn lemma_comp_bits(m: Seq<char>)
    requires
        comp_table().contains_key(m),
    ensures
        is_bits(comp_table()[m], 6),
{
    lemma_comp_table();
    reveal_strlit("101010");
    reveal_strlit("111111");
    reveal_strlit("111010");
    reveal_strlit("001100");
    reveal_strlit("110000");
    reveal_strlit("001101");
    reveal_strlit("110001");
    reveal_strlit("001111");
    reveal_strlit("110011");
    reveal_strlit("011111");
    reveal_strlit("110111");
    reveal_strlit("001110");
    reveal_strlit("110010");
    reveal_strlit("000010");
    reveal_strlit("010011");
    reveal_strlit("000111");
    reveal_strlit("000000");
    reveal_strlit("010101");
    assert("101010"@.len() == 6
        && "101010"@[0] == '1'
        && "101010"@[1] == '0'
        && "101010"@[2] == '1'
        && "101010"@[3] == '0'
        && "101010"@[4] == '1'
        && "101010"@[5] == '0');
    assert("111111"@.len() == 6
        && "111111"@[0] == '1'
        && "111111"@[1] == '1'
        && "111111"@[2] == '1'
        && "111111"@[3] == '1'
        && "111111"@[4] == '1'
        && "111111"@[5] == '1');
    assert("111010"@.len() == 6
        && "111010"@[0] == '1'
        && "111010"@[1] == '1'
        && "111010"@[2] == '1'
        && "111010"@[3] == '0'
        && "111010"@[4] == '1'
        && "111010"@[5] == '0');
    assert("001100"@.len() == 6
        && "001100"@[0] == '0'
        && "001100"@[1] == '0'
        && "001100"@[2] == '1'
        && "001100"@[3] == '1'
        && "001100"@[4] == '0'
        && "001100"@[5] == '0');
    assert("110000"@.len() == 6
        && "110000"@[0] == '1'
        && "110000"@[1] == '1'
        && "110000"@[2] == '0'
        && "110000"@[3] == '0'
        && "110000"@[4] == '0'
        && "110000"@[5] == '0');
    assert("001101"@.len() == 6
        && "001101"@[0] == '0'
        && "001101"@[1] == '0'
        && "001101"@[2] == '1'
        && "001101"@[3] == '1'
        && "001101"@[4] == '0'
        && "001101"@[5] == '1');
    assert("110001"@.len() == 6
        && "110001"@[0] == '1'
        && "110001"@[1] == '1'
        && "110001"@[2] == '0'
        && "110001"@[3] == '0'
        && "110001"@[4] == '0'
        && "110001"@[5] == '1');
    assert("001111"@.len() == 6
        && "001111"@[0] == '0'
        && "001111"@[1] == '0'
        && "001111"@[2] == '1'
        && "001111"@[3] == '1'
        && "001111"@[4] == '1'
        && "001111"@[5] == '1');
    assert("110011"@.len() == 6
        && "110011"@[0] == '1'
        && "110011"@[1] == '1'
        && "110011"@[2] == '0'
        && "110011"@[3] == '0'
        && "110011"@[4] == '1'
        && "110011"@[5] == '1');
    assert("011111"@.len() == 6
        && "011111"@[0] == '0'
        && "011111"@[1] == '1'
        && "011111"@[2] == '1'
        && "011111"@[3] == '1'
        && "011111"@[4] == '1'
        && "011111"@[5] == '1');
    assert("110111"@.len() == 6
        && "110111"@[0] == '1'
        && "110111"@[1] == '1'
        && "110111"@[2] == '0'
        && "110111"@[3] == '1'
        && "110111"@[4] == '1'
        && "110111"@[5] == '1');
    assert("001110"@.len() == 6
        && "001110"@[0] == '0'
        && "001110"@[1] == '0'
        && "001110"@[2] == '1'
        && "001110"@[3] == '1'
        && "001110"@[4] == '1'
        && "001110"@[5] == '0');
    assert("110010"@.len() == 6
        && "110010"@[0] == '1'
        && "110010"@[1] == '1'
        && "110010"@[2] == '0'
        && "110010"@[3] == '0'
        && "110010"@[4] == '1'
        && "110010"@[5] == '0');
    assert("000010"@.len() == 6
        && "000010"@[0] == '0'
        && "000010"@[1] == '0'
        && "000010"@[2] == '0'
        && "000010"@[3] == '0'
        && "000010"@[4] == '1'
        && "000010"@[5] == '0');
    assert("010011"@.len() == 6
        && "010011"@[0] == '0'
        && "010011"@[1] == '1'
        && "010011"@[2] == '0'
        && "010011"@[3] == '0'
        && "010011"@[4] == '1'
        && "010011"@[5] == '1');
    assert("000111"@.len() == 6
        && "000111"@[0] == '0'
        && "000111"@[1] == '0'
        && "000111"@[2] == '0'
        && "000111"@[3] == '1'
        && "000111"@[4] == '1'
        && "000111"@[5] == '1');
    assert("000000"@.len() == 6
        && "000000"@[0] == '0'
        && "000000"@[1] == '0'
        && "000000"@[2] == '0'
        && "000000"@[3] == '0'
        && "000000"@[4] == '0'
        && "000000"@[5] == '0');
    assert("010101"@.len() == 6
        && "010101"@[0] == '0'
        && "010101"@[1] == '1'
        && "010101"@[2] == '0'
        && "010101"@[3] == '1'
        && "010101"@[4] == '0'
        && "010101"@[5] == '1');
}

/// Whether `s` holds exactly the characters of `word`.
pub fn spells(s: &[char], word: &str) -> (b: bool)
    ensures
        b == (s@ == word@),
{
    let mut i: usize = 0;
    for c in it: word.chars()
        invariant
            it.seq() == word@,
            i == it.index(),
            i <= s.len(),
            s@.take(i as int) == word@.take(i as int),
    {
        if i >= s.len() || s[i] != c {
            return false;
        }
        i += 1;
        assert(s@.take(i as int) =~= s@.take(i - 1).push(s@[i - 1]));
        assert(word@.take(i as int) =~= word@.take(i - 1).push(word@[i - 1]));
    }
    assert(word@.take(i as int) =~= word@);
    if i == s.len() {
        assert(s@.take(i as int) =~= s@);
    }
    i == s.len()
}

/// Looks a jump mnemonic up in the jump table.
pub fn jump_bits(mnemonic: &[char]) -> (bits: Option<&'static str>)
    ensures
        bits is Some <==> jump_table().contains_key(mnemonic@),
        bits is Some ==> bits->0@ == jump_table()[mnemonic@],
{
    proof {
        lemma_jump_table();
    }
    if spells(mnemonic, "") {
        Some("000")
    } else if spells(mnemonic, "JGT") {
        Some("001")
    } else if spells(mnemonic, "JEQ") {
        Some("010")
    } else if spells(mnemonic, "JGE") {
        Some("011")
    } else if spells(mnemonic, "JLT") {
        Some("100")
    } else if spells(mnemonic, "JNE") {
        Some("101")
    } else if spells(mnemonic, "JLE") {
        Some("110")
    } else if spells(mnemonic, "JMP") {
        Some("111")
    } else {
        None
    }
}

/// Looks a destination mnemonic up in the destination table.
pub fn dest_bits(mnemonic: &[char]) -> (bits: Option<&'static str>)
    ensures
        bits is Some <==> dest_table().contains_key(mnemonic@),
        bits is Some ==> bits->0@ == dest_table()[mnemonic@],
{
    proof {
        lemma_dest_table();
    }
    if spells(mnemonic, "") {
        Some("000")
    } else if spells(mnemonic, "M") {
        Some("001")
    } else if spells(mnemonic, "D") {
        Some("010")
    } else if spells(mnemonic, "MD") {
        Some("011")
    } else if spells(mnemonic, "A") {
        Some("100")
    } else if spells(mnemonic, "AM") {
        Some("101")
    } else if spells(mnemonic, "AD") {
        Some("110")
    } else if spells(mnemonic, "AMD") {
        Some("111")
    } else {
        None
    }
}

/// Looks a computation mnemonic up in the computation table.
pub fn comp_bits(mnemonic: &[char]) -> (bits: Option<&'static str>)
    ensures
        bits is Some <==> comp_table().contains_key(mnemonic@),
        bits is Some ==> bits->0@ == comp_table()[mnemonic@],
{
    proof {
        lemma_comp_table();
    }
    if spells(mnemonic, "0") {
        Some("101010")
    } else if spells(mnemonic, "1") {
        Some("111111")
    } else if spells(mnemonic, "-1") {
        Some("111010")
    } else if spells(mnemonic, "D") {
        Some("001100")
    } else if spells(mnemonic, "A") {
        Some("110000")
    } else if spells(mnemonic, "M") {
        Some("110000")
    } else if spells(mnemonic, "!D") {
        Some("001101")
    } else if spells(mnemonic, "!A") {
        Some("110001")
    } else if spells(mnemonic, "!M") {
        Some("110001")
    } else if spells(mnemonic, "-D") {
        Some("001111")
    } else if spells(mnemonic, "-A") {
        Some("110011")
    } else if spells(mnemonic, "-M") {
        Some("110011")
    } else if spells(mnemonic, "D+1") {
        Some("011111")
    } else if spells(mnemonic, "A+1") {
        Some("110111")
    } else if spells(mnemonic, "M+1") {
        Some("110111")
    } else if spells(mnemonic, "D-1") {
        Some("001110")
    } else if spells(mnemonic, "A-1") {
        Some("110010")
    } else if spells(mnemonic, "M-1") {
        Some("110010")
    } else if spells(mnemonic, "D+A") {
        Some("000010")
    } else if spells(mnemonic, "D+M") {
        Some("000010")
    } else if spells(mnemonic, "D-A") {
        Some("010011")
    } else if spells(mnemonic, "D-M") {
        Some("010011")
    } else if spells(mnemonic, "A-D") {
        Some("000111")
    } else if spells(mnemonic, "M-D") {
        Some("000111")
    } else if spells(mnemonic, "D&A") {
        Some("000000")
    } else if spells(mnemonic, "D&M") {
        Some("000000")
    } else if spells(mnemonic, "D|A") {
        Some("010101")
    } else if spells(mnemonic, "D|M") {
        Some("010101")
    } else {
        None
    }
}

} // verus!

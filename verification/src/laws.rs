//! What holds of every assembly run.

use vstd::prelude::*;
use crate::binary::{binary_value, is_bits, lemma_address_word_shape, word, MAX_ADDRESS};
use crate::error::AssembleError;
use crate::instruction::{
    address_instruction, address_of, classify, decimal_value, digit_value, digits_of, is_digit,
    is_name, is_numeral, label_of, numeral_value, symbol_of, translated,
};
use crate::parser::utils::CommandType;
use crate::program::{
    address_at, assembled, collected, encoded, instruction_count, is_instruction, is_outcome,
    lemma_collected, lemma_collected_concat, lemma_encoded, lemma_encoded_concat,
    lemma_encoded_line, lemma_instruction_count_concat, lemma_rendered_lines, rendered, table_at,
};
use crate::symbols::{
    initial_symbols, lemma_initial_symbols_wf, lemma_resolve, lemma_seed_table, seed_table, Symbols,
    FIRST_VARIABLE,
};
use crate::text::{is_blank, is_comment_only, lemma_normalized_empty, lines_of, normalized};

verus! {

/// A numeric operand is encoded as itself: for digits that denote an
/// address `n`, the address-instruction is the 16 binary digits that denote
/// `n`, the first of them `0`, whatever the table holds, and the table
/// stays as it is.
pub proof fn lemma_numeric_operand(digits: Seq<char>, symbols: Symbols)
    requires
        digits.len() > 0,
        forall|i: int| 0 <= i < digits.len() ==> is_digit(#[trigger] digits[i]),
        decimal_value(digits) <= MAX_ADDRESS,
    ensures
        address_instruction(seq!['@'] + digits, symbols) == Ok::<(Seq<char>, Symbols), AssembleError>(
            (word(decimal_value(digits)), symbols),
        ),
        is_bits(word(decimal_value(digits)), 16),
        word(decimal_value(digits))[0] == '0',
        binary_value(word(decimal_value(digits))) == decimal_value(digits),
{
    let line = seq!['@'] + digits;
    assert(symbol_of(line) =~= digits);
    assert(is_digit(digits[0]));
    assert(digits_of(digits) == digits);
    lemma_address_word_shape(decimal_value(digits));
}

/// The decimal digits of `n`, without leading zeros.
pub open spec fn decimal(n: nat) -> Seq<char>
    decreases n,
{
    let last = ('0' as u32 + n % 10) as char;
    if n < 10 {
        seq![last]
    } else {
        decimal(n / 10).push(last)
    }
}

/// The decimal digits of a number are digits, and they denote the number.
pub proof fn lemma_decimal(n: nat)
    ensures
        decimal(n).len() > 0,
        forall|i: int| 0 <= i < decimal(n).len() ==> is_digit(#[trigger] decimal(n)[i]),
        decimal_value(decimal(n)) == n,
    decreases n,
{
    let last = ('0' as u32 + n % 10) as char;
    assert(is_digit(last) && digit_value(last) == n % 10);
    assert(decimal(n).last() == last);
    if n < 10 {
        assert(decimal(n).drop_last() =~= Seq::<char>::empty());
        assert(decimal_value(Seq::<char>::empty()) == 0);
    } else {
        lemma_decimal(n / 10);
        assert(decimal(n).drop_last() =~= decimal(n / 10));
    }
}

/// Every address, written in decimal behind the sigil, is encoded as its
/// own 16 binary digits.
pub proof fn lemma_address_of_number(n: nat, symbols: Symbols)
    requires
        n <= MAX_ADDRESS,
    ensures
        address_instruction(seq!['@'] + decimal(n), symbols) == Ok::<
            (Seq<char>, Symbols),
            AssembleError,
        >((word(n), symbols)),
        is_bits(word(n), 16),
        word(n)[0] == '0',
        binary_value(word(n)) == n,
{
    lemma_decimal(n);
    lemma_numeric_operand(decimal(n), symbols);
}

/// A numeral that denotes no address is refused, whatever the table holds.
pub proof fn lemma_numeral_out_of_range(token: Seq<char>, symbols: Symbols)
    requires
        is_numeral(token),
        numeral_value(token) < 0 || numeral_value(token) > MAX_ADDRESS,
    ensures
        address_of(token, symbols) == Err::<(nat, Symbols), AssembleError>(AssembleError::Symbol),
{
}

/// Every well-formed table binds the registers `R0` to `R15` to the
/// addresses 0 to 15, the pointers `SP`, `LCL`, `ARG`, `THIS` and `THAT` to
/// 0 to 4, `SCREEN` to 16384 and `KBD` to 24576.
pub proof fn lemma_seeded_addresses(symbols: Symbols)
    requires
        symbols.wf(),
    ensures
        symbols.lookup("SP"@) == Some(0nat),
        symbols.lookup("LCL"@) == Some(1nat),
        symbols.lookup("ARG"@) == Some(2nat),
        symbols.lookup("THIS"@) == Some(3nat),
        symbols.lookup("THAT"@) == Some(4nat),
        symbols.lookup("SCREEN"@) == Some(16384nat),
        symbols.lookup("KBD"@) == Some(24576nat),
        symbols.lookup("R0"@) == Some(0nat),
        symbols.lookup("R1"@) == Some(1nat),
        symbols.lookup("R2"@) == Some(2nat),
        symbols.lookup("R3"@) == Some(3nat),
        symbols.lookup("R4"@) == Some(4nat),
        symbols.lookup("R5"@) == Some(5nat),
        symbols.lookup("R6"@) == Some(6nat),
        symbols.lookup("R7"@) == Some(7nat),
        symbols.lookup("R8"@) == Some(8nat),
        symbols.lookup("R9"@) == Some(9nat),
        symbols.lookup("R10"@) == Some(10nat),
        symbols.lookup("R11"@) == Some(11nat),
        symbols.lookup("R12"@) == Some(12nat),
        symbols.lookup("R13"@) == Some(13nat),
        symbols.lookup("R14"@) == Some(14nat),
        symbols.lookup("R15"@) == Some(15nat),
{
    lemma_seed_table();
}

/// The seeded names are bound in every well-formed table, each to its
/// address, and to resolve one changes nothing.
pub proof fn lemma_seeded_names(symbols: Symbols, name: Seq<char>)
    requires
        symbols.wf(),
        seed_table().contains_key(name),
    ensures
        symbols.lookup(name) == Some(seed_table()[name]),
        address_of(name, symbols) == Ok::<(nat, Symbols), AssembleError>(
            (seed_table()[name], symbols),
        ),
{
    lemma_seed_table();
    assert(!is_digit(name[0]));
    assert(digits_of(name) == name);
}

/// Whether a raw line is an address-instruction whose operand is the name
/// `name`.
pub open spec fn refers_to(raw: Seq<char>, name: Seq<char>) -> bool {
    classify(raw) == CommandType::ACOMMAND && symbol_of(normalized(raw)) == name && is_name(name)
}

/// Whether a raw line declares the label `name`.
pub open spec fn declares(raw: Seq<char>, name: Seq<char>) -> bool {
    classify(raw) == CommandType::LCOMMAND && label_of(normalized(raw)) == name
}

/// Whether `lines` assemble: whether both passes succeed.
pub open spec fn assembles(lines: Seq<Seq<char>>) -> bool {
    collected(lines, initial_symbols(), 0) is Ok && encoded(lines, labels_of(lines)) is Ok
}

/// The table that the first pass over `lines` leaves.
pub open spec fn labels_of(lines: Seq<Seq<char>>) -> Symbols {
    collected(lines, initial_symbols(), 0)->Ok_0
}

/// The words of the program that `lines` assemble to.
pub open spec fn words_of(lines: Seq<Seq<char>>) -> Seq<Seq<char>> {
    encoded(lines, labels_of(lines))->Ok_0.0
}

/// The tables of a run are well formed: the seeded names keep their
/// addresses through both passes, whether the program uses them or not.
/// The program has one word of 16 binary digits for each instruction.
pub proof fn lemma_assembled(lines: Seq<Seq<char>>)
    requires
        assembles(lines),
    ensures
        labels_of(lines).wf(),
        labels_of(lines).next == FIRST_VARIABLE,
        encoded(lines, labels_of(lines))->Ok_0.1.wf(),
        words_of(lines).len() == instruction_count(lines),
        forall|i: int| 0 <= i < words_of(lines).len() ==> is_bits(#[trigger] words_of(lines)[i], 16),
{
    lemma_initial_symbols_wf();
    lemma_collected(lines, initial_symbols(), 0);
    lemma_encoded(lines, labels_of(lines));
}

/// A reference to a label is encoded as the address of the line that
/// declares the label, whether the declaration stands before the
/// reference or after it.
pub proof fn lemma_forward_reference(lines: Seq<Seq<char>>, j: int, k: int, name: Seq<char>)
    requires
        assembles(lines),
        0 <= j < lines.len(),
        0 <= k < lines.len(),
        refers_to(lines[j], name),
        declares(lines[k], name),
    ensures
        address_at(lines, j) < words_of(lines).len(),
        words_of(lines)[address_at(lines, j) as int] == word(address_at(lines, k)),
{
    let labels = labels_of(lines);
    lemma_initial_symbols_wf();
    lemma_collected(lines, initial_symbols(), 0);
    assert(labels.lookup(label_of(normalized(lines[k]))) == Some(address_at(lines, k)));
    lemma_encoded_line(lines, labels, j);
}

/// Two names that a table does not hold get the next two variable slots
/// in the order in which they are met, and each resolves to its slot from
/// then on.
pub proof fn lemma_variable_slots(symbols: Symbols, first: Seq<char>, second: Seq<char>)
    requires
        symbols.wf(),
        symbols.next < MAX_ADDRESS,
        is_name(first),
        is_name(second),
        first != second,
        symbols.lookup(first) is None,
        symbols.lookup(second) is None,
    ensures
        ({
            let one = address_of(first, symbols);
            let two = address_of(second, one->Ok_0.1);
            let after = two->Ok_0.1;
            &&& one is Ok && one->Ok_0.0 == symbols.next
            &&& two is Ok && two->Ok_0.0 == symbols.next + 1
            &&& address_of(first, after) == Ok::<(nat, Symbols), AssembleError>(
                (symbols.next, after),
            )
            &&& address_of(second, after) == Ok::<(nat, Symbols), AssembleError>(
                (symbols.next + 1, after),
            )
        }),
{
}

/// A name resolves to the same address wherever the program uses it: two
/// address-instructions with the same name have the same word.
pub proof fn lemma_repeated_name(lines: Seq<Seq<char>>, i: int, j: int, name: Seq<char>)
    requires
        assembles(lines),
        0 <= i <= j < lines.len(),
        refers_to(lines[i], name),
        refers_to(lines[j], name),
    ensures
        address_at(lines, i) < words_of(lines).len(),
        address_at(lines, j) < words_of(lines).len(),
        words_of(lines)[address_at(lines, i) as int] == words_of(lines)[address_at(lines, j) as int],
{
    let labels = labels_of(lines);
    lemma_initial_symbols_wf();
    lemma_collected(lines, initial_symbols(), 0);
    lemma_encoded_line(lines, labels, i);
    lemma_encoded_line(lines, labels, j);
    if i < j {
        let before = table_at(lines, labels, i);
        let between = table_at(lines, labels, i + 1);
        let later = table_at(lines, labels, j);
        lemma_resolve(before, name);
        lemma_table_grows(lines, labels, i + 1, j);
        assert(later.bindings.contains_key(name));
    }
}

/// The table of the second pass only grows: what is bound when the pass
/// comes to a line is bound in the same way at every later line.
pub proof fn lemma_table_grows(lines: Seq<Seq<char>>, symbols: Symbols, i: int, j: int)
    requires
        symbols.wf(),
        encoded(lines, symbols) is Ok,
        0 <= i <= j <= lines.len(),
    ensures
        encoded(lines.take(i), symbols) is Ok,
        encoded(lines.take(j), symbols) is Ok,
        table_at(lines, symbols, i).wf(),
        table_at(lines, symbols, i).bindings.submap_of(table_at(lines, symbols, j).bindings),
        table_at(lines, symbols, i).next <= table_at(lines, symbols, j).next,
{
    let head = lines.take(j);
    assert(head + lines.skip(j) =~= lines);
    lemma_encoded_concat(head, lines.skip(j), symbols);
    assert(head.take(i) =~= lines.take(i));
    assert(head.take(i) + head.skip(i) =~= head);
    lemma_encoded_concat(head.take(i), head.skip(i), symbols);
    lemma_encoded(lines.take(i), symbols);
    lemma_encoded(head.skip(i), table_at(lines, symbols, i));
}

/// Whether a raw line is an address-instruction with a name that
/// `symbols` does not hold: whether the second pass has to bind it.
pub open spec fn introduces(raw: Seq<char>, symbols: Symbols) -> bool {
    &&& classify(raw) == CommandType::ACOMMAND
    &&& is_name(symbol_of(normalized(raw)))
    &&& symbols.lookup(symbol_of(normalized(raw))) is None
}

/// Lines that introduce no name leave the table of the second pass as it
/// is.
pub proof fn lemma_table_kept(lines: Seq<Seq<char>>, symbols: Symbols, i: int, j: int)
    requires
        symbols.wf(),
        encoded(lines, symbols) is Ok,
        0 <= i <= j <= lines.len(),
        forall|k: int| i <= k < j ==> !introduces(#[trigger] lines[k], table_at(lines, symbols, i)),
    ensures
        table_at(lines, symbols, j) == table_at(lines, symbols, i),
    decreases j - i,
{
    if i < j {
        lemma_table_kept(lines, symbols, i, j - 1);
        lemma_encoded_line(lines, symbols, j - 1);
        assert(!introduces(lines[j - 1], table_at(lines, symbols, i)));
    }
}

/// The first name that the program uses and the first pass did not bind
/// gets the first variable slot: its address-instruction is the word of
/// 16.
pub proof fn lemma_first_variable(lines: Seq<Seq<char>>, j: int)
    requires
        assembles(lines),
        0 <= j < lines.len(),
        introduces(lines[j], labels_of(lines)),
        forall|k: int| 0 <= k < j ==> !introduces(#[trigger] lines[k], labels_of(lines)),
    ensures
        address_at(lines, j) < words_of(lines).len(),
        words_of(lines)[address_at(lines, j) as int] == word(FIRST_VARIABLE as nat),
        table_at(lines, labels_of(lines), j + 1) == address_of(
            symbol_of(normalized(lines[j])),
            labels_of(lines),
        )->Ok_0.1,
{
    let labels = labels_of(lines);
    lemma_assembled(lines);
    assert(lines.take(0) =~= Seq::<Seq<char>>::empty());
    lemma_table_kept(lines, labels, 0, j);
    lemma_encoded_line(lines, labels, j);
}

/// The second name that the program uses and the first pass did not bind
/// gets the second variable slot: its address-instruction is the word of
/// 17.
pub proof fn lemma_second_variable(lines: Seq<Seq<char>>, i: int, j: int)
    requires
        assembles(lines),
        0 <= i < j < lines.len(),
        introduces(lines[i], labels_of(lines)),
        introduces(lines[j], labels_of(lines)),
        symbol_of(normalized(lines[i])) != symbol_of(normalized(lines[j])),
        forall|k: int| 0 <= k < i ==> !introduces(#[trigger] lines[k], labels_of(lines)),
        forall|k: int|
            i < k < j && introduces(#[trigger] lines[k], labels_of(lines)) ==> symbol_of(
                normalized(lines[k]),
            ) == symbol_of(normalized(lines[i])),
    ensures
        address_at(lines, j) < words_of(lines).len(),
        words_of(lines)[address_at(lines, j) as int] == word((FIRST_VARIABLE + 1) as nat),
{
    let labels = labels_of(lines);
    lemma_assembled(lines);
    lemma_first_variable(lines, i);
    lemma_table_grows(lines, labels, i + 1, j);
    let between = table_at(lines, labels, i + 1);
    assert forall|k: int| i + 1 <= k < j implies !introduces(#[trigger] lines[k], between) by {
        if introduces(lines[k], labels) {
            assert(symbol_of(normalized(lines[k])) == symbol_of(normalized(lines[i])));
        }
    }
    lemma_table_kept(lines, labels, i + 1, j);
    lemma_encoded_line(lines, labels, j);
}

/// The lines that state nothing are the blank lines and the lines that
/// hold only a comment. Such a line gives no word, is no instruction and
/// leaves the table as it is.
pub proof fn lemma_silent_line(raw: Seq<char>, symbols: Symbols)
    ensures
        classify(raw) == CommandType::NOCOMMAND <==> is_blank(raw) || is_comment_only(raw),
        classify(raw) == CommandType::NOCOMMAND ==> !is_instruction(raw) && translated(raw, symbols)
            == Ok::<(Option<Seq<char>>, Symbols), AssembleError>((None, symbols)),
{
    lemma_normalized_empty(raw);
}

/// A blank line or a comment, put anywhere into a text, changes neither
/// the addresses of the instructions, nor what the first pass binds, nor
/// the words of the program.
pub proof fn lemma_silent_line_anywhere(
    before: Seq<Seq<char>>,
    raw: Seq<char>,
    after: Seq<Seq<char>>,
    symbols: Symbols,
    base: nat,
)
    requires
        is_blank(raw) || is_comment_only(raw),
    ensures
        instruction_count(before + seq![raw] + after) == instruction_count(before + after),
        collected(before + seq![raw] + after, symbols, base) == collected(
            before + after,
            symbols,
            base,
        ),
        encoded(before + seq![raw] + after, symbols) == encoded(before + after, symbols),
{
    let head = before + seq![raw];
    lemma_silent_line(raw, symbols);
    assert(head.drop_last() =~= before);
    assert(head.last() == raw);
    lemma_instruction_count_concat(head, after);
    lemma_instruction_count_concat(before, after);
    lemma_collected_concat(head, after, symbols, base);
    lemma_collected_concat(before, after, symbols, base);
    lemma_encoded_concat(head, after, symbols);
    lemma_encoded_concat(before, after, symbols);
    match encoded(before, symbols) {
        Ok((words, between)) => {
            lemma_silent_line(raw, between);
        },
        Err(e) => {},
    }
}

/// A source text has one outcome. Two runs on the same text give the same
/// program, character for character, or end with the same error.
pub proof fn lemma_same_source_same_outcome(
    source: Seq<char>,
    first: Result<String, AssembleError>,
    second: Result<String, AssembleError>,
)
    requires
        is_outcome(source, first),
        is_outcome(source, second),
    ensures
        match (first, second) {
            (Ok(a), Ok(b)) => a@ == b@,
            (Err(e), Err(f)) => e == f,
            _ => false,
        },
{
}

/// The text of an assembled program holds one line of 16 binary digits
/// for each instruction of the source, in the order of the source, and
/// nothing else.
pub proof fn lemma_program_text(source: Seq<char>)
    requires
        assembled(source) is Ok,
    ensures
        assembles(lines_of(source)),
        assembled(source)->Ok_0 == rendered(words_of(lines_of(source))),
        assembled(source)->Ok_0.len() == 17 * instruction_count(lines_of(source)),
        lines_of(assembled(source)->Ok_0) == words_of(lines_of(source)).push(Seq::empty()),
{
    lemma_assembled(lines_of(source));
    lemma_rendered_lines(words_of(lines_of(source)));
}

} // verus!

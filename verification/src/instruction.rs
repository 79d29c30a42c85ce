//! What one source line means: its kind, the name or operand it holds, and
//! the machine word it is encoded as.

use vstd::prelude::*;
use vstd::slice::slice_subrange;
use vstd::string::*;
use crate::binary::{binary_word, is_bits, lemma_address_word_shape, word, MAX_ADDRESS};
use crate::error::AssembleError;
use crate::parser::utils::CommandType;
use crate::symbols::{lemma_resolve, SymbolTable, Symbols};
use crate::tables::{
    comp_bits, comp_table, dest_bits, dest_table, jump_bits, jump_table, lemma_comp_bits,
    lemma_dest_bits, lemma_jump_bits,
};
use crate::text::{
    find, first_index, lemma_first_index_is_first, normalize, normalized, to_string, trim, trimmed,
};

verus! {

/// The kind of a normalized line, told by its first character.
pub open spec fn kind_of(line: Seq<char>) -> CommandType {
    if line.len() == 0 {
        CommandType::NOCOMMAND
    } else if line.first() == '@' {
        CommandType::ACOMMAND
    } else if line.first() == '(' {
        CommandType::LCOMMAND
    } else {
        CommandType::CCOMMAND
    }
}

/// The kind of a raw source line.
pub open spec fn classify(raw: Seq<char>) -> CommandType {
    kind_of(normalized(raw))
}

/// What a line names, its sigils taken off where they stand at its ends:
/// the `@` in front of an operand, or the `(` in front of a label and the
/// `)` behind it.
pub open spec fn symbol_of(line: Seq<char>) -> Seq<char> {
    if line.len() > 0 && line.first() == '@' {
        line.drop_first()
    } else if line.len() > 0 && line.first() == '(' {
        let inner = line.drop_first();
        if inner.len() > 0 && inner.last() == ')' {
            inner.drop_last()
        } else {
            inner
        }
    } else {
        line
    }
}

/// The name that a label declaration declares.
pub open spec fn label_of(line: Seq<char>) -> Seq<char> {
    trimmed(symbol_of(line))
}

/// Whether `c` is a decimal digit.
pub open spec fn is_digit(c: char) -> bool {
    '0' <= c <= '9'
}

/// The value of a decimal digit.
pub open spec fn digit_value(c: char) -> nat {
    if is_digit(c) {
        (c as u32 - '0' as u32) as nat
    } else {
        0
    }
}

/// The number that a sequence of decimal digits denotes.
pub open spec fn decimal_value(digits: Seq<char>) -> nat
    decreases digits.len(),
{
    if digits.len() == 0 {
        0
    } else {
        10 * decimal_value(digits.drop_last()) + digit_value(digits.last())
    }
}

/// The digits of a numeral: what follows its sign, if it has one.
pub open spec fn digits_of(token: Seq<char>) -> Seq<char> {
    if token.len() > 0 && (token.first() == '+' || token.first() == '-') {
        token.drop_first()
    } else {
        token
    }
}

/// Whether `token` is a decimal numeral: one or more digits, with or
/// without a sign in front.
pub open spec fn is_numeral(token: Seq<char>) -> bool {
    let digits = digits_of(token);
    digits.len() > 0 && forall|i: int| 0 <= i < digits.len() ==> is_digit(#[trigger] digits[i])
}

/// The integer that a numeral denotes.
pub open spec fn numeral_value(token: Seq<char>) -> int {
    if token.len() > 0 && token.first() == '-' {
        -(decimal_value(digits_of(token)) as int)
    } else {
        decimal_value(digits_of(token)) as int
    }
}

/// Whether `token` is a name: an operand that is no numeral.
pub open spec fn is_name(token: Seq<char>) -> bool {
    token.len() > 0 && !is_numeral(token)
}

/// The address that an operand stands for, and the table after it was
/// resolved. A numeral stands for its value, which has to fit an
/// address-instruction; any other text is a name, which the table resolves.
pub open spec fn address_of(token: Seq<char>, symbols: Symbols) -> Result<
    (nat, Symbols),
    AssembleError,
> {
    if token.len() == 0 {
        Err(AssembleError::Syntax)
    } else if is_numeral(token) {
        if 0 <= numeral_value(token) <= MAX_ADDRESS {
            Ok((numeral_value(token) as nat, symbols))
        } else {
            Err(AssembleError::Symbol)
        }
    } else {
        symbols.resolve(token)
    }
}

/// The word of an address-instruction, and the table after its operand was
/// resolved.
pub open spec fn address_instruction(line: Seq<char>, symbols: Symbols) -> Result<
    (Seq<char>, Symbols),
    AssembleError,
> {
    match address_of(symbol_of(line), symbols) {
        Ok((address, rest)) => Ok((word(address), rest)),
        Err(e) => Err(e),
    }
}

/// The three mnemonics of a compute-instruction. One that the line does not
/// hold is empty.
pub struct Fields {
    pub dest: Seq<char>,
    pub comp: Seq<char>,
    pub jump: Seq<char>,
}

/// Splits a compute-instruction into its fields: the jump follows the
/// first `;`, the destination precedes the first `=` of what is left.
pub open spec fn fields_of(line: Seq<char>) -> Fields {
    let semi = first_index(line, ';');
    let head = line.take(semi);
    let jump = if semi < line.len() {
        line.skip(semi + 1)
    } else {
        Seq::empty()
    };
    let eq = first_index(head, '=');
    if eq < head.len() {
        Fields { dest: head.take(eq), comp: head.skip(eq + 1), jump }
    } else {
        Fields { dest: Seq::empty(), comp: head, jump }
    }
}

/// The bit that tells whether a computation reads memory.
pub open spec fn memory_bit(comp: Seq<char>) -> Seq<char> {
    if comp.contains('M') {
        "1"@
    } else {
        "0"@
    }
}

/// The word of a compute-instruction: `111`, the memory bit, and the bits
/// of its computation, destination and jump.
pub open spec fn compute_instruction(line: Seq<char>) -> Result<Seq<char>, AssembleError> {
    let f = fields_of(line);
    if comp_table().contains_key(f.comp) && dest_table().contains_key(f.dest)
        && jump_table().contains_key(f.jump) {
        Ok(
            "111"@ + memory_bit(f.comp) + comp_table()[f.comp] + dest_table()[f.dest]
                + jump_table()[f.jump],
        )
    } else {
        Err(AssembleError::Syntax)
    }
}

/// What a raw source line contributes to the program: the word of an
/// instruction, or nothing, and the table afterwards.
pub open spec fn translated(raw: Seq<char>, symbols: Symbols) -> Result<
    (Option<Seq<char>>, Symbols),
    AssembleError,
> {
    let line = normalized(raw);
    match kind_of(line) {
        CommandType::ACOMMAND => match address_instruction(line, symbols) {
            Ok((w, rest)) => Ok((Some(w), rest)),
            Err(e) => Err(e),
        },
        CommandType::CCOMMAND => match compute_instruction(line) {
            Ok(w) => Ok((Some(w), symbols)),
            Err(e) => Err(e),
        },
        _ => Ok((None, symbols)),
    }
}

/// The word of a compute-instruction has 16 binary digits and begins with
/// `111`.
pub proof fn lemma_compute_word(line: Seq<char>)
    requires
        compute_instruction(line) is Ok,
    ensures
        is_bits(compute_instruction(line)->Ok_0, 16),
        compute_instruction(line)->Ok_0.take(3) == "111"@,
{
    let f = fields_of(line);
    let w = compute_instruction(line)->Ok_0;
    lemma_comp_bits(f.comp);
    lemma_dest_bits(f.dest);
    lemma_jump_bits(f.jump);
    reveal_strlit("111");
    reveal_strlit("1");
    reveal_strlit("0");
    assert("111"@.len() == 3 && "111"@[0] == '1' && "111"@[1] == '1' && "111"@[2] == '1');
    assert("1"@.len() == 1 && "1"@[0] == '1');
    assert("0"@.len() == 1 && "0"@[0] == '0');
    assert(w.take(3) =~= "111"@);
}

/// The word of an address-instruction has 16 binary digits and begins
/// with `0`. The table stays well formed, and what was bound stays as it
/// was.
pub proof fn lemma_address_word(line: Seq<char>, symbols: Symbols)
    requires
        symbols.wf(),
        address_instruction(line, symbols) is Ok,
    ensures
        is_bits(address_instruction(line, symbols)->Ok_0.0, 16),
        address_instruction(line, symbols)->Ok_0.0[0] == '0',
        address_instruction(line, symbols)->Ok_0.1.wf(),
        symbols.bindings.submap_of(address_instruction(line, symbols)->Ok_0.1.bindings),
        symbols.next <= address_instruction(line, symbols)->Ok_0.1.next,
{
    let token = symbol_of(line);
    if !is_numeral(token) {
        lemma_resolve(symbols, token);
    }
    lemma_address_word_shape(address_of(token, symbols)->Ok_0.0);
}

/// What a line contributes is a word exactly where the line is an
/// instruction, and the word has 16 binary digits. The table stays well
/// formed, and what was bound stays as it was.
pub proof fn lemma_translated(raw: Seq<char>, symbols: Symbols)
    requires
        symbols.wf(),
        translated(raw, symbols) is Ok,
    ensures
        translated(raw, symbols)->Ok_0.0 is Some <==> classify(raw) == CommandType::ACOMMAND
            || classify(raw) == CommandType::CCOMMAND,
        translated(raw, symbols)->Ok_0.0 is Some ==> is_bits(translated(raw, symbols)->Ok_0.0->0, 16),
        translated(raw, symbols)->Ok_0.1.wf(),
        symbols.bindings.submap_of(translated(raw, symbols)->Ok_0.1.bindings),
        symbols.next <= translated(raw, symbols)->Ok_0.1.next,
{
    let line = normalized(raw);
    match kind_of(line) {
        CommandType::ACOMMAND => {
            lemma_address_word(line, symbols);
        },
        CommandType::CCOMMAND => {
            lemma_compute_word(line);
        },
        _ => {},
    }
}

/// The kind of a normalized line.
pub fn kind(line: &[char]) -> (k: CommandType)
    ensures
        k == kind_of(line@),
{
    if line.len() == 0 {
        CommandType::NOCOMMAND
    } else if line[0] == '@' {
        CommandType::ACOMMAND
    } else if line[0] == '(' {
        CommandType::LCOMMAND
    } else {
        CommandType::CCOMMAND
    }
}

/// Narrows a line to what it names.
pub fn strip_sigils(line: &[char]) -> (name: &[char])
    ensures
        name@ == symbol_of(line@),
{
    if line.len() > 0 && line[0] == '@' {
        slice_subrange(line, 1, line.len())
    } else if line.len() > 0 && line[0] == '(' {
        if line.len() > 1 && line[line.len() - 1] == ')' {
            let name = slice_subrange(line, 1, line.len() - 1);
            assert(name@ =~= line@.drop_first().drop_last());
            name
        } else {
            slice_subrange(line, 1, line.len())
        }
    } else {
        line
    }
}

/// Narrows a label declaration to the name it declares.
pub fn label(line: &[char]) -> (name: &[char])
    ensures
        name@ == label_of(line@),
{
    trim(strip_sigils(line))
}

/// Resolves the operand of an address-instruction to its address.
pub fn address(token: &[char], table: &mut SymbolTable) -> (found: Result<u16, AssembleError>)
    requires
        old(table)@.wf(),
    ensures
        final(table)@.wf(),
        match address_of(token@, old(table)@) {
            Ok((a, after)) => found == Ok::<u16, AssembleError>(a as u16) && final(table)@
                == after,
            Err(e) => found == Err::<u16, AssembleError>(e) && final(table)@ == old(table)@,
        },
{
    if token.len() == 0 {
        return Err(AssembleError::Syntax);
    }
    let negative = token[0] == '-';
    let digits = if negative || token[0] == '+' {
        slice_subrange(token, 1, token.len())
    } else {
        token
    };
    assert(digits@ =~= digits_of(token@));
    let limit: u32 = MAX_ADDRESS as u32 + 1;
    let mut value: u32 = 0;
    let mut i: usize = 0;
    while i < digits.len() && '0' <= digits[i] && digits[i] <= '9'
        invariant
            i <= digits.len(),
            limit == MAX_ADDRESS + 1,
            forall|j: int| 0 <= j < i ==> is_digit(#[trigger] digits@[j]),
            value == if decimal_value(digits@.take(i as int)) < limit {
                decimal_value(digits@.take(i as int))
            } else {
                limit as nat
            },
        decreases digits.len() - i,
    {
        let d: u32 = digits[i] as u32 - '0' as u32;
        assert(digits@.take(i + 1).drop_last() =~= digits@.take(i as int));
        value = if value * 10 + d < limit {
            value * 10 + d
        } else {
            limit
        };
        i += 1;
    }
    if digits.len() > 0 && i == digits.len() {
        assert(digits@.take(i as int) =~= digits@);
        if value < limit && (!negative || value == 0) {
            Ok(value as u16)
        } else {
            Err(AssembleError::Symbol)
        }
    } else {
        assert(!is_numeral(token@)) by {
            if digits.len() > 0 {
                assert(!is_digit(digits@[i as int]));
            }
        }
        let name = to_string(token);
        table.resolve(name.as_str())
    }
}

/// Encodes a compute-instruction.
pub fn compute(line: &[char]) -> (encoded: Result<String, AssembleError>)
    ensures
        match compute_instruction(line@) {
            Ok(w) => encoded is Ok && encoded->Ok_0@ == w,
            Err(e) => encoded == Err::<String, AssembleError>(e),
        },
{
    let semi = find(line, ';');
    let head = slice_subrange(line, 0, semi);
    let jump = if semi < line.len() {
        slice_subrange(line, semi + 1, line.len())
    } else {
        slice_subrange(line, 0, 0)
    };
    let eq = find(head, '=');
    let dest = if eq < head.len() {
        slice_subrange(head, 0, eq)
    } else {
        slice_subrange(head, 0, 0)
    };
    let comp = if eq < head.len() {
        slice_subrange(head, eq + 1, head.len())
    } else {
        head
    };
    let memory = if find(comp, 'M') < comp.len() {
        "1"
    } else {
        "0"
    };
    proof {
        let f = fields_of(line@);
        assert(jump@ =~= f.jump);
        assert(dest@ =~= f.dest);
        assert(comp@ =~= f.comp);
        lemma_first_index_is_first(comp@, 'M');
    }
    match (comp_bits(comp), dest_bits(dest), jump_bits(jump)) {
        (Some(c), Some(d), Some(j)) => {
            let mut w = String::new();
            w.append("111");
            assert(w@ =~= "111"@);
            w.append(memory);
            w.append(c);
            w.append(d);
            w.append(j);
            Ok(w)
        },
        _ => Err(AssembleError::Syntax),
    }
}

/// Encodes an address-instruction, resolving its operand in `table`.
pub fn address_word(line: &[char], table: &mut SymbolTable) -> (encoded: Result<
    String,
    AssembleError,
>)
    requires
        old(table)@.wf(),
    ensures
        final(table)@.wf(),
        match address_instruction(line@, old(table)@) {
            Ok((w, after)) => encoded is Ok && encoded->Ok_0@ == w && final(table)@ == after,
            Err(e) => encoded == Err::<String, AssembleError>(e) && final(table)@ == old(table)@,
        },
{
    match address(strip_sigils(line), table) {
        Ok(a) => Ok(binary_word(a)),
        Err(e) => Err(e),
    }
}

/// Translates one raw source line: the word of an instruction, or nothing
/// for a label declaration, a comment or a blank line.
pub fn translate(raw: &[char], table: &mut SymbolTable) -> (out: Result<
    Option<String>,
    AssembleError,
>)
    requires
        old(table)@.wf(),
    ensures
        final(table)@.wf(),
        match translated(raw@, old(table)@) {
            Ok((Some(w), after)) => out is Ok && out->Ok_0 is Some && out->Ok_0->0@ == w
                && final(table)@ == after,
            Ok((None, after)) => out is Ok && out->Ok_0 is None && final(table)@ == after,
            Err(e) => out == Err::<Option<String>, AssembleError>(e) && final(table)@ == old(
                table,
            )@,
        },
{
    let line = normalize(raw);
    match kind(line) {
        CommandType::ACOMMAND => match address_word(line, table) {
            Ok(w) => Ok(Some(w)),
            Err(e) => Err(e),
        },
        CommandType::CCOMMAND => match compute(line) {
            Ok(w) => Ok(Some(w)),
            Err(e) => Err(e),
        },
        _ => Ok(None),
    }
}

} // verus!

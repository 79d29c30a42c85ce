//! The assembler: the two passes over a source text, and the steps they
//! are made of.

pub mod utils;

use vstd::prelude::*;
use vstd::map_lib::lemma_submap_of_trans;
use vstd::string::*;
use crate::error::AssembleError;
use crate::instruction::{
    address_instruction, address_word, classify, compute, compute_instruction, kind, label,
    label_of, lemma_translated, strip_sigils, symbol_of, translate, translated,
};
use crate::parser::utils::CommandType;
use crate::program::{
    collected, encoded, instruction_count, is_outcome, lemma_collected_error, lemma_encoded_error,
    rendered,
};
use crate::symbols::{initial_symbols, SymbolTable, Symbols};
use crate::tables::{comp_bits, comp_table, dest_bits, dest_table, jump_bits, jump_table};
use crate::text::{lines_of, lines_view, normalize, split_lines, to_chars, to_string};

verus! {

/// The assembler.
pub struct Parser;

impl Parser {
    /// Assembles a source text: the first pass binds the labels, the
    /// second encodes the instructions. The result is the program, one
    /// word per line, or the first error of the run.
    ///
    /// The result is a function of the source alone: to assemble the same
    /// text again gives the same program.
    pub fn handle(self, source: &str) -> (program: Result<String, AssembleError>)
        ensures
            is_outcome(source@, program),
    {
        let mut symbol_table = match self.collect_labels(source) {
            Ok(table) => table,
            Err(e) => { return Err(e); },
        };
        self.encode(source, &mut symbol_table)
    }

    /// The first pass: a fresh table in which every label that `source`
    /// declares is bound to the address of the instruction that follows
    /// its declaration.
    pub fn collect_labels(&self, source: &str) -> (labels: Result<SymbolTable, AssembleError>)
        ensures
            match collected(lines_of(source@), initial_symbols(), 0) {
                Ok(symbols) => labels is Ok && labels->Ok_0@ == symbols && symbols.wf(),
                Err(e) => labels is Err && labels->Err_0 == e,
            },
    {
        let chars = to_chars(source);
        let lines = split_lines(chars.as_slice());
        let ghost all = lines_of(source@);
        let mut symbol_table = SymbolTable::new();
        let mut counter: usize = 0;
        let mut i: usize = 0;
        while i < lines.len()
            invariant
                i <= lines.len(),
                lines_view(lines@) == all,
                all == lines_of(source@),
                symbol_table@.wf(),
                collected(all.take(i as int), initial_symbols(), 0) == Ok::<Symbols, AssembleError>(
                    symbol_table@,
                ),
                counter == instruction_count(all.take(i as int)),
                counter <= i,
            decreases lines.len() - i,
        {
            let line = normalize(lines[i]);
            proof {
                assert(all.take(i + 1).drop_last() =~= all.take(i as int));
                assert(all.take(i + 1).last() == lines@[i as int]@);
            }
            match kind(line) {
                CommandType::ACOMMAND | CommandType::CCOMMAND => {
                    counter += 1;
                },
                CommandType::LCOMMAND => {
                    let name = to_string(label(line));
                    match symbol_table.define(name.as_str(), counter) {
                        Ok(_) => {},
                        Err(e) => {
                            proof {
                                lemma_collected_error(all, initial_symbols(), 0, i + 1);
                            }
                            return Err(e);
                        },
                    }
                },
                CommandType::NOCOMMAND => {},
            }
            i += 1;
        }
        assert(all.take(i as int) =~= all);
        Ok(symbol_table)
    }

    /// The second pass: the program that the instructions of `source`
    /// encode to, one word per line. Names that the table does not hold
    /// are bound to fresh variable slots as they are met.
    pub fn encode(&self, source: &str, symbol_table: &mut SymbolTable) -> (program: Result<
        String,
        AssembleError,
    >)
        requires
            old(symbol_table)@.wf(),
        ensures
            final(symbol_table)@.wf(),
            match encoded(lines_of(source@), old(symbol_table)@) {
                Ok((words, after)) => program is Ok && program->Ok_0@ == rendered(words)
                    && final(symbol_table)@ == after,
                Err(e) => program == Err::<String, AssembleError>(e),
            },
            old(symbol_table)@.bindings.submap_of(final(symbol_table)@.bindings),
    {
        let chars = to_chars(source);
        let lines = split_lines(chars.as_slice());
        let ghost all = lines_of(source@);
        let ghost start = symbol_table@;
        let ghost words: Seq<Seq<char>> = Seq::empty();
        let mut program = String::new();
        let mut i: usize = 0;
        while i < lines.len()
            invariant
                i <= lines.len(),
                lines_view(lines@) == all,
                all == lines_of(source@),
                symbol_table@.wf(),
                start == old(symbol_table)@,
                start.bindings.submap_of(symbol_table@.bindings),
                encoded(all.take(i as int), start) == Ok::<(Seq<Seq<char>>, Symbols), AssembleError>(
                    (words, symbol_table@),
                ),
                program@ == rendered(words),
            decreases lines.len() - i,
        {
            let ghost before = symbol_table@;
            proof {
                assert(all.take(i + 1).drop_last() =~= all.take(i as int));
                assert(all.take(i + 1).last() == lines@[i as int]@);
                if translated(lines@[i as int]@, before) is Ok {
                    lemma_translated(lines@[i as int]@, before);
                    lemma_submap_of_trans(
                        start.bindings,
                        before.bindings,
                        translated(lines@[i as int]@, before)->Ok_0.1.bindings,
                    );
                }
            }
            match translate(lines[i], symbol_table) {
                Ok(Some(w)) => {
                    program.append(w.as_str());
                    program.push('\n');
                    proof {
                        assert(words.push(w@).drop_last() =~= words);
                        words = words.push(w@);
                    }
                },
                Ok(None) => {},
                Err(e) => {
                    proof {
                        lemma_encoded_error(all, start, i + 1);
                    }
                    return Err(e);
                },
            }
            i += 1;
        }
        assert(all.take(i as int) =~= all);
        Ok(program)
    }

    /// Translates one raw source line: the word of an instruction, or
    /// nothing for a label declaration, a comment or a blank line.
    pub fn parse(&self, line: &str, symbol_table: &mut SymbolTable) -> (out: Result<
        Option<String>,
        AssembleError,
    >)
        requires
            old(symbol_table)@.wf(),
        ensures
            final(symbol_table)@.wf(),
            match translated(line@, old(symbol_table)@) {
                Ok((Some(w), after)) => out is Ok && out->Ok_0 is Some && out->Ok_0->0@ == w
                    && final(symbol_table)@ == after,
                Ok((None, after)) => out is Ok && out->Ok_0 is None && final(symbol_table)@
                    == after,
                Err(e) => out == Err::<Option<String>, AssembleError>(e) && final(symbol_table)@
                    == old(symbol_table)@,
            },
    {
        let chars = to_chars(line);
        translate(chars.as_slice(), symbol_table)
    }

    /// Classifies a raw source line: its comment and the whitespace around
    /// it do not count, the first character of what is left decides.
    pub fn decode_command_type(&self, line: &str) -> (kind: CommandType)
        ensures
            kind == classify(line@),
    {
        let chars = to_chars(line);
        kind(normalize(chars.as_slice()))
    }

    /// Encodes an address-instruction. A numeral stands for its value, a
    /// bound name for its address, and a name that is not bound is bound to
    /// the next free variable slot.
    pub fn handle_a_command(&self, line: &str, symbol_table: &mut SymbolTable) -> (encoded: Result<
        String,
        AssembleError,
    >)
        requires
            old(symbol_table)@.wf(),
        ensures
            final(symbol_table)@.wf(),
            match address_instruction(line@, old(symbol_table)@) {
                Ok((w, after)) => encoded is Ok && encoded->Ok_0@ == w && final(symbol_table)@
                    == after,
                Err(e) => encoded == Err::<String, AssembleError>(e) && final(symbol_table)@
                    == old(symbol_table)@,
            },
    {
        let chars = to_chars(line);
        address_word(chars.as_slice(), symbol_table)
    }

    /// The name that a label declaration declares.
    pub fn handle_l_command(&self, line: &str) -> (name: String)
        ensures
            name@ == label_of(line@),
    {
        let chars = to_chars(line);
        to_string(label(chars.as_slice()))
    }

    /// Encodes a compute-instruction.
    pub fn handle_c_command(&self, line: &str) -> (encoded: Result<String, AssembleError>)
        ensures
            match compute_instruction(line@) {
                Ok(w) => encoded is Ok && encoded->Ok_0@ == w,
                Err(e) => encoded == Err::<String, AssembleError>(e),
            },
    {
        let chars = to_chars(line);
        compute(chars.as_slice())
    }

    /// The three bits of a jump mnemonic.
    pub fn resolve_jump(&self, jump: &str) -> (bits: Result<&'static str, AssembleError>)
        ensures
            bits is Ok <==> jump_table().contains_key(jump@),
            bits is Ok ==> bits->Ok_0@ == jump_table()[jump@],
            bits is Err ==> bits->Err_0 == AssembleError::Syntax,
    {
        let chars = to_chars(jump);
        match jump_bits(chars.as_slice()) {
            Some(b) => Ok(b),
            None => Err(AssembleError::Syntax),
        }
    }

    /// The three bits of a destination mnemonic.
    pub fn resolve_dest(&self, dest: &str) -> (bits: Result<&'static str, AssembleError>)
        ensures
            bits is Ok <==> dest_table().contains_key(dest@),
            bits is Ok ==> bits->Ok_0@ == dest_table()[dest@],
            bits is Err ==> bits->Err_0 == AssembleError::Syntax,
    {
        let chars = to_chars(dest);
        match dest_bits(chars.as_slice()) {
            Some(b) => Ok(b),
            None => Err(AssembleError::Syntax),
        }
    }

    /// The six bits of a computation mnemonic.
    pub fn resolve_comp(&self, comp: &str) -> (bits: Result<&'static str, AssembleError>)
        ensures
            bits is Ok <==> comp_table().contains_key(comp@),
            bits is Ok ==> bits->Ok_0@ == comp_table()[comp@],
            bits is Err ==> bits->Err_0 == AssembleError::Syntax,
    {
        let chars = to_chars(comp);
        match comp_bits(chars.as_slice()) {
            Some(b) => Ok(b),
            None => Err(AssembleError::Syntax),
        }
    }

    /// What a line names, without the sigils at its ends.
    pub fn symbol(&self, line: &str) -> (name: String)
        ensures
            name@ == symbol_of(line@),
    {
        let chars = to_chars(line);
        to_string(strip_sigils(chars.as_slice()))
    }
}

} // verus!

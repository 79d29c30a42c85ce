//! What a whole source text means: the two passes over its lines, and the
//! text of the program that they produce.

use vstd::prelude::*;
use vstd::map_lib::lemma_submap_of_trans;
use crate::binary::is_bits;
use crate::error::AssembleError;
use crate::instruction::{classify, label_of, lemma_translated, translated};
use crate::parser::utils::CommandType;
use crate::symbols::{initial_symbols, lemma_define, Symbols};
use crate::text::{lemma_first_index, lines_of, normalized};

verus! {

/// Whether a raw line is an instruction: whether it takes up an address
/// of the program.
pub open spec fn is_instruction(raw: Seq<char>) -> bool {
    classify(raw) == CommandType::ACOMMAND || classify(raw) == CommandType::CCOMMAND
}

/// The number of instructions among `lines`.
pub open spec fn instruction_count(lines: Seq<Seq<char>>) -> nat
    decreases lines.len(),
{
    if lines.len() == 0 {
        0
    } else if is_instruction(lines.last()) {
        instruction_count(lines.drop_last()) + 1
    } else {
        instruction_count(lines.drop_last())
    }
}

/// The first pass. The table after the label declarations among `lines`
/// were defined in order, each with the address of the instruction that
/// follows it: `base` and the number of instructions before it.
pub open spec fn collected(lines: Seq<Seq<char>>, symbols: Symbols, base: nat) -> Result<
    Symbols,
    AssembleError,
>
    decreases lines.len(),
{
    if lines.len() == 0 {
        Ok(symbols)
    } else {
        match collected(lines.drop_last(), symbols, base) {
            Err(e) => Err(e),
            Ok(before) => if classify(lines.last()) == CommandType::LCOMMAND {
                before.define(
                    label_of(normalized(lines.last())),
                    base + instruction_count(lines.drop_last()),
                )
            } else {
                Ok(before)
            },
        }
    }
}

/// The second pass. The words of the instructions among `lines`, in
/// order, and the table after their operands were resolved.
pub open spec fn encoded(lines: Seq<Seq<char>>, symbols: Symbols) -> Result<
    (Seq<Seq<char>>, Symbols),
    AssembleError,
>
    decreases lines.len(),
{
    if lines.len() == 0 {
        Ok((Seq::empty(), symbols))
    } else {
        match encoded(lines.drop_last(), symbols) {
            Err(e) => Err(e),
            Ok((words, before)) => match translated(lines.last(), before) {
                Err(e) => Err(e),
                Ok((Some(w), after)) => Ok((words.push(w), after)),
                Ok((None, after)) => Ok((words, after)),
            },
        }
    }
}

/// The text of a program: each word followed by a line feed.
pub open spec fn rendered(words: Seq<Seq<char>>) -> Seq<char>
    decreases words.len(),
{
    if words.len() == 0 {
        Seq::empty()
    } else {
        rendered(words.drop_last()) + words.last() + seq!['\n']
    }
}

/// The program that a source text assembles to. The first pass runs over
/// all lines before the second begins; the first error of either ends the
/// run.
pub open spec fn assembled(source: Seq<char>) -> Result<Seq<char>, AssembleError> {
    let lines = lines_of(source);
    match collected(lines, initial_symbols(), 0) {
        Err(e) => Err(e),
        Ok(symbols) => match encoded(lines, symbols) {
            Err(e) => Err(e),
            Ok((words, _)) => Ok(rendered(words)),
        },
    }
}

/// Whether `outcome` is what assembling `source` gives: the text of the
/// program, or the error that ended the run.
pub open spec fn is_outcome(source: Seq<char>, outcome: Result<String, AssembleError>) -> bool {
    match assembled(source) {
        Ok(text) => outcome is Ok && outcome->Ok_0@ == text,
        Err(e) => outcome == Err::<String, AssembleError>(e),
    }
}

/// An error of the first pass stays when more lines follow.
pub proof fn lemma_collected_error(lines: Seq<Seq<char>>, symbols: Symbols, base: nat, n: int)
    requires
        0 <= n <= lines.len(),
        collected(lines.take(n), symbols, base) is Err,
    ensures
        collected(lines, symbols, base) == collected(lines.take(n), symbols, base),
    decreases lines.len(),
{
    if n == lines.len() {
        assert(lines.take(n) =~= lines);
    } else {
        assert(lines.drop_last().take(n) =~= lines.take(n));
        lemma_collected_error(lines.drop_last(), symbols, base, n);
    }
}

/// An error of the second pass stays when more lines follow.
pub proof fn lemma_encoded_error(lines: Seq<Seq<char>>, symbols: Symbols, n: int)
    requires
        0 <= n <= lines.len(),
        encoded(lines.take(n), symbols) is Err,
    ensures
        encoded(lines, symbols) == encoded(lines.take(n), symbols),
    decreases lines.len(),
{
    if n == lines.len() {
        assert(lines.take(n) =~= lines);
    } else {
        assert(lines.drop_last().take(n) =~= lines.take(n));
        lemma_encoded_error(lines.drop_last(), symbols, n);
    }
}

/// The address of line `k`: the number of instructions before it. An
/// instruction is stored there; a label declared there names it.
pub open spec fn address_at(lines: Seq<Seq<char>>, k: int) -> nat {
    instruction_count(lines.take(k))
}

/// The instructions of two texts in a row are counted one after the other.
pub proof fn lemma_instruction_count_concat(a: Seq<Seq<char>>, b: Seq<Seq<char>>)
    ensures
        instruction_count(a + b) == instruction_count(a) + instruction_count(b),
    decreases b.len(),
{
    if b.len() == 0 {
        assert(a + b =~= a);
    } else {
        assert((a + b).drop_last() =~= a + b.drop_last());
        lemma_instruction_count_concat(a, b.drop_last());
    }
}

/// The first pass over two texts in a row is the pass over the first, then
/// the pass over the second with the addresses moved on by the
/// instructions of the first.
pub proof fn lemma_collected_concat(
    a: Seq<Seq<char>>,
    b: Seq<Seq<char>>,
    symbols: Symbols,
    base: nat,
)
    ensures
        collected(a + b, symbols, base) == match collected(a, symbols, base) {
            Err(e) => Err(e),
            Ok(between) => collected(b, between, base + instruction_count(a)),
        },
    decreases b.len(),
{
    if b.len() == 0 {
        assert(a + b =~= a);
    } else {
        assert((a + b).drop_last() =~= a + b.drop_last());
        lemma_collected_concat(a, b.drop_last(), symbols, base);
        lemma_instruction_count_concat(a, b.drop_last());
    }
}

/// The second pass over two texts in a row is the pass over the first,
/// then the pass over the second with the table that the first left; the
/// words of the first precede those of the second.
pub proof fn lemma_encoded_concat(a: Seq<Seq<char>>, b: Seq<Seq<char>>, symbols: Symbols)
    ensures
        encoded(a + b, symbols) == match encoded(a, symbols) {
            Err(e) => Err(e),
            Ok((first, between)) => match encoded(b, between) {
                Err(e) => Err(e),
                Ok((second, after)) => Ok((first + second, after)),
            },
        },
    decreases b.len(),
{
    if b.len() == 0 {
        assert(a + b =~= a);
        match encoded(a, symbols) {
            Ok((first, between)) => {
                assert(first + Seq::<Seq<char>>::empty() =~= first);
            },
            Err(e) => {},
        }
    } else {
        assert((a + b).drop_last() =~= a + b.drop_last());
        lemma_encoded_concat(a, b.drop_last(), symbols);
        match encoded(a, symbols) {
            Ok((first, between)) => {
                match encoded(b.drop_last(), between) {
                    Ok((second, before)) => {
                        match translated(b.last(), before) {
                            Ok((Some(w), after)) => {
                                assert((first + second).push(w) =~= first + second.push(w));
                            },
                            _ => {},
                        }
                    },
                    Err(e) => {},
                }
            },
            Err(e) => {},
        }
    }
}

/// The first pass keeps a well-formed table well formed, leaves what was
/// bound as it was, hands out no variable slot, and binds the name of
/// every label declaration to the address of the line that declares it.
pub proof fn lemma_collected(lines: Seq<Seq<char>>, symbols: Symbols, base: nat)
    requires
        symbols.wf(),
        collected(lines, symbols, base) is Ok,
    ensures
        collected(lines, symbols, base)->Ok_0.wf(),
        symbols.bindings.submap_of(collected(lines, symbols, base)->Ok_0.bindings),
        collected(lines, symbols, base)->Ok_0.next == symbols.next,
        forall|k: int|
            0 <= k < lines.len() && classify(#[trigger] lines[k]) == CommandType::LCOMMAND
                ==> collected(lines, symbols, base)->Ok_0.lookup(label_of(normalized(lines[k])))
                == Some(base + address_at(lines, k)),
    decreases lines.len(),
{
    if lines.len() > 0 {
        let init = lines.drop_last();
        let before = collected(init, symbols, base)->Ok_0;
        let after = collected(lines, symbols, base)->Ok_0;
        lemma_collected(init, symbols, base);
        if classify(lines.last()) == CommandType::LCOMMAND {
            lemma_define(before, label_of(normalized(lines.last())), base + instruction_count(init));
        }
        assert forall|k: int|
            0 <= k < lines.len() && classify(#[trigger] lines[k]) == CommandType::LCOMMAND implies after.lookup(
            label_of(normalized(lines[k])),
        ) == Some(base + address_at(lines, k)) by {
            if k < init.len() {
                assert(init[k] == lines[k]);
                assert(init.take(k) =~= lines.take(k));
            } else {
                assert(lines.take(k) =~= init);
            }
        }
    }
}

/// The second pass keeps a well-formed table well formed and leaves what
/// was bound as it was. It gives one word for each instruction, and each
/// word has 16 binary digits.
pub proof fn lemma_encoded(lines: Seq<Seq<char>>, symbols: Symbols)
    requires
        symbols.wf(),
        encoded(lines, symbols) is Ok,
    ensures
        encoded(lines, symbols)->Ok_0.1.wf(),
        symbols.bindings.submap_of(encoded(lines, symbols)->Ok_0.1.bindings),
        symbols.next <= encoded(lines, symbols)->Ok_0.1.next,
        encoded(lines, symbols)->Ok_0.0.len() == instruction_count(lines),
        forall|i: int|
            0 <= i < encoded(lines, symbols)->Ok_0.0.len() ==> is_bits(
                #[trigger] encoded(lines, symbols)->Ok_0.0[i],
                16,
            ),
    decreases lines.len(),
{
    if lines.len() > 0 {
        let init = lines.drop_last();
        let before = encoded(init, symbols)->Ok_0.1;
        lemma_encoded(init, symbols);
        lemma_translated(lines.last(), before);
        lemma_submap_of_trans(
            symbols.bindings,
            before.bindings,
            encoded(lines, symbols)->Ok_0.1.bindings,
        );
    }
}

/// The table as the second pass finds it when it comes to line `k`.
pub open spec fn table_at(lines: Seq<Seq<char>>, symbols: Symbols, k: int) -> Symbols {
    encoded(lines.take(k), symbols)->Ok_0.1
}

/// The second pass, line by line. Where the pass succeeds, it succeeds up
/// to every line `k`; line `k` is translated with the table that the
/// lines before it left, and the word of an instruction is stored at the
/// address of its line.
pub proof fn lemma_encoded_line(lines: Seq<Seq<char>>, symbols: Symbols, k: int)
    requires
        symbols.wf(),
        encoded(lines, symbols) is Ok,
        0 <= k < lines.len(),
    ensures
        encoded(lines.take(k), symbols) is Ok,
        table_at(lines, symbols, k).wf(),
        symbols.bindings.submap_of(table_at(lines, symbols, k).bindings),
        symbols.next <= table_at(lines, symbols, k).next,
        translated(lines[k], table_at(lines, symbols, k)) is Ok,
        translated(lines[k], table_at(lines, symbols, k))->Ok_0.1 == table_at(lines, symbols, k + 1),
        table_at(lines, symbols, k + 1).bindings.submap_of(encoded(lines, symbols)->Ok_0.1.bindings),
        is_instruction(lines[k]) ==> address_at(lines, k) < encoded(lines, symbols)->Ok_0.0.len()
            && translated(lines[k], table_at(lines, symbols, k))->Ok_0.0 == Some(
            encoded(lines, symbols)->Ok_0.0[address_at(lines, k) as int],
        ),
{
    let head = lines.take(k + 1);
    let tail = lines.skip(k + 1);
    assert(head + tail =~= lines);
    lemma_encoded_concat(head, tail, symbols);
    assert(head.drop_last() =~= lines.take(k));
    assert(head.last() == lines[k]);
    let before = table_at(lines, symbols, k);
    let between = table_at(lines, symbols, k + 1);
    lemma_encoded(lines.take(k), symbols);
    lemma_translated(lines[k], before);
    lemma_encoded(tail, between);
}

/// The text of two programs in a row is the text of the first, then the
/// text of the second.
pub proof fn lemma_rendered_concat(a: Seq<Seq<char>>, b: Seq<Seq<char>>)
    ensures
        rendered(a + b) == rendered(a) + rendered(b),
    decreases b.len(),
{
    if b.len() == 0 {
        assert(a + b =~= a);
        assert(rendered(a) + rendered(b) =~= rendered(a));
    } else {
        assert((a + b).drop_last() =~= a + b.drop_last());
        lemma_rendered_concat(a, b.drop_last());
        assert(rendered(a + b) =~= rendered(a) + rendered(b));
    }
}

/// The text of a program holds its words line by line: split at the line
/// feeds, it gives the words back, and an empty line after the last.
pub proof fn lemma_rendered_lines(words: Seq<Seq<char>>)
    requires
        forall|i: int| 0 <= i < words.len() ==> is_bits(#[trigger] words[i], 16),
    ensures
        rendered(words).len() == 17 * words.len(),
        lines_of(rendered(words)) == words.push(Seq::empty()),
    decreases words.len(),
{
    if words.len() == 0 {
        assert(lines_of(rendered(words)) =~= words.push(Seq::empty()));
    } else {
        let w = words.first();
        let rest = words.drop_first();
        assert(seq![w] + rest =~= words);
        lemma_rendered_concat(seq![w], rest);
        assert(seq![w].drop_last() =~= Seq::<Seq<char>>::empty());
        assert(seq![w].last() == w);
        assert(rendered(seq![w].drop_last()) =~= Seq::<char>::empty());
        assert(rendered(seq![w]) =~= w + seq!['\n']);
        assert forall|i: int| 0 <= i < rest.len() implies is_bits(#[trigger] rest[i], 16) by {
            assert(rest[i] == words[i + 1]);
        }
        lemma_rendered_lines(rest);
        let text = rendered(words);
        assert(is_bits(words[0], 16));
        assert forall|j: int| 0 <= j < 16 implies #[trigger] text[j] != '\n' by {
            assert(text[j] == w[j]);
        }
        lemma_first_index(text, '\n', 16);
        assert(text.take(16) =~= w);
        assert(text.skip(17) =~= rendered(rest));
        assert(lines_of(text) =~= words.push(Seq::empty()));
    }
}

} // verus!

//! The symbol table: names bound to addresses, and the counter of free
//! variable slots.

use vstd::prelude::*;
use vstd::hash_map::StringHashMap;
use vstd::string::*;
use crate::binary::MAX_ADDRESS;
use crate::error::AssembleError;

verus! {

/// The first address given to a variable.
pub const FIRST_VARIABLE: u16 = 16;

/// The names that every table holds from the start, with their addresses.
pub open spec fn seed_table() -> Map<Seq<char>, nat> {
    map![
        "SP"@ => 0nat,
        "LCL"@ => 1nat,
        "ARG"@ => 2nat,
        "THIS"@ => 3nat,
        "THAT"@ => 4nat,
        "SCREEN"@ => 16384nat,
        "KBD"@ => 24576nat,
        "R0"@ => 0nat,
        "R1"@ => 1nat,
        "R2"@ => 2nat,
        "R3"@ => 3nat,
        "R4"@ => 4nat,
        "R5"@ => 5nat,
        "R6"@ => 6nat,
        "R7"@ => 7nat,
        "R8"@ => 8nat,
        "R9"@ => 9nat,
        "R10"@ => 10nat,
        "R11"@ => 11nat,
        "R12"@ => 12nat,
        "R13"@ => 13nat,
        "R14"@ => 14nat,
        "R15"@ => 15nat,
    ]
}

/// What a symbol table holds: the bindings of names to addresses, and the
/// address of the next free variable slot.
pub struct Symbols {
    pub bindings: Map<Seq<char>, nat>,
    pub next: nat,
}

/// The table at the start of a run: the seeded names and no other.
pub open spec fn initial_symbols() -> Symbols {
    Symbols { bindings: seed_table(), next: FIRST_VARIABLE as nat }
}

impl Symbols {
    /// The seeded names are bound as seeded, every address fits an
    /// address-instruction, and the variable slots start after the
    /// registers.
    pub open spec fn wf(self) -> bool {
        &&& seed_table().submap_of(self.bindings)
        &&& forall|name: Seq<char>| #[trigger]
            self.bindings.contains_key(name) ==> self.bindings[name] <= MAX_ADDRESS
        &&& FIRST_VARIABLE <= self.next <= MAX_ADDRESS + 1
    }

    /// The address bound to `name`, if any.
    pub open spec fn lookup(self, name: Seq<char>) -> Option<nat> {
        if self.bindings.contains_key(name) {
            Some(self.bindings[name])
        } else {
            None
        }
    }

    /// Binds `name` to `address`. A name that is bound keeps its address:
    /// to define it again with the same address changes nothing, with
    /// another address it is a conflict. An address that no
    /// address-instruction can hold is refused.
    pub open spec fn define(self, name: Seq<char>, address: nat) -> Result<Symbols, AssembleError> {
        if address > MAX_ADDRESS {
            Err(AssembleError::Symbol)
        } else if !self.bindings.contains_key(name) {
            Ok(Symbols { bindings: self.bindings.insert(name, address), next: self.next })
        } else if self.bindings[name] == address {
            Ok(self)
        } else {
            Err(AssembleError::Symbol)
        }
    }

    /// Hands out the next free variable slot, unless all are taken.
    pub open spec fn allocate(self) -> Result<(nat, Symbols), AssembleError> {
        if self.next > MAX_ADDRESS {
            Err(AssembleError::Symbol)
        } else {
            Ok((self.next, Symbols { bindings: self.bindings, next: self.next + 1 }))
        }
    }

    /// The address of `name`: the one it is bound to, or else a fresh
    /// variable slot, to which it is bound from then on.
    pub open spec fn resolve(self, name: Seq<char>) -> Result<(nat, Symbols), AssembleError> {
        if self.bindings.contains_key(name) {
            Ok((self.bindings[name], self))
        } else {
            match self.allocate() {
                Ok((address, rest)) => Ok(
                    (address, Symbols { bindings: rest.bindings.insert(name, address), next: rest.next }),
                ),
                Err(e) => Err(e),
            }
        }
    }
}

/// The seed table read entry by entry.
pub proof fn lemma_seed_table()
    ensures
        seed_table().contains_key("SP"@) && seed_table()["SP"@] == 0,
        seed_table().contains_key("LCL"@) && seed_table()["LCL"@] == 1,
        seed_table().contains_key("ARG"@) && seed_table()["ARG"@] == 2,
        seed_table().contains_key("THIS"@) && seed_table()["THIS"@] == 3,
        seed_table().contains_key("THAT"@) && seed_table()["THAT"@] == 4,
        seed_table().contains_key("SCREEN"@) && seed_table()["SCREEN"@] == 16384,
        seed_table().contains_key("KBD"@) && seed_table()["KBD"@] == 24576,
        seed_table().contains_key("R0"@) && seed_table()["R0"@] == 0,
        seed_table().contains_key("R1"@) && seed_table()["R1"@] == 1,
        seed_table().contains_key("R2"@) && seed_table()["R2"@] == 2,
        seed_table().contains_key("R3"@) && seed_table()["R3"@] == 3,
        seed_table().contains_key("R4"@) && seed_table()["R4"@] == 4,
        seed_table().contains_key("R5"@) && seed_table()["R5"@] == 5,
        seed_table().contains_key("R6"@) && seed_table()["R6"@] == 6,
        seed_table().contains_key("R7"@) && seed_table()["R7"@] == 7,
        seed_table().contains_key("R8"@) && seed_table()["R8"@] == 8,
        seed_table().contains_key("R9"@) && seed_table()["R9"@] == 9,
        seed_table().contains_key("R10"@) && seed_table()["R10"@] == 10,
        seed_table().contains_key("R11"@) && seed_table()["R11"@] == 11,
        seed_table().contains_key("R12"@) && seed_table()["R12"@] == 12,
        seed_table().contains_key("R13"@) && seed_table()["R13"@] == 13,
        seed_table().contains_key("R14"@) && seed_table()["R14"@] == 14,
        seed_table().contains_key("R15"@) && seed_table()["R15"@] == 15,
        forall|name: Seq<char>| #[trigger]
            seed_table().contains_key(name) ==> {
                ||| name == "SP"@
                ||| name == "LCL"@
                ||| name == "ARG"@
                ||| name == "THIS"@
                ||| name == "THAT"@
                ||| name == "SCREEN"@
                ||| name == "KBD"@
                ||| name == "R0"@
                ||| name == "R1"@
                ||| name == "R2"@
                ||| name == "R3"@
                ||| name == "R4"@
                ||| name == "R5"@
                ||| name == "R6"@
                ||| name == "R7"@
                ||| name == "R8"@
                ||| name == "R9"@
                ||| name == "R10"@
                ||| name == "R11"@
                ||| name == "R12"@
                ||| name == "R13"@
                ||| name == "R14"@
                ||| name == "R15"@
            },
        forall|name: Seq<char>| #[trigger]
            seed_table().contains_key(name) ==> name.len() > 0 && 'A' <= name[0] <= 'Z',
{
    reveal_strlit("SP");
    reveal_strlit("LCL");
    reveal_strlit("ARG");
    reveal_strlit("THIS");
    reveal_strlit("THAT");
    reveal_strlit("SCREEN");
    reveal_strlit("KBD");
    reveal_strlit("R0");
    reveal_strlit("R1");
    reveal_strlit("R2");
    reveal_strlit("R3");
    reveal_strlit("R4");
    reveal_strlit("R5");
    reveal_strlit("R6");
    reveal_strlit("R7");
    reveal_strlit("R8");
    reveal_strlit("R9");
    reveal_strlit("R10");
    reveal_strlit("R11");
    reveal_strlit("R12");
    reveal_strlit("R13");
    reveal_strlit("R14");
    reveal_strlit("R15");
    assert("SP"@.len() == 2 && "SP"@[0] == 'S' && "SP"@[1] == 'P');
    assert("LCL"@.len() == 3 && "LCL"@[0] == 'L' && "LCL"@[1] == 'C' && "LCL"@[2] == 'L');
    assert("ARG"@.len() == 3 && "ARG"@[0] == 'A' && "ARG"@[1] == 'R' && "ARG"@[2] == 'G');
    assert("THIS"@.len() == 4
        && "THIS"@[0] == 'T'
        && "THIS"@[1] == 'H'
        && "THIS"@[2] == 'I'
        && "THIS"@[3] == 'S');
    assert("THAT"@.len() == 4
        && "THAT"@[0] == 'T'
        && "THAT"@[1] == 'H'
        && "THAT"@[2] == 'A'
        && "THAT"@[3] == 'T');
    assert("SCREEN"@.len() == 6
        && "SCREEN"@[0] == 'S'
        && "SCREEN"@[1] == 'C'
        && "SCREEN"@[2] == 'R'
        && "SCREEN"@[3] == 'E'
        && "SCREEN"@[4] == 'E'
        && "SCREEN"@[5] == 'N');
    assert("KBD"@.len() == 3 && "KBD"@[0] == 'K' && "KBD"@[1] == 'B' && "KBD"@[2] == 'D');
    assert("R0"@.len() == 2 && "R0"@[0] == 'R' && "R0"@[1] == '0');
    assert("R1"@.len() == 2 && "R1"@[0] == 'R' && "R1"@[1] == '1');
    assert("R2"@.len() == 2 && "R2"@[0] == 'R' && "R2"@[1] == '2');
    assert("R3"@.len() == 2 && "R3"@[0] == 'R' && "R3"@[1] == '3');
    assert("R4"@.len() == 2 && "R4"@[0] == 'R' && "R4"@[1] == '4');
    assert("R5"@.len() == 2 && "R5"@[0] == 'R' && "R5"@[1] == '5');
    assert("R6"@.len() == 2 && "R6"@[0] == 'R' && "R6"@[1] == '6');
    assert("R7"@.len() == 2 && "R7"@[0] == 'R' && "R7"@[1] == '7');
    assert("R8"@.len() == 2 && "R8"@[0] == 'R' && "R8"@[1] == '8');
    assert("R9"@.len() == 2 && "R9"@[0] == 'R' && "R9"@[1] == '9');
    assert("R10"@.len() == 3 && "R10"@[0] == 'R' && "R10"@[1] == '1' && "R10"@[2] == '0');
    assert("R11"@.len() == 3 && "R11"@[0] == 'R' && "R11"@[1] == '1' && "R11"@[2] == '1');
    assert("R12"@.len() == 3 && "R12"@[0] == 'R' && "R12"@[1] == '1' && "R12"@[2] == '2');
    assert("R13"@.len() == 3 && "R13"@[0] == 'R' && "R13"@[1] == '1' && "R13"@[2] == '3');
    assert("R14"@.len() == 3 && "R14"@[0] == 'R' && "R14"@[1] == '1' && "R14"@[2] == '4');
    assert("R15"@.len() == 3 && "R15"@[0] == 'R' && "R15"@[1] == '1' && "R15"@[2] == '5');
}

/// The initial table is well formed.
pub proof fn lemma_initial_symbols_wf()
    ensures
        initial_symbols().wf(),
{
    lemma_seed_table();
}

/// To define a name keeps a well-formed table well formed and leaves what
/// was bound as it was; the name is then bound to the address given.
pub proof fn lemma_define(symbols: Symbols, name: Seq<char>, address: nat)
    requires
        symbols.wf(),
        symbols.define(name, address) is Ok,
    ensures
        symbols.define(name, address)->Ok_0.wf(),
        symbols.bindings.submap_of(symbols.define(name, address)->Ok_0.bindings),
        symbols.define(name, address)->Ok_0.lookup(name) == Some(address),
        symbols.define(name, address)->Ok_0.next == symbols.next,
{
}

/// To resolve a name keeps a well-formed table well formed and leaves what
/// was bound as it was; the name is then bound to the address found.
pub proof fn lemma_resolve(symbols: Symbols, name: Seq<char>)
    requires
        symbols.wf(),
        symbols.resolve(name) is Ok,
    ensures
        symbols.resolve(name)->Ok_0.1.wf(),
        symbols.bindings.submap_of(symbols.resolve(name)->Ok_0.1.bindings),
        symbols.resolve(name)->Ok_0.1.lookup(name) == Some(symbols.resolve(name)->Ok_0.0),
        symbols.resolve(name)->Ok_0.0 <= MAX_ADDRESS,
        symbols.next <= symbols.resolve(name)->Ok_0.1.next,
{
}

/// A symbol table: names bound to addresses, seeded with the names of the
/// architecture, and the counter of free variable slots.
pub struct SymbolTable {
    symbol_table: StringHashMap<u16>,
    next_available_ram_slot: u16,
}

impl View for SymbolTable {
    type V = Symbols;

    closed spec fn view(&self) -> Symbols {
        Symbols {
            bindings: self.symbol_table@.map_values(|address: u16| address as nat),
            next: self.next_available_ram_slot as nat,
        }
    }
}

impl SymbolTable {
    /// A fresh table that holds the seeded names.
    pub fn new() -> (table: SymbolTable)
        ensures
            table@ == initial_symbols(),
            table@.wf(),
    {
        let mut symbol_table: StringHashMap<u16> = StringHashMap::new();
        symbol_table.insert("SP".to_owned(), 0);
        symbol_table.insert("LCL".to_owned(), 1);
        symbol_table.insert("ARG".to_owned(), 2);
        symbol_table.insert("THIS".to_owned(), 3);
        symbol_table.insert("THAT".to_owned(), 4);
        symbol_table.insert("SCREEN".to_owned(), 16384);
        symbol_table.insert("KBD".to_owned(), 24576);
        symbol_table.insert("R0".to_owned(), 0);
        symbol_table.insert("R1".to_owned(), 1);
        symbol_table.insert("R2".to_owned(), 2);
        symbol_table.insert("R3".to_owned(), 3);
        symbol_table.insert("R4".to_owned(), 4);
        symbol_table.insert("R5".to_owned(), 5);
        symbol_table.insert("R6".to_owned(), 6);
        symbol_table.insert("R7".to_owned(), 7);
        symbol_table.insert("R8".to_owned(), 8);
        symbol_table.insert("R9".to_owned(), 9);
        symbol_table.insert("R10".to_owned(), 10);
        symbol_table.insert("R11".to_owned(), 11);
        symbol_table.insert("R12".to_owned(), 12);
        symbol_table.insert("R13".to_owned(), 13);
        symbol_table.insert("R14".to_owned(), 14);
        symbol_table.insert("R15".to_owned(), 15);
        proof {
            lemma_initial_symbols_wf();
            assert(symbol_table@.map_values(|address: u16| address as nat) =~= seed_table());
        }
        SymbolTable { symbol_table, next_available_ram_slot: FIRST_VARIABLE }
    }

    /// The address bound to `name`, if any.
    pub fn lookup(&self, name: &str) -> (address: Option<u16>)
        ensures
            match self@.lookup(name@) {
                Some(a) => address == Some(a as u16),
                None => address is None,
            },
    {
        match self.symbol_table.get(name) {
            Some(a) => Some(*a),
            None => None,
        }
    }

    /// Binds `name` to `address`, or reports the conflict with what the
    /// table holds.
    pub fn define(&mut self, name: &str, address: usize) -> (done: Result<(), AssembleError>)
        requires
            old(self)@.wf(),
        ensures
            final(self)@.wf(),
            match old(self)@.define(name@, address as nat) {
                Ok(after) => done is Ok && final(self)@ == after,
                Err(e) => done == Err::<(), AssembleError>(e) && final(self)@ == old(self)@,
            },
    {
        if address > MAX_ADDRESS as usize {
            return Err(AssembleError::Symbol);
        }
        match self.symbol_table.get(name) {
            None => {
                self.symbol_table.insert(name.to_owned(), address as u16);
                proof {
                    assert(final(self)@.bindings =~= old(self)@.bindings.insert(name@, address as nat));
                }
                Ok(())
            },
            Some(bound) => {
                if *bound as usize == address {
                    Ok(())
                } else {
                    Err(AssembleError::Symbol)
                }
            },
        }
    }

    /// Hands out the next free variable slot and moves the counter on,
    /// unless all slots are taken.
    pub fn allocate_variable(&mut self) -> (slot: Result<u16, AssembleError>)
        requires
            old(self)@.wf(),
        ensures
            final(self)@.wf(),
            match old(self)@.allocate() {
                Ok((a, after)) => slot == Ok::<u16, AssembleError>(a as u16) && final(self)@
                    == after,
                Err(e) => slot == Err::<u16, AssembleError>(e) && final(self)@ == old(self)@,
            },
    {
        if self.next_available_ram_slot > MAX_ADDRESS {
            return Err(AssembleError::Symbol);
        }
        let slot = self.next_available_ram_slot;
        self.next_available_ram_slot = slot + 1;
        Ok(slot)
    }

    /// The address of `name`: the one it is bound to, or else a fresh
    /// variable slot, to which the name is bound from then on.
    pub fn resolve(&mut self, name: &str) -> (address: Result<u16, AssembleError>)
        requires
            old(self)@.wf(),
        ensures
            final(self)@.wf(),
            match old(self)@.resolve(name@) {
                Ok((a, after)) => address == Ok::<u16, AssembleError>(a as u16) && final(self)@
                    == after,
                Err(e) => address == Err::<u16, AssembleError>(e) && final(self)@ == old(self)@,
            },
    {
        match self.lookup(name) {
            Some(a) => Ok(a),
            None => {
                let slot = self.allocate_variable()?;
                self.symbol_table.insert(name.to_owned(), slot);
                proof {
                    assert(final(self)@.bindings =~= old(self)@.bindings.insert(name@, slot as nat));
                }
                Ok(slot)
            },
        }
    }
}

} // verus!

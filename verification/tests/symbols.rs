use rustably::error::AssembleError;
use rustably::symbols::SymbolTable;

#[test]
fn new_table_holds_the_seeded_names() {
    let table = SymbolTable::new();
    assert_eq!(table.lookup("SP"), Some(0));
    assert_eq!(table.lookup("LCL"), Some(1));
    assert_eq!(table.lookup("ARG"), Some(2));
    assert_eq!(table.lookup("THIS"), Some(3));
    assert_eq!(table.lookup("THAT"), Some(4));
    assert_eq!(table.lookup("SCREEN"), Some(16384));
    assert_eq!(table.lookup("KBD"), Some(24576));
    for n in 0..16u16 {
        assert_eq!(table.lookup(&format!("R{}", n)), Some(n));
    }
}

#[test]
fn new_table_holds_nothing_else() {
    let table = SymbolTable::new();
    for name in ["", "R16", "r0", "sp", "LOOP", "i", "R", "SCREE", "KBD "] {
        assert_eq!(table.lookup(name), None, "{:?}", name);
    }
}

#[test]
fn define_binds_a_new_name() {
    let mut table = SymbolTable::new();
    assert_eq!(table.define("LOOP", 7), Ok(()));
    assert_eq!(table.lookup("LOOP"), Some(7));
    assert_eq!(table.define("END", 32767), Ok(()));
    assert_eq!(table.lookup("END"), Some(32767));
    assert_eq!(table.define("START", 0), Ok(()));
    assert_eq!(table.lookup("START"), Some(0));
}

#[test]
fn define_keeps_the_first_binding() {
    let mut table = SymbolTable::new();
    assert_eq!(table.define("LOOP", 7), Ok(()));
    assert_eq!(table.define("LOOP", 8), Err(AssembleError::Symbol));
    assert_eq!(table.lookup("LOOP"), Some(7));
    assert_eq!(table.define("LOOP", 7), Ok(()));
    assert_eq!(table.lookup("LOOP"), Some(7));
}

#[test]
fn define_never_overwrites_a_seeded_name() {
    let mut table = SymbolTable::new();
    assert_eq!(table.define("SCREEN", 5), Err(AssembleError::Symbol));
    assert_eq!(table.lookup("SCREEN"), Some(16384));
    assert_eq!(table.define("R3", 4), Err(AssembleError::Symbol));
    assert_eq!(table.lookup("R3"), Some(3));
    assert_eq!(table.define("R3", 3), Ok(()));
    assert_eq!(table.lookup("R3"), Some(3));
}

#[test]
fn define_refuses_what_is_no_address() {
    let mut table = SymbolTable::new();
    assert_eq!(table.define("FAR", 32768), Err(AssembleError::Symbol));
    assert_eq!(table.lookup("FAR"), None);
    assert_eq!(table.define("FARTHER", usize::MAX), Err(AssembleError::Symbol));
    assert_eq!(table.define("R0", 65536), Err(AssembleError::Symbol));
    assert_eq!(table.lookup("R0"), Some(0));
}

#[test]
fn allocate_variable_counts_from_sixteen() {
    let mut table = SymbolTable::new();
    assert_eq!(table.allocate_variable(), Ok(16));
    assert_eq!(table.allocate_variable(), Ok(17));
    assert_eq!(table.allocate_variable(), Ok(18));
}

#[test]
fn allocate_variable_ends_with_the_address_space() {
    let mut table = SymbolTable::new();
    for expected in 16..=32767u16 {
        assert_eq!(table.allocate_variable(), Ok(expected));
    }
    assert_eq!(table.allocate_variable(), Err(AssembleError::Symbol));
    assert_eq!(table.allocate_variable(), Err(AssembleError::Symbol));
}

#[test]
fn define_does_not_move_the_variable_counter() {
    let mut table = SymbolTable::new();
    assert_eq!(table.define("LOOP", 100), Ok(()));
    assert_eq!(table.define("LOOP", 101), Err(AssembleError::Symbol));
    assert_eq!(table.allocate_variable(), Ok(16));
}

#[test]
fn resolve_finds_what_is_bound() {
    let mut table = SymbolTable::new();
    assert_eq!(table.define("LOOP", 100), Ok(()));
    assert_eq!(table.resolve("LOOP"), Ok(100));
    assert_eq!(table.resolve("THAT"), Ok(4));
    assert_eq!(table.allocate_variable(), Ok(16));
}

#[test]
fn resolve_binds_what_is_new() {
    let mut table = SymbolTable::new();
    assert_eq!(table.resolve("first"), Ok(16));
    assert_eq!(table.resolve("second"), Ok(17));
    assert_eq!(table.resolve("first"), Ok(16));
    assert_eq!(table.resolve("second"), Ok(17));
    assert_eq!(table.lookup("first"), Some(16));
    assert_eq!(table.lookup("second"), Some(17));
    assert_eq!(table.resolve("third"), Ok(18));
}

#[test]
fn resolve_fails_when_no_slot_is_left() {
    let mut table = SymbolTable::new();
    for _ in 16..=32767u16 {
        assert!(table.allocate_variable().is_ok());
    }
    assert_eq!(table.resolve("late"), Err(AssembleError::Symbol));
    assert_eq!(table.lookup("late"), None);
    assert_eq!(table.resolve("R5"), Ok(5));
}

#[test]
fn variable_and_label_of_the_same_name() {
    let mut table = SymbolTable::new();
    assert_eq!(table.resolve("x"), Ok(16));
    assert_eq!(table.define("x", 16), Ok(()));
    assert_eq!(table.define("x", 3), Err(AssembleError::Symbol));
    assert_eq!(table.resolve("x"), Ok(16));
}

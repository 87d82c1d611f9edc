use bft::config::AllocStrategy;
use bft::interp::{BfError, BfTape, MAX_TAPE_SIZE};
use bft::io::MemReader;
use bft::types::BfProgram;

// Test that specifying zero for the size creates a tape of the default size.
#[test]
fn test_new_zero() {
    let program = BfProgram::new("empty.bf", "");
    let tape: BfTape<u8> = BfTape::new(&program, 0, AllocStrategy::TapeIsFixed);
    assert_eq!(tape.data_length(), MAX_TAPE_SIZE);
}

// Test for a valid size of the normal base type.
#[test]
fn test_new_ok() {
    let program = BfProgram::new("empty.bf", "");
    let _tape: BfTape<u8> = BfTape::new(&program, 10000, AllocStrategy::TapeIsFixed);
}

// Test for a tape with a different base type.
#[test]
fn test_new_ok_u16() {
    let program = BfProgram::new("empty.bf", "");
    let _tape: BfTape<u16> = BfTape::new(&program, 10000, AllocStrategy::TapeIsFixed);
}

// Test that a large tape can still be allocated.
#[test]
fn test_excessive() {
    let program = BfProgram::new("empty.bf", "");
    let _tape: BfTape<u8> = BfTape::new(&program, 50000, AllocStrategy::TapeIsFixed);
}

/// Test that specifying zero for the size creates a tape of the default size.
#[test]
fn new_default_size() {
    let program = BfProgram::new("tiny.bf", "><+-.");
    let tape: BfTape<u8> = BfTape::new(&program, 0, AllocStrategy::TapeIsFixed);
    assert_eq!(tape.data_length(), MAX_TAPE_SIZE);
}

/// Test for a valid size of the normal base type.
#[test]
fn new_size_of_10000() {
    let program = BfProgram::new("tiny.bf", "><+-.");
    let tape: BfTape<u8> = BfTape::new(&program, 10000, AllocStrategy::TapeIsFixed);
    assert_eq!(tape.data_length(), 10000);
}

/// Test that an error is raised when moving the data pointer before the start of the tape
#[test]
fn data_pointer_moved_before_start() {
    let program = BfProgram::new("tiny.bf", "><+-.");
    let mut tape: BfTape<u8> = BfTape::new(&program, 100, AllocStrategy::TapeIsFixed);
    tape.reset_data_pointer();
    // Now move the before the beginning of the tape
    let result = tape.move_data_pointer_back();
    assert!(result.is_err());
    assert!(matches!(result, Err(BfError::DataPtrMovedBeforeStart { .. })));
}

/// Moving back off cell 0 fails the same way on a growable tape.
#[test]
fn data_pointer_before_start_even_when_tape_can_grow() {
    let program = BfProgram::new("tiny.bf", "><+-.");
    let mut tape: BfTape<u8> = BfTape::new(&program, 100, AllocStrategy::TapeCanGrow);
    let result = tape.move_data_pointer_back();
    assert!(matches!(result, Err(BfError::DataPtrMovedBeforeStart { .. })));
}

/// Test that an error is raised when moving the data pointer after the end of the tape
#[test]
fn data_pointer_moved_after_end() {
    let program = BfProgram::new("tiny.bf", "><+-.");
    let mut tape: BfTape<u8> = BfTape::new(&program, 100, AllocStrategy::TapeIsFixed);
    tape.reset_data_pointer();
    for i in 0..99 {
        if tape.move_data_pointer_forward().is_err() {
            panic!("The tape should have 100 cells {}", i);
        }
    }
    // Now move past the end of the tape
    let result = tape.move_data_pointer_forward();
    assert!(result.is_err());
    assert!(matches!(result, Err(BfError::DataPtrMovedAfterEnd { .. })));
}

/// A fixed tape of one cell fails on its very first move right.
#[test]
fn single_cell_fixed_tape_cannot_move_right() {
    let program = BfProgram::new("tiny.bf", ">");
    let mut tape: BfTape<u8> = BfTape::new(&program, 1, AllocStrategy::TapeIsFixed);
    let result = tape.move_data_pointer_forward();
    assert!(matches!(result, Err(BfError::DataPtrMovedAfterEnd { .. })));
    assert_eq!(tape.data_length(), 1);
}

/// A growable tape of one cell gains a cell instead.
#[test]
fn single_cell_growable_tape_extends() {
    let program = BfProgram::new("tiny.bf", ">");
    let mut tape: BfTape<u8> = BfTape::new(&program, 1, AllocStrategy::TapeCanGrow);
    assert!(tape.move_data_pointer_forward().is_ok());
    assert_eq!(tape.data_length(), 2);
    assert_eq!(tape.data_pointer(), 1);
}

/// Test that the tape is extended when moving the data pointer after the end of the tape
#[test]
fn data_pointer_moved_after_end_and_can_grow() {
    let program = BfProgram::new("tiny.bf", "><+-.");
    let mut tape: BfTape<u8> = BfTape::new(&program, 100, AllocStrategy::TapeCanGrow);
    tape.reset_data_pointer();
    for i in 0..99 {
        if tape.move_data_pointer_forward().is_err() {
            panic!("The tape should have 100 cells {}", i);
        }
    }
    // Now move past the end of the tape
    let result = tape.move_data_pointer_forward();
    assert!(result.is_ok());

    // Check that the tape is now 1 cell longer
    assert_eq!(tape.data_pointer(), 100);
    assert_eq!(tape.data_length(), 101);
}

/// Test that no error is raised when moving the data pointer normally
#[test]
fn data_pointer_moved_normally() {
    let program = BfProgram::new("tiny.bf", "><+-.");
    let mut tape: BfTape<u8> = BfTape::new(&program, 100, AllocStrategy::TapeIsFixed);
    tape.reset_data_pointer();

    // Move data pointer to end
    for _ in 0..99 {
        let result = tape.move_data_pointer_forward();
        assert!(result.is_ok());
    }
    assert_eq!(tape.data_pointer(), 99);

    // Move data pointer back to beginning
    for _ in 0..99 {
        let result = tape.move_data_pointer_back();
        assert!(result.is_ok());
    }
    assert_eq!(tape.data_pointer(), 0);
}

/// Test that the value in a cell is set
#[test]
fn set_cell_value() {
    let program = BfProgram::new("tiny.bf", "+-");
    let mut tape: BfTape<u8> = BfTape::new(&program, 100, AllocStrategy::TapeIsFixed);
    tape.reset_data_pointer();
    tape.set_data_value(55);

    assert_eq!(tape.get_data_value(), 55);
}

/// Test that the value in a cell is incremented. Also checks that data value can be read.
#[test]
fn increment_cell_value() {
    let program = BfProgram::new("increment.bf", "+");
    let mut tape: BfTape<u8> = BfTape::new(&program, 100, AllocStrategy::TapeIsFixed);
    tape.reset_data_pointer();
    tape.increment_data_value().unwrap();

    // Check that the initial value of zero has been incremented to one
    assert_eq!(tape.get_data_value(), 1);
}

/// Test that the value in a cell is decremented. Also checks that data value can be read.
#[test]
fn decrement_cell_value() {
    let program = BfProgram::new("decrement.bf", "-");
    let mut tape: BfTape<u8> = BfTape::new(&program, 100, AllocStrategy::TapeIsFixed);
    tape.reset_data_pointer();
    tape.decrement_data_value().unwrap();

    // Check that the initial value of zero has been decremented and wrapped around to 255 (the max in a u8)
    assert_eq!(tape.get_data_value(), 255);
}

/// A u16 cell wraps at its own width, not at a byte.
#[test]
fn wide_cell_wraps_at_its_own_width() {
    let program = BfProgram::new("decrement.bf", "-");
    let mut tape: BfTape<u16> = BfTape::new(&program, 10, AllocStrategy::TapeIsFixed);
    tape.decrement_data_value().unwrap();
    // The cell holds 65535; reading back as a byte yields its low byte.
    assert_eq!(tape.get_data_value(), 255);
    tape.increment_data_value().unwrap();
    assert_eq!(tape.get_data_value(), 0);
}

/// Test that input works
#[test]
fn input_cell_value() {
    let program = BfProgram::new("tiny.bf", "><+-.");
    let mut tape: BfTape<u8> = BfTape::new(&program, 100, AllocStrategy::TapeIsFixed);

    // Create a reader as a source for the values that are being input
    let mut reader = MemReader::new(vec![55, 11, 22]);

    // Input the values into consecutive cells of the tape
    tape.reset_data_pointer();
    assert!(tape.input_value(&mut reader).is_ok());
    assert!(tape.move_data_pointer_forward().is_ok());
    assert!(tape.input_value(&mut reader).is_ok());
    assert!(tape.move_data_pointer_forward().is_ok());
    assert!(tape.input_value(&mut reader).is_ok());

    // Check that the values were written
    tape.reset_data_pointer();
    assert_eq!(tape.get_data_value(), 55);
    assert!(tape.move_data_pointer_forward().is_ok());
    assert_eq!(tape.get_data_value(), 11);
    assert!(tape.move_data_pointer_forward().is_ok());
    assert_eq!(tape.get_data_value(), 22);
}

/// Reading an exhausted input stores the maximum cell value, not an error.
#[test]
fn input_at_end_of_input_stores_maximum() {
    let program = BfProgram::new("tiny.bf", ",");
    let mut tape: BfTape<u8> = BfTape::new(&program, 10, AllocStrategy::TapeIsFixed);
    let mut reader = MemReader::new(Vec::new());
    assert!(tape.input_value(&mut reader).is_ok());
    assert_eq!(tape.get_data_value(), 255);
}

/// Test that an error is raised when moving the program pointer past the end of the program
#[test]
fn program_pointer_moved_after_end() {
    let program = BfProgram::new("tiny.bf", "><");
    let mut tape: BfTape<u8> = BfTape::new(&program, 100, AllocStrategy::TapeIsFixed);

    // Check that program is only two instructions
    assert_eq!(program.instructions().len(), 2);

    // Move program pointer past end of program
    let result = tape.move_program_pointer_forward();
    assert!(result.is_ok());
    let result = tape.move_program_pointer_forward();
    assert!(result.is_err());
    assert!(matches!(result, Err(BfError::ProgramPtrMovedAfterEnd { .. })));
}

/// The program pointer cannot move before the first instruction.
#[test]
fn program_pointer_moved_before_start() {
    let program = BfProgram::new("tiny.bf", "><");
    let mut tape: BfTape<u8> = BfTape::new(&program, 100, AllocStrategy::TapeIsFixed);
    let result = tape.move_program_pointer_back();
    assert!(matches!(result, Err(BfError::ProgramPtrMovedBeforeStart { .. })));
    assert!(tape.move_program_pointer_forward().is_ok());
    assert!(tape.move_program_pointer_back().is_ok());
    assert_eq!(tape.program_pointer(), 0);
}

/// The current instruction is the one the program pointer rests on.
#[test]
fn current_instruction_follows_program_pointer() {
    let program = BfProgram::new("tiny.bf", "><");
    let mut tape: BfTape<u8> = BfTape::new(&program, 100, AllocStrategy::TapeIsFixed);
    assert_eq!(tape.current_instruction(), program.instructions()[0]);
    assert!(tape.move_program_pointer_forward().is_ok());
    assert_eq!(tape.program_pointer(), 1);
    assert_eq!(tape.current_instruction(), program.instructions()[1]);
}

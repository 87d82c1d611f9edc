use bft::config::{AllocStrategy, Args, DebugLevelType, OutputFormat};
use bft::io::{ByteReader, ByteWriter};
use bft::interp::{BfError, BfTape};
use bft::io::{MemReader, MemWriter};
use bft::types::BfProgram;

/// Test that output works: the default raw-byte format writes the cell as is.
#[test]
fn output_cell_value() {
    let program = BfProgram::new("tiny.bf", "><+-.");
    let mut tape: BfTape<u8> = BfTape::new(&program, 100, AllocStrategy::TapeIsFixed);

    // Create a writer as a sink for the value that is being output
    let mut writer = MemWriter::new();

    // Output the value from the current cell in the tape to the writer
    assert!(tape.output_value(&mut writer).is_ok());

    // Check that the value was read
    assert_eq!(writer.into_inner()[0], 0);
}

/// Test that output as numeric text works: the digits of the value, then a comma.
#[test]
fn output_cell_value_as_binary() {
    let program = BfProgram::new("tiny.bf", "><+-.");
    let mut tape: BfTape<u8> = BfTape::new(&program, 100, AllocStrategy::TapeIsFixed);
    tape.set_output_format(OutputFormat::BinaryOutput);

    // Create a writer as a sink for the value that is being output
    let mut writer = MemWriter::new();

    // Output the value from the current cell in the tape to the writer
    assert!(tape.output_value(&mut writer).is_ok());

    // Check that the value was output correctly, as "0"
    assert_eq!(writer.into_inner()[0], 48);
}

/// Test that output as raw bytes works.
#[test]
fn output_cell_value_as_ascii() {
    let program = BfProgram::new("tiny.bf", "><+-.");
    let mut tape: BfTape<u8> = BfTape::new(&program, 100, AllocStrategy::TapeIsFixed);
    tape.set_output_format(OutputFormat::AsciiOutput);

    // Create a writer as a sink for the value that is being output
    let mut writer = MemWriter::new();

    // Output the value from the current cell in the tape to the writer
    assert!(tape.output_value(&mut writer).is_ok());

    // Check that the value was output correctly, as 0 (null character)
    assert_eq!(writer.into_inner()[0], 0);
}

/// Numeric-text output writes every digit of a multi-digit value.
#[test]
fn output_numeric_text_of_a_large_value() {
    let program = BfProgram::new("tiny.bf", ".");
    let mut tape: BfTape<u8> = BfTape::new(&program, 10, AllocStrategy::TapeIsFixed);
    tape.set_output_format(OutputFormat::BinaryOutput);
    tape.set_data_value(207);
    let mut writer = MemWriter::new();
    assert!(tape.output_value(&mut writer).is_ok());
    assert_eq!(writer.into_inner(), b"207,".to_vec());

    let mut tape: BfTape<u8> = BfTape::new(&program, 10, AllocStrategy::TapeIsFixed);
    tape.set_output_format(OutputFormat::BinaryOutput);
    tape.set_data_value(42);
    let mut writer = MemWriter::new();
    assert!(tape.output_value(&mut writer).is_ok());
    assert_eq!(writer.into_inner(), b"42,".to_vec());
}

/// Running "><+-." on a 100-cell fixed tape with raw-byte output writes
/// exactly one byte, of value 0: the increment and the decrement cancel.
#[test]
fn run_writes_single_zero_byte() {
    let mut program = BfProgram::new("tiny.bf", "><+-.");
    assert!(program.validate().is_ok());
    let mut tape: BfTape<u8> = BfTape::new(&program, 100, AllocStrategy::TapeIsFixed);
    let mut reader = MemReader::new(Vec::new());
    let mut writer = MemWriter::new();
    assert!(tape.interpreter(&mut reader, &mut writer).is_ok());
    assert_eq!(tape.program_pointer(), program.size());
    assert_eq!(writer.into_inner(), vec![0u8]);
}

/// Running "+++[>+<-]" over an all-zero tape halts with cell 1 holding 3 and
/// cell 0 holding 0: the loop moves the count across.
#[test]
fn run_loop_moves_count_across_cells() {
    let mut program = BfProgram::new("loop.bf", "+++[>+<-]");
    assert!(program.validate().is_ok());
    let mut tape: BfTape<u8> = BfTape::new(&program, 100, AllocStrategy::TapeIsFixed);
    let mut reader = MemReader::new(Vec::new());
    let mut writer = MemWriter::new();
    assert!(tape.interpreter(&mut reader, &mut writer).is_ok());
    assert_eq!(tape.program_pointer(), program.size());
    tape.reset_data_pointer();
    assert_eq!(tape.get_data_value(), 0);
    assert!(tape.move_data_pointer_forward().is_ok());
    assert_eq!(tape.get_data_value(), 3);
}

/// Running "+." outputs the byte 1; running "-." outputs the wrapped-around
/// maximum value.
#[test]
fn run_round_trips_fresh_cell() {
    let mut program = BfProgram::new("one.bf", "+.");
    assert!(program.validate().is_ok());
    let mut tape: BfTape<u8> = BfTape::new(&program, 10, AllocStrategy::TapeIsFixed);
    let mut writer = MemWriter::new();
    assert!(tape.interpreter(&mut MemReader::new(Vec::new()), &mut writer).is_ok());
    assert_eq!(writer.into_inner(), vec![1u8]);

    let mut program = BfProgram::new("max.bf", "-.");
    assert!(program.validate().is_ok());
    let mut tape: BfTape<u8> = BfTape::new(&program, 10, AllocStrategy::TapeIsFixed);
    let mut writer = MemWriter::new();
    assert!(tape.interpreter(&mut MemReader::new(Vec::new()), &mut writer).is_ok());
    assert_eq!(writer.into_inner(), vec![255u8]);
}

/// Reading input through a whole run: "," against an exhausted sink stores
/// the maximum cell value rather than failing.
#[test]
fn run_input_at_end_of_input_stores_maximum() {
    let mut program = BfProgram::new("input.bf", ",");
    assert!(program.validate().is_ok());
    let mut tape: BfTape<u8> = BfTape::new(&program, 10, AllocStrategy::TapeIsFixed);
    let mut reader = MemReader::new(Vec::new());
    let mut writer = MemWriter::new();
    assert!(tape.interpreter(&mut reader, &mut writer).is_ok());
    assert_eq!(tape.get_data_value(), 255);
}

/// A run copies its input to its output, byte for byte, until end of input.
#[test]
fn run_echoes_input() {
    // Read, then loop while the byte is not the end-of-input sentinel:
    // print and read again.
    let mut program = BfProgram::new("echo.bf", ",+[-.,+]");
    assert!(program.validate().is_ok());
    let mut tape: BfTape<u8> = BfTape::new(&program, 10, AllocStrategy::TapeIsFixed);
    let mut reader = MemReader::new(b"hi".to_vec());
    let mut writer = MemWriter::new();
    assert!(tape.interpreter(&mut reader, &mut writer).is_ok());
    assert_eq!(writer.into_inner(), b"hi".to_vec());
}

/// A run over a fixed tape that walks off the end stops with the data-pointer
/// error; cells already written stay written.
#[test]
fn run_fails_on_fixed_tape_overrun() {
    let mut program = BfProgram::new("walk.bf", "+>>");
    assert!(program.validate().is_ok());
    let mut tape: BfTape<u8> = BfTape::new(&program, 2, AllocStrategy::TapeIsFixed);
    let result = tape.interpreter(&mut MemReader::new(Vec::new()), &mut MemWriter::new());
    assert!(matches!(result, Err(BfError::DataPtrMovedAfterEnd { .. })));
    tape.reset_data_pointer();
    assert_eq!(tape.get_data_value(), 1);
}

/// A run of "<" stops at once with the data-pointer error.
#[test]
fn run_fails_moving_before_start() {
    let mut program = BfProgram::new("back.bf", "<");
    assert!(program.validate().is_ok());
    let mut tape: BfTape<u8> = BfTape::new(&program, 10, AllocStrategy::TapeIsFixed);
    let result = tape.interpreter(&mut MemReader::new(Vec::new()), &mut MemWriter::new());
    assert!(matches!(result, Err(BfError::DataPtrMovedBeforeStart { .. })));
}

/// Skipping validation leaves the jump table empty: a taken jump then fails
/// with the bracket error instead of resolving.
#[test]
fn run_without_validation_cannot_resolve_jumps() {
    let program = BfProgram::new("loop.bf", "[]");
    let mut tape: BfTape<u8> = BfTape::new(&program, 10, AllocStrategy::TapeIsFixed);
    let result = tape.interpreter(&mut MemReader::new(Vec::new()), &mut MemWriter::new());
    assert!(matches!(result, Err(BfError::BracketNotFound { program_pointer: 0 })));
}

/// A sink that always fails.
struct BrokenPipe;

impl ByteWriter for BrokenPipe {
    fn write_byte(&mut self, _b: u8) -> Result<(), String> {
        Err(String::from("broken pipe"))
    }
}

impl ByteReader for BrokenPipe {
    fn read_byte(&mut self) -> Result<Option<u8>, String> {
        Err(String::from("broken pipe"))
    }
}

/// A failing output sink surfaces as an I/O error carrying the sink's
/// message, the program's name, and the offending instruction.
#[test]
fn run_wraps_output_failure() {
    let mut program = BfProgram::new("out.bf", ".");
    assert!(program.validate().is_ok());
    let mut tape: BfTape<u8> = BfTape::new(&program, 10, AllocStrategy::TapeIsFixed);
    let result = tape.interpreter(&mut MemReader::new(Vec::new()), &mut BrokenPipe);
    match result {
        Err(BfError::IOError { error_msg, filepath, program_pointer, .. }) => {
            assert_eq!(error_msg, "broken pipe");
            assert_eq!(filepath, "out.bf");
            assert_eq!(program_pointer, 0);
        }
        other => panic!("expected an I/O error, got {:?}", other),
    }
}

/// A failing input sink surfaces the same way.
#[test]
fn run_wraps_input_failure() {
    let mut program = BfProgram::new("in.bf", ",");
    assert!(program.validate().is_ok());
    let mut tape: BfTape<u8> = BfTape::new(&program, 10, AllocStrategy::TapeIsFixed);
    let result = tape.interpreter(&mut BrokenPipe, &mut MemWriter::new());
    assert!(matches!(result, Err(BfError::IOError { .. })));
}

/// The in-memory reader hands back its bytes in order, then reports end of
/// input forever.
#[test]
fn mem_reader_reads_in_order() {
    let mut reader = MemReader::new(vec![7, 8]);
    assert_eq!(reader.read_byte().unwrap(), Some(7));
    assert_eq!(reader.read_byte().unwrap(), Some(8));
    assert_eq!(reader.read_byte().unwrap(), None);
    assert_eq!(reader.read_byte().unwrap(), None);
}

/// The in-memory writer accumulates every byte written.
#[test]
fn mem_writer_accumulates() {
    let mut writer = MemWriter::new();
    assert!(writer.write_byte(1).is_ok());
    assert!(writer.write_byte(2).is_ok());
    assert_eq!(writer.bytes(), &vec![1u8, 2]);
    assert_eq!(writer.into_inner(), vec![1u8, 2]);
}

/// The run configuration keeps the plain values it was assembled from.
#[test]
fn args_hold_their_values() {
    let args = Args::new(String::from("hello.bf"), 500, true, true, 2);
    assert_eq!(args.program(), "hello.bf");
    assert_eq!(args.cell_count(), 500);
    assert_eq!(args.extensible(), AllocStrategy::TapeCanGrow);
    assert_eq!(args.output_format(), OutputFormat::BinaryOutput);
    assert_eq!(args.debug(), DebugLevelType::Verbose);

    let args = Args::new(String::from("hello.bf"), 0, false, false, 0);
    assert_eq!(args.extensible(), AllocStrategy::TapeIsFixed);
    assert_eq!(args.output_format(), OutputFormat::AsciiOutput);
    assert_eq!(args.debug(), DebugLevelType::Quiet);
}

/// A verbosity count past the last debug level is capped at the most
/// detailed one.
#[test]
fn debug_level_from_count() {
    assert_eq!(DebugLevelType::from(0u8), DebugLevelType::Quiet);
    assert_eq!(DebugLevelType::from(1u8), DebugLevelType::Information);
    assert_eq!(DebugLevelType::from(2u8), DebugLevelType::Verbose);
    assert_eq!(DebugLevelType::from(3u8), DebugLevelType::Detailed);
    assert_eq!(DebugLevelType::from(9u8), DebugLevelType::Detailed);
    assert!(DebugLevelType::Quiet < DebugLevelType::Detailed);
}

/// The debug level rides along on the tape for diagnostic callers.
#[test]
fn tape_keeps_debug_level() {
    let program = BfProgram::new("tiny.bf", "+");
    let mut tape: BfTape<u8> = BfTape::new(&program, 10, AllocStrategy::TapeIsFixed);
    assert_eq!(tape.debug(), DebugLevelType::Quiet);
    tape.set_debug(DebugLevelType::Verbose);
    assert_eq!(tape.debug(), DebugLevelType::Verbose);
}

use bft::types::{BfCommand, BfProgram, BfValidationError};

// Test that a small program is read and is the right size.
#[test]
fn minimal_program() {
    let program = BfProgram::new("tiny.bf", "><+-.");
    assert_eq!(program.size(), 5);
}

// Test that commands in a BF program have been read correctly.
#[test]
fn check_commands_in_minimal_program() {
    let program = BfProgram::new("sample.bf", "><+\n-.");

    // First command should be Inc and is at line 1, offset 1
    assert_eq!(program.instructions()[0].command(), BfCommand::IncDataPointer);
    assert_eq!(program.instructions()[0].location().line(), 1);
    assert_eq!(program.instructions()[0].location().offset(), 1);

    // Last command should be Output and is at line 2, offset 2
    let last_inst = program.instructions().last().expect("Invalid last instruction");
    assert_eq!(last_inst.command(), BfCommand::OutputValue);
    assert_eq!(last_inst.location().line(), 2);
    assert_eq!(last_inst.location().offset(), 2);
    assert_eq!(last_inst.line_no(), 2);
    assert_eq!(last_inst.char_pos(), 2);
}

//
// Check individual BF commands.
//

#[test]
fn check_inc_data_pointer_command() {
    let program = BfProgram::new("sample.bf", ">");

    assert_eq!(program.instructions()[0].command(), BfCommand::IncDataPointer);
    assert_eq!(program.instructions()[0].location().line(), 1);
    assert_eq!(program.instructions()[0].location().offset(), 1);
}

#[test]
fn check_dec_data_pointer_command() {
    let program = BfProgram::new("sample.bf", "<");

    assert_eq!(program.instructions()[0].command(), BfCommand::DecDataPointer);
    assert_eq!(program.instructions()[0].location().line(), 1);
    assert_eq!(program.instructions()[0].location().offset(), 1);
}

#[test]
fn check_inc_value_command() {
    assert_eq!(BfCommand::from_char('+'), Some(BfCommand::IncValue));

    let program = BfProgram::new("sample.bf", "+");
    assert_eq!(program.instructions()[0].command(), BfCommand::IncValue);
    assert_eq!(program.instructions()[0].line_no(), 1);
    assert_eq!(program.instructions()[0].char_pos(), 1);
}

#[test]
fn check_dec_value_command() {
    assert_eq!(BfCommand::from_char('-'), Some(BfCommand::DecValue));

    let program = BfProgram::new("sample.bf", "-");
    assert_eq!(program.instructions()[0].command(), BfCommand::DecValue);
    assert_eq!(program.instructions()[0].line_no(), 1);
    assert_eq!(program.instructions()[0].char_pos(), 1);
}

#[test]
fn check_output_byte_command() {
    assert_eq!(BfCommand::from_char('.'), Some(BfCommand::OutputValue));

    let program = BfProgram::new("sample.bf", ".");
    assert_eq!(program.instructions()[0].command(), BfCommand::OutputValue);
    assert_eq!(program.instructions()[0].line_no(), 1);
    assert_eq!(program.instructions()[0].char_pos(), 1);
}

#[test]
fn check_input_byte_command() {
    assert_eq!(BfCommand::from_char(','), Some(BfCommand::InputValue));

    let program = BfProgram::new("sample.bf", ",");
    assert_eq!(program.instructions()[0].command(), BfCommand::InputValue);
    assert_eq!(program.instructions()[0].line_no(), 1);
    assert_eq!(program.instructions()[0].char_pos(), 1);
}

#[test]
fn check_jump_forward_command() {
    assert_eq!(BfCommand::from_char('['), Some(BfCommand::JumpForward));

    let program = BfProgram::new("sample.bf", "[");
    assert_eq!(program.instructions()[0].command(), BfCommand::JumpForward);
    assert_eq!(program.instructions()[0].line_no(), 1);
    assert_eq!(program.instructions()[0].char_pos(), 1);
}

#[test]
fn check_jump_backward_command() {
    assert_eq!(BfCommand::from_char(']'), Some(BfCommand::JumpBackward));

    let program = BfProgram::new("sample.bf", "]");
    assert_eq!(program.instructions()[0].command(), BfCommand::JumpBackward);
    assert_eq!(program.instructions()[0].line_no(), 1);
    assert_eq!(program.instructions()[0].char_pos(), 1);
}

#[test]
fn check_invalid_command() {
    assert_eq!(BfCommand::from_char('X'), None);
}

// A command describes itself verbosely.
#[test]
fn command_describes_itself() {
    assert_eq!(BfCommand::to_string(BfCommand::IncValue), "Increment byte at data pointer");
    assert_eq!(BfCommand::to_string(BfCommand::JumpForward), "Jump forward if zero");
}

// Check that a command converts back to its source character.
#[test]
fn command_round_trips_to_char() {
    for ch in ['>', '<', '+', '-', '.', ',', '[', ']'] {
        let cmd = BfCommand::from_char(ch).unwrap();
        assert_eq!(BfCommand::to_char(cmd), ch);
    }
    assert_eq!(BfCommand::to_char(BfCommand::Comment), '#');
}

// Check that non BF characters in the source file are skipped.
#[test]
fn ignore_non_bf_commands() {
    let program = BfProgram::new("not-bf.txt", "This is not a BF program");
    assert_eq!(program.size(), 0);
}

// Parsing never fails and yields one instruction per command character,
// whatever else surrounds them.
#[test]
fn parse_counts_only_commands() {
    let program = BfProgram::new("mixed.bf", "a+b-c\nd[e]f ... g,h");
    // commands: + - [ ] . . . ,
    assert_eq!(program.size(), 8);
    assert_eq!(program.instructions()[2].command(), BfCommand::JumpForward);
    assert_eq!(program.instructions()[2].location().line(), 2);
    assert_eq!(program.instructions()[2].location().offset(), 2);
}

// Check that an empty file is handled.
#[test]
fn read_empty_file() {
    let program = BfProgram::new("empty-file.bf", "");
    assert_eq!(program.size(), 0);
}

// Validate a good BF program
#[test]
fn validate_good() {
    let mut program = BfProgram::new("good.bf", "><+-[.]");
    assert_eq!(program.validate().is_ok(), true);
}

// Validate a bad BF program
#[test]
fn validate_extra_closing_bracket() {
    let mut program = BfProgram::new("bad.bf", "><+-.]");
    assert_eq!(program.validate().is_err(), true);
}

// Validate a bad BF program
#[test]
fn validate_no_closing_bracket() {
    let mut program = BfProgram::new("bad.bf", "><+-[.");
    assert_eq!(program.validate().is_err(), true);
}

// Validate a bad BF program
#[test]
fn validate_mismatched_bracket() {
    let mut program = BfProgram::new("bad.bf", "><+-].[");
    assert_eq!(program.validate().is_err(), true);
}

// Validate a empty BF program
#[test]
fn validate_empty() {
    let mut program = BfProgram::new("empty.bf", "");
    assert_eq!(program.validate().is_ok(), true);
}

// Check that the locations of jumps are correct in a good BF program
#[test]
fn validate_good_jumps() {
    let mut program = BfProgram::new("good.bf", "><+-[.]");
    assert_eq!(program.validate().is_ok(), true);
    assert_eq!(program.jump_locations().len(), 1);
    assert_eq!(program.jump_locations()[0].forward().line(), 1);
    assert_eq!(program.jump_locations()[0].forward().offset(), 5);
    assert_eq!(program.jump_locations()[0].backward().line(), 1);
    assert_eq!(program.jump_locations()[0].backward().offset(), 7);
    assert_eq!(program.jump_locations()[0].depth(), 0);
}

// The number of recorded pairs equals the number of forward brackets, which
// equals the number of backward brackets.
#[test]
fn validate_counts_pairs() {
    let mut program = BfProgram::new("nested.bf", "[[]][]");
    assert!(program.validate().is_ok());
    assert_eq!(program.jump_locations().len(), 3);
    // The innermost pair closes first and carries depth 1.
    assert_eq!(program.jump_locations()[0].depth(), 1);
    assert_eq!(program.jump_locations()[1].depth(), 0);
    assert_eq!(program.jump_locations()[2].depth(), 0);
}

// A stray backward bracket is reported with its exact source location:
// program "[]]" fails at line 1, offset 3.
#[test]
fn validate_reports_backward_bracket_location() {
    let mut program = BfProgram::new("bad.bf", "[]]");
    match program.validate() {
        Err(BfValidationError::UnmatchedBackwardBracket { instruction }) => {
            assert_eq!(instruction.command(), BfCommand::JumpBackward);
            assert_eq!(instruction.location().line(), 1);
            assert_eq!(instruction.location().offset(), 3);
        }
        other => panic!("expected an unmatched backward bracket, got {:?}", other),
    }
}

// A forward bracket left open is reported as the most recently opened one.
#[test]
fn validate_reports_innermost_forward_bracket() {
    let mut program = BfProgram::new("bad.bf", "[[]");
    match program.validate() {
        Err(BfValidationError::UnmatchedForwardBracket { instruction }) => {
            assert_eq!(instruction.command(), BfCommand::JumpForward);
            assert_eq!(instruction.location().line(), 1);
            assert_eq!(instruction.location().offset(), 1);
        }
        other => panic!("expected an unmatched forward bracket, got {:?}", other),
    }
}

// Validating the same program twice yields the same bracket-pair table.
#[test]
fn validate_twice_yields_same_table() {
    let mut program = BfProgram::new("twice.bf", "+[>+<-]");
    assert!(program.validate().is_ok());
    let first: Vec<_> = program.jump_locations().clone();
    assert!(program.validate().is_ok());
    assert_eq!(program.jump_locations(), &first);
}

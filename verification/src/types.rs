//! The program model: commands, source locations, instructions, bracket
//! pairs, and the program itself with its parser and validator.

use vstd::pervasive::VecAdditionalExecFns;
use vstd::prelude::*;

verus! {

/// A Brainfuck command.
///
/// Every character of the source text that is one of `> < + - . , [ ]` parses
/// to one of the eight operational variants; every other character is a
/// comment and produces no instruction at all. The `Comment` variant exists so
/// that the execution engine can treat an explicit no-op uniformly; the parser
/// never produces it.
#[derive(Copy, Clone, Debug, PartialEq, Eq, Structural)]
pub enum BfCommand {
    /// A character that is not a Brainfuck command.
    Comment,
    /// Increment the data pointer (point at the next cell to the right).
    IncDataPointer,
    /// Decrement the data pointer (point at the next cell to the left).
    DecDataPointer,
    /// Increment the cell at the data pointer, wrapping on overflow.
    IncValue,
    /// Decrement the cell at the data pointer, wrapping on underflow.
    DecValue,
    /// Output the cell at the data pointer.
    OutputValue,
    /// Read one byte of input into the cell at the data pointer.
    InputValue,
    /// If the cell at the data pointer is zero, jump past the matching `]`.
    JumpForward,
    /// If the cell at the data pointer is nonzero, jump back past the matching `[`.
    JumpBackward,
}

/// The command a source character denotes, if any.
pub open spec fn spec_from_char(ch: char) -> Option<BfCommand> {
    if ch == '>' {
        Some(BfCommand::IncDataPointer)
    } else if ch == '<' {
        Some(BfCommand::DecDataPointer)
    } else if ch == '+' {
        Some(BfCommand::IncValue)
    } else if ch == '-' {
        Some(BfCommand::DecValue)
    } else if ch == '.' {
        Some(BfCommand::OutputValue)
    } else if ch == ',' {
        Some(BfCommand::InputValue)
    } else if ch == '[' {
        Some(BfCommand::JumpForward)
    } else if ch == ']' {
        Some(BfCommand::JumpBackward)
    } else {
        None
    }
}

/// The character a command prints back as.
pub open spec fn spec_to_char(cmd: BfCommand) -> char {
    match cmd {
        BfCommand::Comment => '#',
        BfCommand::IncDataPointer => '>',
        BfCommand::DecDataPointer => '<',
        BfCommand::IncValue => '+',
        BfCommand::DecValue => '-',
        BfCommand::OutputValue => '.',
        BfCommand::InputValue => ',',
        BfCommand::JumpForward => '[',
        BfCommand::JumpBackward => ']',
    }
}

impl BfCommand {
    /// Convert a character to a Brainfuck command. Returns `None` when the
    /// character is not one of the eight command characters.
    pub fn from_char(ch: char) -> (r: Option<BfCommand>)
        ensures
            r == spec_from_char(ch),
    {
        match ch {
            '>' => Some(BfCommand::IncDataPointer),
            '<' => Some(BfCommand::DecDataPointer),
            '+' => Some(BfCommand::IncValue),
            '-' => Some(BfCommand::DecValue),
            '.' => Some(BfCommand::OutputValue),
            ',' => Some(BfCommand::InputValue),
            '[' => Some(BfCommand::JumpForward),
            ']' => Some(BfCommand::JumpBackward),
            _ => None,
        }
    }

    /// Convert a command back to its source character, for printing a program.
    pub fn to_char(cmd: BfCommand) -> (r: char)
        ensures
            r == spec_to_char(cmd),
    {
        match cmd {
            BfCommand::Comment => '#',
            BfCommand::IncDataPointer => '>',
            BfCommand::DecDataPointer => '<',
            BfCommand::IncValue => '+',
            BfCommand::DecValue => '-',
            BfCommand::OutputValue => '.',
            BfCommand::InputValue => ',',
            BfCommand::JumpForward => '[',
            BfCommand::JumpBackward => ']',
        }
    }
}

/// The human-readable description of a command.
pub open spec fn spec_describe(cmd: BfCommand) -> Seq<char> {
    match cmd {
        BfCommand::Comment => "Comment"@,
        BfCommand::IncDataPointer => "Increment data pointer"@,
        BfCommand::DecDataPointer => "Decrement data pointer"@,
        BfCommand::IncValue => "Increment byte at data pointer"@,
        BfCommand::DecValue => "Decrement byte at data pointer"@,
        BfCommand::OutputValue => "Output byte at data pointer"@,
        BfCommand::InputValue => "Input byte at data pointer"@,
        BfCommand::JumpForward => "Jump forward if zero"@,
        BfCommand::JumpBackward => "Jump backward if nonzero"@,
    }
}

impl BfCommand {
    /// Describe a command verbosely, for human consumption.
    pub fn to_string(cmd: BfCommand) -> (r: String)
        ensures
            r@ == spec_describe(cmd),
    {
        match cmd {
            BfCommand::Comment => "Comment".to_owned(),
            BfCommand::IncDataPointer => "Increment data pointer".to_owned(),
            BfCommand::DecDataPointer => "Decrement data pointer".to_owned(),
            BfCommand::IncValue => "Increment byte at data pointer".to_owned(),
            BfCommand::DecValue => "Decrement byte at data pointer".to_owned(),
            BfCommand::OutputValue => "Output byte at data pointer".to_owned(),
            BfCommand::InputValue => "Input byte at data pointer".to_owned(),
            BfCommand::JumpForward => "Jump forward if zero".to_owned(),
            BfCommand::JumpBackward => "Jump backward if nonzero".to_owned(),
        }
    }
}

/// The position of a command in the source text: a line number and a 1-based
/// character offset within that line. Both start at 1; every character of a
/// line advances the offset, whether or not it is a command.
#[derive(Copy, Clone, Debug, PartialEq, Eq, Structural)]
pub struct BfLocation {
    /// The line number in the source text.
    pub line: usize,
    /// The character offset from the start of the line.
    pub offset: usize,
}

impl BfLocation {
    /// Create a new source location.
    pub fn new(line: usize, offset: usize) -> (r: Self)
        ensures
            r == (BfLocation { line, offset }),
    {
        Self { line, offset }
    }

    /// The line number.
    pub fn line(&self) -> (r: usize)
        ensures
            r == self.line,
    {
        self.line
    }

    /// The offset within the line.
    pub fn offset(&self) -> (r: usize)
        ensures
            r == self.offset,
    {
        self.offset
    }
}

/// One parsed instruction: a command together with the source location it was
/// read from. The location serves diagnostics only; the position of the
/// instruction in the program's sequence is what execution indexes by.
#[derive(Copy, Clone, Debug, PartialEq, Eq, Structural)]
pub struct BfInstruction {
    /// The command that makes up the instruction.
    pub command: BfCommand,
    /// The source location the command was read from.
    pub location: BfLocation,
}

impl BfInstruction {
    /// Create a new instruction from a command and its source position.
    pub fn new(command: BfCommand, line: usize, offset: usize) -> (r: Self)
        ensures
            r == (BfInstruction { command, location: BfLocation { line, offset } }),
    {
        Self { command, location: BfLocation { line, offset } }
    }

    /// The command.
    pub fn command(&self) -> (r: BfCommand)
        ensures
            r == self.command,
    {
        self.command
    }

    /// The source location.
    pub fn location(&self) -> (r: BfLocation)
        ensures
            r == self.location,
    {
        self.location
    }

    /// The line the command was read from.
    pub fn line_no(&self) -> (r: usize)
        ensures
            r == self.location.line,
    {
        self.location.line
    }

    /// The character offset within the line the command was read from.
    pub fn char_pos(&self) -> (r: usize)
        ensures
            r == self.location.offset,
    {
        self.location.offset
    }
}

/// A matched `[` ... `]` pair found during validation: the source locations of
/// the two brackets and the nesting depth at which the pair sits (an
/// outermost pair has depth 0).
#[derive(Copy, Clone, Debug, PartialEq, Eq, Structural)]
pub struct BfJumpLocation {
    /// How many enclosing pairs surround this one.
    pub depth: usize,
    /// The location of the forward bracket of the pair.
    pub forward: BfLocation,
    /// The location of the backward bracket of the pair.
    pub backward: BfLocation,
}

impl BfJumpLocation {
    /// Create a new bracket-pair record.
    pub fn new(depth: usize, forward: BfLocation, backward: BfLocation) -> (r: Self)
        ensures
            r == (BfJumpLocation { depth, forward, backward }),
    {
        Self { depth, forward, backward }
    }

    /// The nesting depth of the pair.
    pub fn depth(&self) -> (r: usize)
        ensures
            r == self.depth,
    {
        self.depth
    }

    /// The location of the forward bracket.
    pub fn forward(&self) -> (r: BfLocation)
        ensures
            r == self.forward,
    {
        self.forward
    }

    /// The location of the backward bracket.
    pub fn backward(&self) -> (r: BfLocation)
        ensures
            r == self.backward,
    {
        self.backward
    }
}

/// The instruction a command character standing at the given source position
/// parses to.
pub open spec fn located(cmd: BfCommand, line: int, offset: int) -> BfInstruction {
    BfInstruction { command: cmd, location: BfLocation { line: line as usize, offset: offset as usize } }
}

/// The instructions that parsing yields from `text` when its first character
/// stands at the given line and offset of the source. Command characters
/// contribute one instruction each, in source order; every other character
/// contributes nothing. A newline moves to the next line and resets the
/// offset; every character, recognized or not, advances the offset by one.
pub open spec fn parse_from(text: Seq<char>, line: int, offset: int) -> Seq<BfInstruction>
    decreases text.len(),
{
    if text.len() == 0 {
        Seq::<BfInstruction>::empty()
    } else {
        let rest = if text[0] == '\n' {
            parse_from(text.drop_first(), line + 1, 1)
        } else {
            parse_from(text.drop_first(), line, offset + 1)
        };
        match spec_from_char(text[0]) {
            Some(cmd) => seq![located(cmd, line, offset)] + rest,
            None => rest,
        }
    }
}

/// The instruction sequence a whole source text parses to: lines and offsets
/// both count from 1.
pub open spec fn spec_parse(text: Seq<char>) -> Seq<BfInstruction> {
    parse_from(text, 1, 1)
}

/// How many characters of `text` are command characters.
pub open spec fn count_commands(text: Seq<char>) -> int
    decreases text.len(),
{
    if text.len() == 0 {
        0
    } else {
        (if spec_from_char(text[0]) is Some {
            1int
        } else {
            0int
        }) + count_commands(text.drop_first())
    }
}

/// Parsing yields exactly one instruction per command character: every
/// character outside the command set contributes zero instructions, wherever
/// it stands and whatever line bookkeeping surrounds it.
pub proof fn lemma_parse_counts_commands(text: Seq<char>, line: int, offset: int)
    ensures
        parse_from(text, line, offset).len() == count_commands(text),
    decreases text.len(),
{
    if text.len() != 0 {
        if text[0] == '\n' {
            lemma_parse_counts_commands(text.drop_first(), line + 1, 1);
        } else {
            lemma_parse_counts_commands(text.drop_first(), line, offset + 1);
        }
    }
}

/// A bracket that validation found no partner for.
#[derive(Copy, Clone, Debug, PartialEq, Eq, Structural)]
pub enum BfValidationError {
    /// A `]` with no `[` before it to match; carries the offending
    /// instruction. The first such bracket wins: validation stops there.
    UnmatchedBackwardBracket {
        /// The backward bracket that had no partner.
        instruction: BfInstruction,
    },
    /// A `[` left open at the end of the program; carries the most recently
    /// opened unmatched forward bracket.
    UnmatchedForwardBracket {
        /// The forward bracket that had no partner.
        instruction: BfInstruction,
    },
}

/// A matched bracket pair by instruction position: where the forward and the
/// backward bracket stand in the instruction sequence, and how many enclosing
/// pairs surround them. Ghost bookkeeping for the validation model.
pub struct MatchedPair {
    /// The position of the forward bracket.
    pub fwd: usize,
    /// The position of the backward bracket.
    pub bwd: usize,
    /// The nesting depth of the pair.
    pub depth: usize,
}

/// The validation scan, from position `i` on, with `stack` holding the
/// positions of the forward brackets opened so far (innermost last) and
/// `pairs` the pairs already matched: a single left-to-right pass that pushes
/// on `[`, pops and records a pair on `]`, fails on a `]` with nothing to pop,
/// and fails on whatever `[` is left open at the end.
pub open spec fn match_rec(
    insts: Seq<BfInstruction>,
    i: nat,
    stack: Seq<usize>,
    pairs: Seq<MatchedPair>,
) -> Result<Seq<MatchedPair>, BfValidationError>
    decreases insts.len() - i,
{
    if i >= insts.len() {
        if stack.len() == 0 {
            Ok(pairs)
        } else {
            Err(BfValidationError::UnmatchedForwardBracket {
                instruction: insts[stack.last() as int],
            })
        }
    } else {
        let inst = insts[i as int];
        if inst.command is JumpForward {
            match_rec(insts, i + 1, stack.push(i as usize), pairs)
        } else if inst.command is JumpBackward {
            if stack.len() == 0 {
                Err(BfValidationError::UnmatchedBackwardBracket { instruction: inst })
            } else {
                match_rec(
                    insts,
                    i + 1,
                    stack.drop_last(),
                    pairs.push(
                        MatchedPair {
                            fwd: stack.last(),
                            bwd: i as usize,
                            depth: (stack.len() - 1) as usize,
                        },
                    ),
                )
            }
        } else {
            match_rec(insts, i + 1, stack, pairs)
        }
    }
}

/// The outcome of validating an instruction sequence: its matched bracket
/// pairs by position, in order of their closing brackets, or the first
/// unmatched bracket the scan meets.
pub open spec fn spec_validate(insts: Seq<BfInstruction>) -> Result<
    Seq<MatchedPair>,
    BfValidationError,
> {
    match_rec(insts, 0, Seq::<usize>::empty(), Seq::<MatchedPair>::empty())
}

/// The bracket-pair records that a list of matched pairs of `insts` stands
/// for: the source locations of the two brackets of each pair, with its depth.
pub open spec fn spec_pair_records(
    insts: Seq<BfInstruction>,
    pairs: Seq<MatchedPair>,
) -> Seq<BfJumpLocation> {
    pairs.map(
        |k: int, p: MatchedPair|
            BfJumpLocation {
                depth: p.depth,
                forward: insts[p.fwd as int].location,
                backward: insts[p.bwd as int].location,
            },
    )
}

/// The partner that a list of matched pairs records for position `k`: the
/// other end of the pair containing `k`, or `None` when no pair contains it.
pub open spec fn pair_target(pairs: Seq<MatchedPair>, k: int) -> Option<usize>
    decreases pairs.len(),
{
    if pairs.len() == 0 {
        None
    } else if pairs.last().fwd == k {
        Some(pairs.last().bwd)
    } else if pairs.last().bwd == k {
        Some(pairs.last().fwd)
    } else {
        pair_target(pairs.drop_last(), k)
    }
}

/// How many of the first `upto` instructions carry the given command.
pub open spec fn count_in_prefix(insts: Seq<BfInstruction>, cmd: BfCommand, upto: int) -> int
    decreases upto,
{
    if upto <= 0 {
        0
    } else {
        count_in_prefix(insts, cmd, upto - 1) + (if insts[upto - 1].command == cmd {
            1int
        } else {
            0int
        })
    }
}

/// Well-nested brackets: no prefix of the program closes more loops than it
/// has opened, and over the whole program the counts agree.
pub open spec fn balanced(insts: Seq<BfInstruction>) -> bool {
    &&& forall|j: int|
        0 <= j <= insts.len() ==> count_in_prefix(insts, BfCommand::JumpBackward, j)
            <= count_in_prefix(insts, BfCommand::JumpForward, j)
    &&& count_in_prefix(insts, BfCommand::JumpForward, insts.len() as int) == count_in_prefix(
        insts,
        BfCommand::JumpBackward,
        insts.len() as int,
    )
}

proof fn lemma_match_rec_counts(
    insts: Seq<BfInstruction>,
    i: nat,
    stack: Seq<usize>,
    pairs: Seq<MatchedPair>,
)
    requires
        i <= insts.len(),
        stack.len() + pairs.len() == count_in_prefix(insts, BfCommand::JumpForward, i as int),
        pairs.len() == count_in_prefix(insts, BfCommand::JumpBackward, i as int),
    ensures
        match_rec(insts, i, stack, pairs) matches Ok(ps) ==> {
            &&& ps.len() == count_in_prefix(insts, BfCommand::JumpForward, insts.len() as int)
            &&& count_in_prefix(insts, BfCommand::JumpForward, insts.len() as int)
                == count_in_prefix(insts, BfCommand::JumpBackward, insts.len() as int)
        },
    decreases insts.len() - i,
{
    if i < insts.len() {
        let inst = insts[i as int];
        if inst.command is JumpForward {
            lemma_match_rec_counts(insts, i + 1, stack.push(i as usize), pairs);
        } else if inst.command is JumpBackward {
            if stack.len() > 0 {
                lemma_match_rec_counts(
                    insts,
                    i + 1,
                    stack.drop_last(),
                    pairs.push(
                        MatchedPair {
                            fwd: stack.last(),
                            bwd: i as usize,
                            depth: (stack.len() - 1) as usize,
                        },
                    ),
                );
            }
        } else {
            lemma_match_rec_counts(insts, i + 1, stack, pairs);
        }
    }
}

/// After successful validation, the number of recorded bracket pairs equals
/// the number of forward brackets in the program, which equals the number of
/// backward brackets.
pub proof fn lemma_pairs_count(insts: Seq<BfInstruction>)
    requires
        spec_validate(insts) is Ok,
    ensures
        spec_validate(insts).unwrap().len() == count_in_prefix(
            insts,
            BfCommand::JumpForward,
            insts.len() as int,
        ),
        count_in_prefix(insts, BfCommand::JumpForward, insts.len() as int) == count_in_prefix(
            insts,
            BfCommand::JumpBackward,
            insts.len() as int,
        ),
{
    lemma_match_rec_counts(insts, 0, Seq::<usize>::empty(), Seq::<MatchedPair>::empty());
    lemma_match_rec_pairs_len(insts, 0, Seq::<usize>::empty(), Seq::<MatchedPair>::empty());
}

proof fn lemma_match_rec_pairs_len(
    insts: Seq<BfInstruction>,
    i: nat,
    stack: Seq<usize>,
    pairs: Seq<MatchedPair>,
)
    requires
        i <= insts.len(),
        stack.len() + pairs.len() == count_in_prefix(insts, BfCommand::JumpForward, i as int),
        pairs.len() == count_in_prefix(insts, BfCommand::JumpBackward, i as int),
    ensures
        match_rec(insts, i, stack, pairs) matches Ok(ps) ==> ps.len() == pairs.len() + (
        count_in_prefix(insts, BfCommand::JumpBackward, insts.len() as int) - count_in_prefix(
            insts,
            BfCommand::JumpBackward,
            i as int,
        )),
    decreases insts.len() - i,
{
    if i < insts.len() {
        let inst = insts[i as int];
        if inst.command is JumpForward {
            lemma_match_rec_pairs_len(insts, i + 1, stack.push(i as usize), pairs);
        } else if inst.command is JumpBackward {
            if stack.len() > 0 {
                lemma_match_rec_pairs_len(
                    insts,
                    i + 1,
                    stack.drop_last(),
                    pairs.push(
                        MatchedPair {
                            fwd: stack.last(),
                            bwd: i as usize,
                            depth: (stack.len() - 1) as usize,
                        },
                    ),
                );
            }
        } else {
            lemma_match_rec_pairs_len(insts, i + 1, stack, pairs);
        }
    }
}

proof fn lemma_match_rec_ok_iff(insts: Seq<BfInstruction>, i: nat, stack: Seq<usize>, pairs: Seq<MatchedPair>)
    requires
        i <= insts.len(),
    ensures
        match_rec(insts, i, stack, pairs) is Ok <==> {
            &&& forall|j: int|
                i <= j <= insts.len() ==> count_in_prefix(insts, BfCommand::JumpBackward, j)
                    - count_in_prefix(insts, BfCommand::JumpBackward, i as int) <= stack.len()
                    + count_in_prefix(insts, BfCommand::JumpForward, j) - count_in_prefix(
                    insts,
                    BfCommand::JumpForward,
                    i as int,
                )
            &&& stack.len() + count_in_prefix(insts, BfCommand::JumpForward, insts.len() as int)
                - count_in_prefix(insts, BfCommand::JumpForward, i as int) == count_in_prefix(
                insts,
                BfCommand::JumpBackward,
                insts.len() as int,
            ) - count_in_prefix(insts, BfCommand::JumpBackward, i as int)
        },
    decreases insts.len() - i,
{
    if i < insts.len() {
        let inst = insts[i as int];
        if inst.command is JumpForward {
            lemma_match_rec_ok_iff(insts, i + 1, stack.push(i as usize), pairs);
        } else if inst.command is JumpBackward {
            if stack.len() > 0 {
                lemma_match_rec_ok_iff(
                    insts,
                    i + 1,
                    stack.drop_last(),
                    pairs.push(
                        MatchedPair {
                            fwd: stack.last(),
                            bwd: i as usize,
                            depth: (stack.len() - 1) as usize,
                        },
                    ),
                );
            } else {
                assert(count_in_prefix(insts, BfCommand::JumpBackward, i as int + 1)
                    - count_in_prefix(insts, BfCommand::JumpBackward, i as int) == 1);
            }
        } else {
            lemma_match_rec_ok_iff(insts, i + 1, stack, pairs);
        }
    }
}

/// Validation succeeds exactly when the program's brackets are balanced:
/// it fails if and only if some prefix closes more loops than it has opened,
/// or the totals of forward and backward brackets disagree.
pub proof fn lemma_validate_ok_iff_balanced(insts: Seq<BfInstruction>)
    ensures
        spec_validate(insts) is Ok <==> balanced(insts),
{
    lemma_match_rec_ok_iff(insts, 0, Seq::<usize>::empty(), Seq::<MatchedPair>::empty());
}

/// A jump-target table that speaks the truth about `insts`: every recorded
/// target points back into the program, pairs a forward bracket with a later
/// backward bracket or a backward bracket with an earlier forward one.
pub open spec fn targets_consistent(insts: Seq<BfInstruction>, targets: Seq<Option<usize>>) -> bool {
    forall|k: int|
        0 <= k < targets.len() ==> ((#[trigger] targets[k]) matches Some(j) ==> {
            &&& j < insts.len()
            &&& (insts[k].command is JumpForward && insts[j as int].command is JumpBackward && k
                < j) || (insts[k].command is JumpBackward && insts[j as int].command
                is JumpForward && j < k)
        })
}

/// What validation guarantees. The instruction sequence and the source name
/// are untouched. On success, the pair records are exactly those of
/// `spec_validate` and the jump-target table maps every program position to
/// the partner those pairs record for it. On failure, the error is the one
/// `spec_validate` names and the pair records and target table are unchanged.
pub open spec fn validate_post(
    pre: BfProgram,
    post: BfProgram,
    r: Result<(), BfValidationError>,
) -> bool {
    &&& post.insts() == pre.insts()
    &&& post.spec_filename() == pre.spec_filename()
    &&& match r {
        Ok(()) => {
            &&& spec_validate(pre.insts()) is Ok
            &&& post.pairs() == spec_pair_records(pre.insts(), spec_validate(pre.insts()).unwrap())
            &&& post.targets().len() == pre.insts().len()
            &&& forall|k: int|
                0 <= k < post.targets().len() ==> post.targets()[k] == pair_target(
                    spec_validate(pre.insts()).unwrap(),
                    k,
                )
        },
        Err(e) => {
            &&& spec_validate(pre.insts()) == Err::<Seq<MatchedPair>, BfValidationError>(e)
            &&& post.pairs() == pre.pairs()
            &&& post.targets() == pre.targets()
        },
    }
}

/// A Brainfuck program: the name of the source it was read from, the ordered
/// instruction sequence parsed out of that source, and — once validation has
/// run — the table of matched bracket pairs, indexed two ways: as pair records
/// for diagnostics and as a per-instruction jump-target table for O(1) loop
/// jumps during execution.
#[derive(Debug)]
pub struct BfProgram {
    /// The name of the source the program was read from.
    filename: String,
    /// The instructions parsed from the source, in source order.
    instructions: Vec<BfInstruction>,
    /// The matched bracket pairs, in order of their closing brackets.
    jump_locations: Vec<BfJumpLocation>,
    /// For each instruction position holding a matched bracket, the position
    /// of its partner; `None` elsewhere. Empty until validation succeeds.
    jump_targets: Vec<Option<usize>>,
}

impl BfProgram {
    /// The name of the program's source.
    pub closed spec fn spec_filename(&self) -> Seq<char> {
        self.filename@
    }

    /// The program's instruction sequence.
    pub closed spec fn insts(&self) -> Seq<BfInstruction> {
        self.instructions@
    }

    /// The program's bracket-pair records.
    pub closed spec fn pairs(&self) -> Seq<BfJumpLocation> {
        self.jump_locations@
    }

    /// The program's jump-target table.
    pub closed spec fn targets(&self) -> Seq<Option<usize>> {
        self.jump_targets@
    }

    /// The program has passed validation and carries the tables validation
    /// builds: its brackets are matched and every program position maps to
    /// the partner the matched pairs record for it.
    pub open spec fn validated(&self) -> bool {
        &&& spec_validate(self.insts()) is Ok
        &&& self.targets().len() == self.insts().len()
        &&& forall|k: int|
            0 <= k < self.targets().len() ==> self.targets()[k] == pair_target(
                spec_validate(self.insts()).unwrap(),
                k,
            )
    }

    /// Every program that parsing or validation hands out satisfies this: the
    /// jump-target table, when filled, is consistent with the instruction
    /// sequence (see [`targets_consistent`]).
    pub open spec fn wf(&self) -> bool {
        targets_consistent(self.insts(), self.targets())
    }

    /// The jump target recorded for a program position: the position of the
    /// matching bracket when `pos` holds a matched bracket and the table has
    /// been built, and `None` otherwise.
    pub open spec fn spec_jump_target(&self, pos: int) -> Option<usize> {
        if 0 <= pos < self.targets().len() {
            self.targets()[pos]
        } else {
            None
        }
    }

    /// Create a new program by parsing `content`, remembering `filename` as
    /// the name of the source. Parsing never fails: characters outside the
    /// command set are skipped, and an instruction-free text yields an empty
    /// instruction sequence. No bracket validation happens here.
    pub fn new(filename: &str, content: &str) -> (p: BfProgram)
        requires
            content@.len() < usize::MAX,
        ensures
            p.spec_filename() == filename@,
            p.insts() == spec_parse(content@),
            p.pairs() == Seq::<BfJumpLocation>::empty(),
            p.targets() == Seq::<Option<usize>>::empty(),
            p.wf(),
    {
        let n = content.unicode_len();
        let mut instructions: Vec<BfInstruction> = Vec::new();
        let mut line: usize = 1;
        let mut offset: usize = 1;
        let mut i: usize = 0;
        proof {
            assert(content@.skip(0) =~= content@);
            assert(Seq::<BfInstruction>::empty() + spec_parse(content@) =~= spec_parse(content@));
        }
        while i < n
            invariant
                i <= n,
                n == content@.len() < usize::MAX,
                1 <= line <= i + 1,
                1 <= offset <= i + 1,
                spec_parse(content@) == instructions@ + parse_from(
                    content@.skip(i as int),
                    line as int,
                    offset as int,
                ),
            decreases n - i,
        {
            let ch = content.get_char(i);
            let ghost rest = content@.skip(i as int);
            let ghost next_line: int = if ch == '\n' { line + 1 } else { line as int };
            let ghost next_offset: int = if ch == '\n' { 1int } else { offset + 1 };
            let ghost prev = instructions@;
            proof {
                assert(rest[0] == content@[i as int]);
                assert(rest.drop_first() =~= content@.skip(i as int + 1));
            }
            if let Some(command) = BfCommand::from_char(ch) {
                instructions.push(BfInstruction::new(command, line, offset));
                proof {
                    assert(parse_from(rest, line as int, offset as int) == seq![
                        located(command, line as int, offset as int),
                    ] + parse_from(rest.drop_first(), next_line, next_offset));
                    assert(prev + parse_from(rest, line as int, offset as int)
                        =~= instructions@ + parse_from(rest.drop_first(), next_line, next_offset));
                }
            } else {
                proof {
                    assert(parse_from(rest, line as int, offset as int) == parse_from(
                        rest.drop_first(),
                        next_line,
                        next_offset,
                    ));
                }
            }
            if ch == '\n' {
                line = line + 1;
                offset = 1;
            } else {
                offset = offset + 1;
            }
            i = i + 1;
        }
        proof {
            assert(content@.skip(n as int) =~= Seq::<char>::empty());
            assert(instructions@ + Seq::<BfInstruction>::empty() =~= instructions@);
        }
        BfProgram {
            filename: filename.to_owned(),
            instructions,
            jump_locations: Vec::new(),
            jump_targets: Vec::new(),
        }
    }

    /// The filename the program was read from.
    pub fn filename(&self) -> (r: &String)
        ensures
            r@ == self.spec_filename(),
    {
        &self.filename
    }

    /// The program's instructions.
    pub fn instructions(&self) -> (r: &Vec<BfInstruction>)
        ensures
            r@ == self.insts(),
    {
        &self.instructions
    }

    /// The program's matched bracket pairs, filled in by validation.
    pub fn jump_locations(&self) -> (r: &Vec<BfJumpLocation>)
        ensures
            r@ == self.pairs(),
    {
        &self.jump_locations
    }

    /// The number of instructions in the program.
    pub fn size(&self) -> (r: usize)
        ensures
            r == self.insts().len(),
    {
        self.instructions.len()
    }

    /// Validate the program's loop brackets: a single left-to-right pass over
    /// the instruction sequence with a stack of pending forward brackets. A
    /// forward bracket is pushed; a backward bracket pops its partner and
    /// records the pair, or fails at once when nothing is open; a forward
    /// bracket still open at the end of the pass fails. On success the matched
    /// pairs are stored, both as pair records and as a jump-target table
    /// indexed by program position; on failure the program is unchanged.
    pub fn validate(&mut self) -> (r: Result<(), BfValidationError>)
        requires
            old(self).wf(),
        ensures
            validate_post(*old(self), *final(self), r),
            final(self).wf(),
            r is Ok ==> final(self).validated(),
    {
        let ghost insts = self.instructions@;
        let n = self.instructions.len();
        let mut stack: Vec<usize> = Vec::new();
        let mut records: Vec<BfJumpLocation> = Vec::new();
        let mut targets: Vec<Option<usize>> = Vec::new();
        let ghost mut gpairs = Seq::<MatchedPair>::empty();

        while targets.len() < n
            invariant
                targets@.len() <= n,
                forall|k: int| 0 <= k < targets@.len() ==> targets@[k] is None,
            decreases n - targets.len(),
        {
            targets.push(None);
        }

        let mut i: usize = 0;
        while i < n
            invariant
                *self == *old(self),
                old(self).wf(),
                i <= n,
                n == insts.len(),
                insts == self.instructions@,
                forall|k: int|
                    0 <= k < stack@.len() ==> stack@[k] < i && insts[#[trigger] stack@[k] as int].command
                        is JumpForward,
                spec_validate(insts) == match_rec(insts, i as nat, stack@, gpairs),
                records@ == spec_pair_records(insts, gpairs),
                targets@.len() == n,
                forall|k: int| 0 <= k < n ==> targets@[k] == pair_target(gpairs, k),
                targets_consistent(insts, targets@),
            decreases n - i,
        {
            let inst = self.instructions[i];
            let ghost prev_stack = stack@;
            let ghost prev_pairs = gpairs;
            match inst.command {
                BfCommand::JumpForward => {
                    stack.push(i);
                    proof {
                        assert(match_rec(insts, i as nat, prev_stack, gpairs) == match_rec(
                            insts,
                            (i + 1) as nat,
                            stack@,
                            gpairs,
                        ));
                    }
                },
                BfCommand::JumpBackward => {
                    if stack.len() == 0 {
                        return Err(BfValidationError::UnmatchedBackwardBracket {
                            instruction: inst,
                        });
                    }
                    let f = stack.pop().unwrap();
                    let depth = stack.len();
                    records.push(
                        BfJumpLocation {
                            depth,
                            forward: self.instructions[f].location,
                            backward: inst.location,
                        },
                    );
                    targets.set(f, Some(i));
                    targets.set(i, Some(f));
                    proof {
                        let p = MatchedPair { fwd: f, bwd: i, depth };
                        gpairs = prev_pairs.push(p);
                        assert(stack@ =~= prev_stack.drop_last());
                        assert(match_rec(insts, i as nat, prev_stack, prev_pairs) == match_rec(
                            insts,
                            (i + 1) as nat,
                            stack@,
                            gpairs,
                        ));
                        assert(records@ =~= spec_pair_records(insts, gpairs));
                        assert forall|k: int| 0 <= k < n implies targets@[k] == pair_target(
                            gpairs,
                            k,
                        ) by {
                            assert(gpairs.drop_last() =~= prev_pairs);
                            assert(pair_target(gpairs, k) == if p.fwd == k {
                                Some(p.bwd)
                            } else if p.bwd == k {
                                Some(p.fwd)
                            } else {
                                pair_target(prev_pairs, k)
                            });
                        }
                    }
                },
                _ => {},
            }
            i = i + 1;
        }
        if stack.len() > 0 {
            let top = stack[stack.len() - 1];
            return Err(BfValidationError::UnmatchedForwardBracket {
                instruction: self.instructions[top],
            });
        }
        self.jump_locations = records;
        self.jump_targets = targets;
        Ok(())
    }

    /// The pre-resolved jump target for the bracket at a program position:
    /// the position of the matching bracket, or `None` when the position does
    /// not hold a matched bracket or validation has not run.
    pub fn jump_target(&self, pos: usize) -> (r: Option<usize>)
        ensures
            r == self.spec_jump_target(pos as int),
    {
        if pos < self.jump_targets.len() {
            self.jump_targets[pos]
        } else {
            None
        }
    }
}

proof fn lemma_pair_target_push_preserves(pairs: Seq<MatchedPair>, p: MatchedPair, k: int)
    requires
        pair_target(pairs, k) is Some,
    ensures
        pair_target(pairs.push(p), k) is Some,
{
    assert(pairs.push(p).drop_last() =~= pairs);
}

proof fn lemma_match_rec_matches_all(
    insts: Seq<BfInstruction>,
    i: nat,
    stack: Seq<usize>,
    pairs: Seq<MatchedPair>,
)
    requires
        i <= insts.len() <= usize::MAX,
        forall|k: int|
            0 <= k < i && (insts[k].command is JumpForward || insts[k].command is JumpBackward)
                ==> stack.contains(k as usize) || pair_target(pairs, k) is Some,
    ensures
        match_rec(insts, i, stack, pairs) matches Ok(ps) ==> forall|k: int|
            0 <= k < insts.len() && (insts[k].command is JumpForward || insts[k].command
                is JumpBackward) ==> pair_target(ps, k) is Some,
    decreases insts.len() - i,
{
    if i == insts.len() {
        if stack.len() == 0 {
            assert forall|k: int|
                0 <= k < insts.len() && (insts[k].command is JumpForward || insts[k].command
                    is JumpBackward) implies pair_target(pairs, k) is Some by {
                assert(!stack.contains(k as usize));
            }
        }
    } else if i < insts.len() {
        let inst = insts[i as int];
        if inst.command is JumpForward {
            let stack2 = stack.push(i as usize);
            assert forall|k: int|
                0 <= k < i + 1 && (insts[k].command is JumpForward || insts[k].command
                    is JumpBackward) implies stack2.contains(k as usize) || pair_target(pairs, k)
                is Some by {
                if k == i {
                    assert(stack2[stack.len() as int] == i as usize);
                } else if stack.contains(k as usize) {
                    let j = choose|j: int| 0 <= j < stack.len() && stack[j] == k as usize;
                    assert(stack2[j] == k as usize);
                }
            }
            lemma_match_rec_matches_all(insts, i + 1, stack2, pairs);
        } else if inst.command is JumpBackward {
            if stack.len() > 0 {
                let f = stack.last();
                let p = MatchedPair { fwd: f, bwd: i as usize, depth: (stack.len() - 1) as usize };
                let stack2 = stack.drop_last();
                let pairs2 = pairs.push(p);
                assert forall|k: int|
                    0 <= k < i + 1 && (insts[k].command is JumpForward || insts[k].command
                        is JumpBackward) implies stack2.contains(k as usize) || pair_target(
                    pairs2,
                    k,
                ) is Some by {
                    if k == i {
                        assert(pair_target(pairs2, k) is Some);
                    } else if k == f as int {
                        assert(pair_target(pairs2, k) is Some);
                    } else if stack.contains(k as usize) {
                        let j = choose|j: int| 0 <= j < stack.len() && stack[j] == k as usize;
                        assert(j < stack.len() - 1);
                        assert(stack2[j] == k as usize);
                    } else if pair_target(pairs, k) is Some {
                        lemma_pair_target_push_preserves(pairs, p, k);
                    }
                }
                lemma_match_rec_matches_all(insts, i + 1, stack2, pairs2);
            }
        } else {
            assert forall|k: int|
                0 <= k < i + 1 && (insts[k].command is JumpForward || insts[k].command
                    is JumpBackward) implies stack.contains(k as usize) || pair_target(pairs, k)
                is Some by {}
            lemma_match_rec_matches_all(insts, i + 1, stack, pairs);
        }
    }
}

/// On a validated program every bracket has a recorded partner: the jump
/// table answers for every forward and every backward bracket, so a jump that
/// finds no matching bracket cannot occur once validation has succeeded.
pub proof fn lemma_validated_brackets_matched(p: BfProgram)
    requires
        p.validated(),
        p.insts().len() <= usize::MAX,
    ensures
        forall|k: int|
            0 <= k < p.insts().len() && (p.insts()[k].command is JumpForward
                || p.insts()[k].command is JumpBackward) ==> p.spec_jump_target(k) is Some,
{
    lemma_match_rec_matches_all(
        p.insts(),
        0,
        Seq::<usize>::empty(),
        Seq::<MatchedPair>::empty(),
    );
}

/// Validation is idempotent. Its outcome and the bracket-pair table it builds
/// are functions of the instruction sequence alone, and validation leaves
/// that sequence unchanged, so validating the same program twice yields the
/// same result and the same table both times.
pub proof fn lemma_validation_idempotent(
    p0: BfProgram,
    p1: BfProgram,
    p2: BfProgram,
    r1: Result<(), BfValidationError>,
    r2: Result<(), BfValidationError>,
)
    requires
        validate_post(p0, p1, r1),
        validate_post(p1, p2, r2),
    ensures
        r2 == r1,
        p2.pairs() == p1.pairs(),
        p2.targets() == p1.targets(),
{
    assert(p1.insts() == p0.insts());
    if r1 is Ok {
        assert(spec_validate(p0.insts()) is Ok);
        if r2 is Err {
            assert(spec_validate(p1.insts()) is Err);
            assert(false);
        }
        assert(r1 matches Ok(u) && r2 matches Ok(v) && u == v);
        assert(p2.targets() =~= p1.targets());
    } else {
        assert(spec_validate(p0.insts()) == Err::<Seq<MatchedPair>, BfValidationError>(
            r1->Err_0,
        ));
        if r2 is Ok {
            assert(spec_validate(p1.insts()) is Ok);
            assert(false);
        }
        assert(spec_validate(p1.insts()) == Err::<Seq<MatchedPair>, BfValidationError>(
            r2->Err_0,
        ));
    }
}

} // verus!

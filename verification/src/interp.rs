//! The tape / execution engine: mutable run state (cells, data pointer,
//! program pointer) and instruction-by-instruction execution of a program
//! against byte-oriented input and output sinks.

use crate::config::{AllocStrategy, DebugLevelType, OutputFormat};
use crate::io::{ByteReader, ByteWriter};
use crate::types::{BfCommand, BfInstruction, BfProgram};
use vstd::prelude::*;

verus! {

/// Errors that can be returned while running a program. Each carries the
/// offending instruction and the program pointer at the time of failure,
/// copied out as plain data for diagnostics.
#[derive(Debug)]
pub enum BfError {
    /// The data pointer would move before the start of the tape.
    DataPtrMovedBeforeStart {
        /// The instruction that was being executed.
        instruction: BfInstruction,
        /// The program pointer at the time of failure.
        program_pointer: usize,
    },
    /// The data pointer would move past the end of a fixed tape. (A growable
    /// tape extends instead; this error never arises there.)
    DataPtrMovedAfterEnd {
        /// The instruction that was being executed.
        instruction: BfInstruction,
        /// The program pointer at the time of failure.
        program_pointer: usize,
    },
    /// The program pointer would move past the end of the program.
    ProgramPtrMovedAfterEnd {
        /// The instruction that was being executed.
        instruction: BfInstruction,
        /// The program pointer at the time of failure.
        program_pointer: usize,
    },
    /// The program pointer would move before the start of the program.
    ProgramPtrMovedBeforeStart {
        /// The instruction that was being executed.
        instruction: BfInstruction,
        /// The program pointer at the time of failure.
        program_pointer: usize,
    },
    /// A jump found no matching bracket. On a validated program this cannot
    /// happen; it signals an internal inconsistency and is fatal to the run.
    BracketNotFound {
        /// The program pointer at the time of failure.
        program_pointer: usize,
    },
    /// A single run executed [`STEP_LIMIT`] instructions without halting or
    /// failing. The limit exists so that every run provably ends; at one
    /// instruction per nanosecond it would take centuries to reach.
    StepLimitExceeded {
        /// The program pointer when the run was stopped.
        program_pointer: usize,
    },
    /// An input or output sink failed (other than clean end of input).
    IOError {
        /// The sink's description of the failure.
        error_msg: String,
        /// The name of the program's source, for diagnostics.
        filepath: String,
        /// The instruction that was being executed.
        instruction: BfInstruction,
        /// The program pointer at the time of failure.
        program_pointer: usize,
    },
}

/// `v + 1` in the wrapping arithmetic of a cell whose values run below
/// `limit`.
pub open spec fn cell_inc(v: nat, limit: nat) -> nat {
    (((v + 1) as int) % (limit as int)) as nat
}

/// `v - 1` in the wrapping arithmetic of a cell whose values run below
/// `limit`.
pub open spec fn cell_dec(v: nat, limit: nat) -> nat {
    (((v + limit - 1) as int) % (limit as int)) as nat
}

/// Round trip through a fresh cell, for every cell width the engine accepts:
/// one increment of a zero cell stores 1 (and reads back as the byte 1), and
/// one decrement of a zero cell wraps around and stores the cell's largest
/// value.
pub proof fn lemma_fresh_cell_round_trip<T: CellKind>()
    ensures
        cell_inc(0, T::cell_limit()) == 1,
        cell_inc(0, T::cell_limit()) % 256 == 1,
        cell_dec(0, T::cell_limit()) == T::cell_limit() - 1,
{
    T::lemma_cell_limit();
    vstd::arithmetic::div_mod::lemma_small_mod(1, T::cell_limit());
    vstd::arithmetic::div_mod::lemma_small_mod((T::cell_limit() - 1) as nat, T::cell_limit());
    vstd::arithmetic::div_mod::lemma_small_mod(1, 256);
}

/// One cell of the tape: a fixed-width unsigned value with wrapping
/// increment and decrement, a zero default, and conversion to and from one
/// byte for input and output.
pub trait CellKind: Copy + core::fmt::Debug {
    /// The value this cell holds.
    spec fn cell_value(&self) -> nat;

    /// One more than the largest value a cell can hold: the modulus of the
    /// cell's wrapping arithmetic.
    spec fn cell_limit() -> nat;

    /// A cell holds at least one byte.
    proof fn lemma_cell_limit()
        ensures
            Self::cell_limit() >= 256,
    ;

    /// Cell values stay below the cell's limit.
    proof fn lemma_cell_value_in_range(&self)
        ensures
            self.cell_value() < Self::cell_limit(),
    ;

    /// The zero cell, the default value of every tape cell.
    fn zero() -> (r: Self)
        ensures
            r.cell_value() == 0,
    ;

    /// The largest representable cell value, stored on reading an exhausted
    /// input.
    fn max_value() -> (r: Self)
        ensures
            r.cell_value() == Self::cell_limit() - 1,
    ;

    /// Whether the cell holds zero.
    fn is_zero(&self) -> (r: bool)
        ensures
            r == (self.cell_value() == 0),
    ;

    /// Increment the cell's value, wrapping to zero past the largest value.
    fn inc(&mut self) -> (r: Self)
        ensures
            r.cell_value() == cell_inc(old(self).cell_value(), Self::cell_limit()),
            final(self).cell_value() == old(self).cell_value(),
    ;

    /// Decrement the cell's value, wrapping to the largest value below zero.
    fn dec(&mut self) -> (r: Self)
        ensures
            r.cell_value() == cell_dec(old(self).cell_value(), Self::cell_limit()),
            final(self).cell_value() == old(self).cell_value(),
    ;

    /// The low byte of the cell's value.
    fn to_u8(&self) -> (r: u8)
        ensures
            r as nat == self.cell_value() % 256,
    ;

    /// The cell holding the given byte's value.
    fn from_u8(value: u8) -> (r: Self)
        ensures
            r.cell_value() == value as nat,
    ;
}

impl CellKind for u8 {
    open spec fn cell_value(&self) -> nat {
        *self as nat
    }

    open spec fn cell_limit() -> nat {
        256
    }

    proof fn lemma_cell_limit() {
    }

    proof fn lemma_cell_value_in_range(&self) {
    }

    fn zero() -> (r: Self) {
        0
    }

    fn max_value() -> (r: Self) {
        255
    }

    fn is_zero(&self) -> (r: bool) {
        *self == 0
    }

    fn inc(&mut self) -> (r: Self) {
        self.wrapping_add(1)
    }

    fn dec(&mut self) -> (r: Self) {
        self.wrapping_sub(1)
    }

    fn to_u8(&self) -> (r: u8) {
        *self
    }

    fn from_u8(value: u8) -> (r: Self) {
        value
    }
}

impl CellKind for u16 {
    open spec fn cell_value(&self) -> nat {
        *self as nat
    }

    open spec fn cell_limit() -> nat {
        65536
    }

    proof fn lemma_cell_limit() {
    }

    proof fn lemma_cell_value_in_range(&self) {
    }

    fn zero() -> (r: Self) {
        0
    }

    fn max_value() -> (r: Self) {
        65535
    }

    fn is_zero(&self) -> (r: bool) {
        *self == 0
    }

    fn inc(&mut self) -> (r: Self) {
        self.wrapping_add(1)
    }

    fn dec(&mut self) -> (r: Self) {
        self.wrapping_sub(1)
    }

    fn to_u8(&self) -> (r: u8) {
        (*self % 256) as u8
    }

    fn from_u8(value: u8) -> (r: Self) {
        value as u16
    }
}

/// Default tape length, used when a caller asks for 0 cells.
pub const MAX_TAPE_SIZE: usize = 30000;

/// The most instructions one run may execute before it is stopped with
/// [`BfError::StepLimitExceeded`].
pub const STEP_LIMIT: u64 = 0xffff_ffff_ffff_ffff;

/// The decimal digits of `v`, as ASCII bytes, most significant first.
pub open spec fn spec_decimal_digits(v: nat) -> Seq<u8>
    decreases v,
{
    if v < 10 {
        seq![(48 + v) as u8]
    } else {
        spec_decimal_digits(v / 10).push((48 + v % 10) as u8)
    }
}

/// The sink went from `before` to `after` by accepting some prefix of
/// `full`: what holds of the output stream when writing was cut short.
pub open spec fn wrote_prefix(before: Seq<u8>, after: Seq<u8>, full: Seq<u8>) -> bool {
    exists|k: int| 0 <= k <= full.len() && after == before + full.take(k)
}

/// Write all of `bytes` to the sink, in order, stopping at the first failure.
fn write_all<W: ByteWriter>(writer: &mut W, bytes: &Vec<u8>) -> (r: Result<(), String>)
    ensures
        match r {
            Ok(()) => final(writer).written_bytes() == old(writer).written_bytes() + bytes@,
            Err(_) => wrote_prefix(
                old(writer).written_bytes(),
                final(writer).written_bytes(),
                bytes@,
            ),
        },
        old(writer).spec_infallible() ==> r is Ok && final(writer).spec_infallible(),
{
    proof {
        assert(old(writer).written_bytes() + bytes@.take(0) =~= old(writer).written_bytes());
    }
    let mut j: usize = 0;
    while j < bytes.len()
        invariant
            j <= bytes@.len(),
            writer.written_bytes() == old(writer).written_bytes() + bytes@.take(j as int),
            old(writer).spec_infallible() ==> writer.spec_infallible(),
        decreases bytes@.len() - j,
    {
        let ghost before = writer.written_bytes();
        match writer.write_byte(bytes[j]) {
            Ok(()) => {
                proof {
                    assert(before.push(bytes@[j as int]) =~= old(writer).written_bytes()
                        + bytes@.take(j as int + 1));
                }
            },
            Err(message) => {
                return Err(message);
            },
        }
        j = j + 1;
    }
    proof {
        assert(bytes@.take(bytes@.len() as int) =~= bytes@);
    }
    Ok(())
}

/// What one output of a cell holding `v` appends to the output sink: the low
/// byte of `v` as-is under raw-byte output, or its decimal digits followed by
/// a comma under numeric-text output.
pub open spec fn spec_output_bytes(v: nat, format: OutputFormat) -> Seq<u8> {
    match format {
        OutputFormat::AsciiOutput => seq![(v % 256) as u8],
        OutputFormat::BinaryOutput => spec_decimal_digits(v % 256).push(44u8),
    }
}

/// One complete machine configuration, as the specification sees a run: the
/// program and data pointers, the cell values, the input not yet consumed,
/// and the output produced so far.
pub struct ExecConfig {
    /// The program pointer.
    pub pp: nat,
    /// The data pointer.
    pub dp: nat,
    /// The values of the cells.
    pub cells: Seq<nat>,
    /// The input bytes not yet consumed.
    pub input: Seq<u8>,
    /// The output bytes produced so far.
    pub output: Seq<u8>,
}

/// Why the specification-level machine aborts.
pub enum ExecAbort {
    /// Move-pointer-left at cell 0.
    BeforeStart,
    /// Move-pointer-right at the last cell of a fixed tape.
    AfterEnd,
    /// A taken jump with no recorded partner.
    NoBracket,
}

/// One step of the machine: what the instruction under the program pointer
/// does to a configuration, for a tape of cells wrapping at `limit`, under
/// the given allocation strategy and output format. This is the reference
/// semantics the execution engine is proved to follow.
pub open spec fn spec_step(
    prog: BfProgram,
    strategy: AllocStrategy,
    format: OutputFormat,
    limit: nat,
    cfg: ExecConfig,
) -> Result<ExecConfig, ExecAbort>
    recommends
        cfg.pp < prog.insts().len(),
        cfg.dp < cfg.cells.len(),
{
    let inst = prog.insts()[cfg.pp as int];
    match inst.command {
        BfCommand::Comment => Ok(ExecConfig { pp: cfg.pp + 1, ..cfg }),
        BfCommand::IncDataPointer => {
            if cfg.dp + 1 == cfg.cells.len() {
                if strategy is TapeCanGrow {
                    Ok(
                        ExecConfig {
                            pp: cfg.pp + 1,
                            dp: cfg.dp + 1,
                            cells: cfg.cells.push(0),
                            ..cfg
                        },
                    )
                } else {
                    Err(ExecAbort::AfterEnd)
                }
            } else {
                Ok(ExecConfig { pp: cfg.pp + 1, dp: cfg.dp + 1, ..cfg })
            }
        },
        BfCommand::DecDataPointer => {
            if cfg.dp == 0 {
                Err(ExecAbort::BeforeStart)
            } else {
                Ok(ExecConfig { pp: cfg.pp + 1, dp: (cfg.dp - 1) as nat, ..cfg })
            }
        },
        BfCommand::IncValue => Ok(
            ExecConfig {
                pp: cfg.pp + 1,
                cells: cfg.cells.update(cfg.dp as int, cell_inc(cfg.cells[cfg.dp as int], limit)),
                ..cfg
            },
        ),
        BfCommand::DecValue => Ok(
            ExecConfig {
                pp: cfg.pp + 1,
                cells: cfg.cells.update(cfg.dp as int, cell_dec(cfg.cells[cfg.dp as int], limit)),
                ..cfg
            },
        ),
        BfCommand::OutputValue => Ok(
            ExecConfig {
                pp: cfg.pp + 1,
                output: cfg.output + spec_output_bytes(cfg.cells[cfg.dp as int], format),
                ..cfg
            },
        ),
        BfCommand::InputValue => {
            if cfg.input.len() > 0 {
                Ok(
                    ExecConfig {
                        pp: cfg.pp + 1,
                        cells: cfg.cells.update(cfg.dp as int, cfg.input[0] as nat),
                        input: cfg.input.drop_first(),
                        ..cfg
                    },
                )
            } else {
                Ok(
                    ExecConfig {
                        pp: cfg.pp + 1,
                        cells: cfg.cells.update(cfg.dp as int, (limit - 1) as nat),
                        ..cfg
                    },
                )
            }
        },
        BfCommand::JumpForward => {
            if cfg.cells[cfg.dp as int] == 0 {
                match prog.spec_jump_target(cfg.pp as int) {
                    Some(j) => Ok(ExecConfig { pp: j as nat + 1, ..cfg }),
                    None => Err(ExecAbort::NoBracket),
                }
            } else {
                Ok(ExecConfig { pp: cfg.pp + 1, ..cfg })
            }
        },
        BfCommand::JumpBackward => {
            if cfg.cells[cfg.dp as int] != 0 {
                match prog.spec_jump_target(cfg.pp as int) {
                    Some(j) => Ok(ExecConfig { pp: j as nat + 1, ..cfg }),
                    None => Err(ExecAbort::NoBracket),
                }
            } else {
                Ok(ExecConfig { pp: cfg.pp + 1, ..cfg })
            }
        },
    }
}

/// The machine after `n` steps from `cfg`, standing still once the program
/// pointer reaches the end of the program: the configuration reached, or the
/// abort together with the configuration it struck.
pub open spec fn spec_run(
    prog: BfProgram,
    strategy: AllocStrategy,
    format: OutputFormat,
    limit: nat,
    cfg: ExecConfig,
    n: nat,
) -> Result<ExecConfig, (ExecAbort, ExecConfig)>
    decreases n,
{
    if n == 0 {
        Ok(cfg)
    } else {
        match spec_run(prog, strategy, format, limit, cfg, (n - 1) as nat) {
            Ok(c) => {
                if c.pp >= prog.insts().len() {
                    Ok(c)
                } else {
                    match spec_step(prog, strategy, format, limit, c) {
                        Ok(c2) => Ok(c2),
                        Err(a) => Err((a, c)),
                    }
                }
            },
            Err(e) => Err(e),
        }
    }
}

proof fn lemma_validated_step_no_bracket(
    prog: BfProgram,
    strategy: AllocStrategy,
    format: OutputFormat,
    limit: nat,
    cfg: ExecConfig,
)
    requires
        prog.validated(),
        prog.insts().len() <= usize::MAX,
        cfg.pp < prog.insts().len(),
    ensures
        spec_step(prog, strategy, format, limit, cfg) != Err::<ExecConfig, ExecAbort>(
            ExecAbort::NoBracket,
        ),
{
    crate::types::lemma_validated_brackets_matched(prog);
}

/// On a validated program the machine never aborts for want of a bracket,
/// however many steps it takes: validation pre-resolved every jump.
pub proof fn lemma_validated_run_no_bracket_abort(
    prog: BfProgram,
    strategy: AllocStrategy,
    format: OutputFormat,
    limit: nat,
    cfg: ExecConfig,
    n: nat,
)
    requires
        prog.validated(),
        prog.insts().len() <= usize::MAX,
    ensures
        match spec_run(prog, strategy, format, limit, cfg, n) {
            Err((why, at)) => !(why is NoBracket),
            Ok(c) => true,
        },
    decreases n,
{
    if n > 0 {
        lemma_validated_run_no_bracket_abort(prog, strategy, format, limit, cfg, (n - 1) as nat);
        match spec_run(prog, strategy, format, limit, cfg, (n - 1) as nat) {
            Ok(c) => {
                if c.pp < prog.insts().len() {
                    lemma_validated_step_no_bracket(prog, strategy, format, limit, c);
                }
            },
            Err(_) => {},
        }
    }
}

/// `n` machine steps from `start` reach `end`, still running or halted.
pub open spec fn reaches(
    prog: BfProgram,
    strategy: AllocStrategy,
    format: OutputFormat,
    limit: nat,
    start: ExecConfig,
    end: ExecConfig,
    n: nat,
) -> bool {
    spec_run(prog, strategy, format, limit, start, n) == Ok::<
        ExecConfig,
        (ExecAbort, ExecConfig),
    >(end)
}

/// `n` machine steps from `start` strike the abort `why` in configuration
/// `at`.
pub open spec fn aborts(
    prog: BfProgram,
    strategy: AllocStrategy,
    format: OutputFormat,
    limit: nat,
    start: ExecConfig,
    why: ExecAbort,
    at: ExecConfig,
    n: nat,
) -> bool {
    spec_run(prog, strategy, format, limit, start, n) == Err::<
        ExecConfig,
        (ExecAbort, ExecConfig),
    >((why, at))
}

/// The run state of one program execution: the tape of cells, the data
/// pointer into it, the program pointer into the borrowed program's
/// instruction sequence, and the run's configuration. One engine instance
/// drives one run and is discarded afterwards; the program it borrows is
/// never mutated and may back several engines.
pub struct BfTape<'a, T> {
    /// The program pointer: the index of the next instruction to execute.
    program_pointer: usize,
    /// The program being run.
    program: &'a BfProgram,
    /// The data pointer: the index of the cell being operated on.
    data_pointer: usize,
    /// Whether the tape may grow past its initial length.
    alloc_strategy: AllocStrategy,
    /// How cell values are written to the output sink.
    output_format: OutputFormat,
    /// The cells themselves.
    tape: Vec<T>,
    /// Debug verbosity, carried for diagnostic callers.
    debug: DebugLevelType,
}

impl<'a, T: CellKind> BfTape<'a, T> {
    /// The program this engine runs.
    pub closed spec fn spec_program(&self) -> BfProgram {
        *self.program
    }

    /// The program pointer.
    pub closed spec fn spec_program_pointer(&self) -> usize {
        self.program_pointer
    }

    /// The data pointer.
    pub closed spec fn spec_data_pointer(&self) -> usize {
        self.data_pointer
    }

    /// The values held by the cells of the tape, in order.
    pub closed spec fn cells(&self) -> Seq<nat> {
        self.tape@.map(|k: int, c: T| c.cell_value())
    }

    /// The tape's allocation strategy.
    pub closed spec fn spec_alloc_strategy(&self) -> AllocStrategy {
        self.alloc_strategy
    }

    /// The tape's output format.
    pub closed spec fn spec_output_format(&self) -> OutputFormat {
        self.output_format
    }

    /// The tape's debug level.
    pub closed spec fn spec_debug(&self) -> DebugLevelType {
        self.debug
    }

    /// What no operation on a tape ever changes: the program it runs and the
    /// run's configuration.
    pub open spec fn same_setup(&self, other: &Self) -> bool {
        &&& self.spec_program() == other.spec_program()
        &&& self.spec_alloc_strategy() == other.spec_alloc_strategy()
        &&& self.spec_output_format() == other.spec_output_format()
        &&& self.spec_debug() == other.spec_debug()
    }

    /// Well-formed run state: at least one cell, the data pointer on the
    /// tape, every cell holding a value of the cell type's width, the program
    /// pointer at an instruction or just past the last one (the halted
    /// state), and a program whose jump table is consistent.
    pub open spec fn wf(&self) -> bool {
        &&& 1 <= self.cells().len()
        &&& self.spec_data_pointer() < self.cells().len()
        &&& forall|k: int|
            0 <= k < self.cells().len() ==> #[trigger] self.cells()[k] < T::cell_limit()
        &&& self.spec_program_pointer() <= self.spec_program().insts().len()
        &&& self.spec_program().wf()
    }

    /// The machine configuration this engine is in, paired with the given
    /// views of the input and output streams.
    pub open spec fn config(&self, input: Seq<u8>, output: Seq<u8>) -> ExecConfig {
        ExecConfig {
            pp: self.spec_program_pointer() as nat,
            dp: self.spec_data_pointer() as nat,
            cells: self.cells(),
            input,
            output,
        }
    }

    /// What a finished run is, witnessed by a step count `n` and an output
    /// delta `out`. `n` steps of the specification machine ([`spec_step`]),
    /// taken from the engine's starting configuration with the reader's
    /// bytes as input, explain the result exactly: on success the machine
    /// halted in the engine's final configuration, having consumed the input
    /// down to what the reader still holds and produced `out`, precisely
    /// what the writer gained; on an abort the machine struck the reported
    /// error in that configuration; a sink failure stops the machine mid-run
    /// at the reported instruction, which is an input or output command and
    /// whose error names the program's source; and a run cut off by the step
    /// budget really took [`STEP_LIMIT`] steps.
    pub open spec fn run_post(
        pre: Self,
        post: Self,
        input_pre: Seq<u8>,
        input_post: Seq<u8>,
        output_pre: Seq<u8>,
        output_post: Seq<u8>,
        n: nat,
        out: Seq<u8>,
        r: Result<(), BfError>,
    ) -> bool {
        let prog = pre.spec_program();
        let strategy = pre.spec_alloc_strategy();
        let format = pre.spec_output_format();
        let limit = T::cell_limit();
        let start = pre.config(input_pre, Seq::<u8>::empty());
        match r {
            Ok(()) => {
                &&& reaches(prog, strategy, format, limit, start, post.config(input_post, out), n)
                &&& output_post == output_pre + out
                &&& post.spec_program_pointer() == prog.insts().len()
            },
            Err(e) => match e {
                BfError::DataPtrMovedBeforeStart { instruction, program_pointer } => {
                    &&& aborts(
                        prog,
                        strategy,
                        format,
                        limit,
                        start,
                        ExecAbort::BeforeStart,
                        post.config(input_post, out),
                        n,
                    )
                    &&& output_post == output_pre + out
                    &&& program_pointer == post.spec_program_pointer()
                    &&& instruction == prog.insts()[program_pointer as int]
                },
                BfError::DataPtrMovedAfterEnd { instruction, program_pointer } => {
                    &&& aborts(
                        prog,
                        strategy,
                        format,
                        limit,
                        start,
                        ExecAbort::AfterEnd,
                        post.config(input_post, out),
                        n,
                    )
                    &&& output_post == output_pre + out
                    &&& program_pointer == post.spec_program_pointer()
                    &&& instruction == prog.insts()[program_pointer as int]
                },
                BfError::BracketNotFound { program_pointer } => {
                    &&& aborts(
                        prog,
                        strategy,
                        format,
                        limit,
                        start,
                        ExecAbort::NoBracket,
                        post.config(input_post, out),
                        n,
                    )
                    &&& output_post == output_pre + out
                    &&& program_pointer == post.spec_program_pointer()
                },
                BfError::StepLimitExceeded { program_pointer } => {
                    &&& n == STEP_LIMIT as nat
                    &&& reaches(prog, strategy, format, limit, start, post.config(input_post, out), n)
                    &&& output_post == output_pre + out
                    &&& program_pointer == post.spec_program_pointer()
                    &&& post.spec_program_pointer() < prog.insts().len()
                },
                BfError::IOError { filepath, instruction, program_pointer, .. } => {
                    &&& reaches(prog, strategy, format, limit, start, post.config(input_post, out), n)
                    &&& program_pointer == post.spec_program_pointer()
                    &&& post.spec_program_pointer() < prog.insts().len()
                    &&& instruction == prog.insts()[program_pointer as int]
                    &&& (instruction.command is OutputValue || instruction.command is InputValue)
                    &&& filepath@ == prog.spec_filename()
                    &&& (output_post == output_pre + out || wrote_prefix(
                        output_pre + out,
                        output_post,
                        spec_output_bytes(post.cells()[post.spec_data_pointer() as int], format),
                    ))
                },
                _ => false,
            },
        }
    }

    /// A finished run over a validated program never reports
    /// `BracketNotFound`: validation pre-resolves every jump, so the
    /// machine this run followed cannot have aborted for want of a bracket.
    pub proof fn lemma_validated_run_reports_no_bracket_error(
        pre: Self,
        post: Self,
        input_pre: Seq<u8>,
        input_post: Seq<u8>,
        output_pre: Seq<u8>,
        output_post: Seq<u8>,
        n: nat,
        out: Seq<u8>,
        r: Result<(), BfError>,
    )
        requires
            pre.spec_program().validated(),
            pre.spec_program().insts().len() <= usize::MAX,
            Self::run_post(pre, post, input_pre, input_post, output_pre, output_post, n, out, r),
        ensures
            !(r matches Err(BfError::BracketNotFound { .. })),
    {
        if r matches Err(BfError::BracketNotFound { .. }) {
            lemma_validated_run_no_bracket_abort(
                pre.spec_program(),
                pre.spec_alloc_strategy(),
                pre.spec_output_format(),
                T::cell_limit(),
                pre.config(input_pre, Seq::<u8>::empty()),
                n,
            );
        }
    }

    /// Create a new tape over `program` with `tape_size` zeroed cells (0
    /// meaning the default of [`MAX_TAPE_SIZE`]), the given allocation
    /// strategy, raw-byte output, and no debug output. Both pointers start
    /// at 0.
    pub fn new(program: &'a BfProgram, tape_size: usize, alloc_strategy: AllocStrategy) -> (r: Self)
        requires
            program.wf(),
        ensures
            r.wf(),
            r.spec_program() == *program,
            r.spec_program_pointer() == 0,
            r.spec_data_pointer() == 0,
            r.cells().len() == (if tape_size == 0 {
                MAX_TAPE_SIZE as int
            } else {
                tape_size as int
            }),
            forall|k: int| 0 <= k < r.cells().len() ==> r.cells()[k] == 0,
            r.spec_alloc_strategy() == alloc_strategy,
            r.spec_output_format() == OutputFormat::AsciiOutput,
            r.spec_debug() == DebugLevelType::Quiet,
    {
        proof {
            T::lemma_cell_limit();
        }
        let size = if tape_size == 0 {
            MAX_TAPE_SIZE
        } else {
            tape_size
        };
        let mut tape: Vec<T> = Vec::new();
        while tape.len() < size
            invariant
                tape@.len() <= size,
                forall|k: int| 0 <= k < tape@.len() ==> (#[trigger] tape@[k]).cell_value() == 0,
            decreases size - tape.len(),
        {
            tape.push(T::zero());
        }
        BfTape {
            program_pointer: 0,
            program,
            data_pointer: 0,
            alloc_strategy,
            output_format: OutputFormat::AsciiOutput,
            tape,
            debug: DebugLevelType::Quiet,
        }
    }

    /// The data pointer.
    pub fn data_pointer(&self) -> (r: usize)
        ensures
            r == self.spec_data_pointer(),
    {
        self.data_pointer
    }

    /// Move the data pointer back to the start of the tape.
    pub fn reset_data_pointer(&mut self)
        ensures
            final(self).spec_data_pointer() == 0,
            final(self).spec_program_pointer() == old(self).spec_program_pointer(),
            final(self).cells() == old(self).cells(),
            old(self).same_setup(final(self)),
            old(self).wf() ==> final(self).wf(),
    {
        self.data_pointer = 0;
    }

    /// The number of cells the tape currently holds.
    pub fn data_length(&self) -> (r: usize)
        ensures
            r == self.cells().len(),
    {
        self.tape.len()
    }

    /// The program pointer.
    pub fn program_pointer(&self) -> (r: usize)
        ensures
            r == self.spec_program_pointer(),
    {
        self.program_pointer
    }

    /// The instruction at the current program pointer. There must be one:
    /// a halted engine has no current instruction.
    pub fn current_instruction(&self) -> (r: BfInstruction)
        requires
            self.spec_program_pointer() < self.spec_program().insts().len(),
        ensures
            r == self.spec_program().insts()[self.spec_program_pointer() as int],
    {
        self.program.instructions()[self.program_pointer]
    }

    /// Move the data pointer one cell to the right. At the last cell the
    /// allocation strategy decides: a fixed tape fails with
    /// `DataPtrMovedAfterEnd`, a growable tape gains one zeroed cell and the
    /// pointer advances onto it.
    pub fn move_data_pointer_forward(&mut self) -> (r: Result<(), BfError>)
        requires
            old(self).wf(),
            old(self).spec_program_pointer() < old(self).spec_program().insts().len(),
        ensures
            final(self).wf(),
            old(self).same_setup(final(self)),
            final(self).spec_program_pointer() == old(self).spec_program_pointer(),
            match r {
                Ok(()) => {
                    &&& final(self).spec_data_pointer() == old(self).spec_data_pointer() + 1
                    &&& if old(self).spec_data_pointer() == old(self).cells().len() - 1 {
                        old(self).spec_alloc_strategy() is TapeCanGrow && final(self).cells()
                            == old(self).cells().push(0)
                    } else {
                        final(self).cells() == old(self).cells()
                    }
                },
                Err(e) => {
                    &&& e == (BfError::DataPtrMovedAfterEnd {
                        instruction: old(self).spec_program().insts()[old(
                            self,
                        ).spec_program_pointer() as int],
                        program_pointer: old(self).spec_program_pointer(),
                    })
                    &&& old(self).spec_data_pointer() == old(self).cells().len() - 1
                    &&& old(self).spec_alloc_strategy() is TapeIsFixed
                    &&& final(self).spec_data_pointer() == old(self).spec_data_pointer()
                    &&& final(self).cells() == old(self).cells()
                },
            },
    {
        if self.data_pointer == self.tape.len() - 1 {
            match self.alloc_strategy {
                AllocStrategy::TapeIsFixed => {
                    return Err(BfError::DataPtrMovedAfterEnd {
                        program_pointer: self.program_pointer,
                        instruction: self.program.instructions()[self.program_pointer],
                    });
                },
                AllocStrategy::TapeCanGrow => {
                    self.tape.push(T::zero());
                    proof {
                        T::lemma_cell_limit();
                        assert(self.cells() =~= old(self).cells().push(0));
                    }
                },
            }
        }
        self.data_pointer = self.data_pointer + 1;
        Ok(())
    }

    /// Move the data pointer one cell to the left. At cell 0 this fails with
    /// `DataPtrMovedBeforeStart`, whatever the allocation strategy.
    pub fn move_data_pointer_back(&mut self) -> (r: Result<(), BfError>)
        requires
            old(self).wf(),
            old(self).spec_program_pointer() < old(self).spec_program().insts().len(),
        ensures
            final(self).wf(),
            old(self).same_setup(final(self)),
            final(self).spec_program_pointer() == old(self).spec_program_pointer(),
            final(self).cells() == old(self).cells(),
            match r {
                Ok(()) => {
                    &&& old(self).spec_data_pointer() > 0
                    &&& final(self).spec_data_pointer() == old(self).spec_data_pointer() - 1
                },
                Err(e) => {
                    &&& e == (BfError::DataPtrMovedBeforeStart {
                        instruction: old(self).spec_program().insts()[old(
                            self,
                        ).spec_program_pointer() as int],
                        program_pointer: old(self).spec_program_pointer(),
                    })
                    &&& old(self).spec_data_pointer() == 0
                    &&& final(self).spec_data_pointer() == 0
                },
            },
    {
        if self.data_pointer == 0 {
            return Err(BfError::DataPtrMovedBeforeStart {
                program_pointer: self.program_pointer,
                instruction: self.program.instructions()[self.program_pointer],
            });
        }
        self.data_pointer = self.data_pointer - 1;
        Ok(())
    }

    /// Move the program pointer to the next instruction. At the last
    /// instruction this fails with `ProgramPtrMovedAfterEnd`.
    pub fn move_program_pointer_forward(&mut self) -> (r: Result<(), BfError>)
        requires
            old(self).wf(),
            old(self).spec_program_pointer() < old(self).spec_program().insts().len(),
        ensures
            final(self).wf(),
            old(self).same_setup(final(self)),
            final(self).spec_data_pointer() == old(self).spec_data_pointer(),
            final(self).cells() == old(self).cells(),
            match r {
                Ok(()) => {
                    &&& old(self).spec_program_pointer() + 1 < old(self).spec_program().insts().len()
                    &&& final(self).spec_program_pointer() == old(self).spec_program_pointer() + 1
                },
                Err(e) => {
                    &&& e == (BfError::ProgramPtrMovedAfterEnd {
                        instruction: old(self).spec_program().insts()[old(
                            self,
                        ).spec_program_pointer() as int],
                        program_pointer: old(self).spec_program_pointer(),
                    })
                    &&& old(self).spec_program_pointer() == old(self).spec_program().insts().len()
                        - 1
                    &&& final(self).spec_program_pointer() == old(self).spec_program_pointer()
                },
            },
    {
        if self.program_pointer == self.program.instructions().len() - 1 {
            return Err(BfError::ProgramPtrMovedAfterEnd {
                program_pointer: self.program_pointer,
                instruction: self.program.instructions()[self.program_pointer],
            });
        }
        self.program_pointer = self.program_pointer + 1;
        Ok(())
    }

    /// Move the program pointer to the previous instruction. At instruction 0
    /// this fails with `ProgramPtrMovedBeforeStart`.
    pub fn move_program_pointer_back(&mut self) -> (r: Result<(), BfError>)
        requires
            old(self).wf(),
            old(self).spec_program_pointer() < old(self).spec_program().insts().len(),
        ensures
            final(self).wf(),
            old(self).same_setup(final(self)),
            final(self).spec_data_pointer() == old(self).spec_data_pointer(),
            final(self).cells() == old(self).cells(),
            match r {
                Ok(()) => {
                    &&& old(self).spec_program_pointer() > 0
                    &&& final(self).spec_program_pointer() == old(self).spec_program_pointer() - 1
                },
                Err(e) => {
                    &&& e == (BfError::ProgramPtrMovedBeforeStart {
                        instruction: old(self).spec_program().insts()[old(
                            self,
                        ).spec_program_pointer() as int],
                        program_pointer: old(self).spec_program_pointer(),
                    })
                    &&& old(self).spec_program_pointer() == 0
                    &&& final(self).spec_program_pointer() == 0
                },
            },
    {
        if self.program_pointer == 0 {
            return Err(BfError::ProgramPtrMovedBeforeStart {
                program_pointer: self.program_pointer,
                instruction: self.program.instructions()[self.program_pointer],
            });
        }
        self.program_pointer = self.program_pointer - 1;
        Ok(())
    }

    /// Increment the cell at the data pointer, wrapping past the cell's
    /// largest value. Never fails; the `Result` keeps the per-instruction
    /// operations uniform.
    pub fn increment_data_value(&mut self) -> (r: Result<(), BfError>)
        requires
            old(self).wf(),
        ensures
            final(self).wf(),
            old(self).same_setup(final(self)),
            final(self).spec_program_pointer() == old(self).spec_program_pointer(),
            final(self).spec_data_pointer() == old(self).spec_data_pointer(),
            final(self).cells() == old(self).cells().update(
                old(self).spec_data_pointer() as int,
                cell_inc(old(self).cells()[old(self).spec_data_pointer() as int], T::cell_limit()),
            ),
            r is Ok,
    {
        let mut cell = self.tape[self.data_pointer];
        let next = cell.inc();
        self.tape.set(self.data_pointer, next);
        proof {
            next.lemma_cell_value_in_range();
            assert(final(self).cells() =~= old(self).cells().update(
                old(self).spec_data_pointer() as int,
                cell_inc(old(self).cells()[old(self).spec_data_pointer() as int], T::cell_limit()),
            ));
        }
        Ok(())
    }

    /// Decrement the cell at the data pointer, wrapping below zero to the
    /// cell's largest value. Never fails.
    pub fn decrement_data_value(&mut self) -> (r: Result<(), BfError>)
        requires
            old(self).wf(),
        ensures
            final(self).wf(),
            old(self).same_setup(final(self)),
            final(self).spec_program_pointer() == old(self).spec_program_pointer(),
            final(self).spec_data_pointer() == old(self).spec_data_pointer(),
            final(self).cells() == old(self).cells().update(
                old(self).spec_data_pointer() as int,
                cell_dec(old(self).cells()[old(self).spec_data_pointer() as int], T::cell_limit()),
            ),
            r is Ok,
    {
        let mut cell = self.tape[self.data_pointer];
        let next = cell.dec();
        self.tape.set(self.data_pointer, next);
        proof {
            next.lemma_cell_value_in_range();
            assert(final(self).cells() =~= old(self).cells().update(
                old(self).spec_data_pointer() as int,
                cell_dec(old(self).cells()[old(self).spec_data_pointer() as int], T::cell_limit()),
            ));
        }
        Ok(())
    }

    /// The low byte of the cell at the data pointer.
    pub fn get_data_value(&self) -> (r: u8)
        requires
            self.wf(),
        ensures
            r as nat == self.cells()[self.spec_data_pointer() as int] % 256,
    {
        self.tape[self.data_pointer].to_u8()
    }

    /// Store a byte's value in the cell at the data pointer.
    pub fn set_data_value(&mut self, value: u8)
        requires
            old(self).wf(),
        ensures
            final(self).wf(),
            old(self).same_setup(final(self)),
            final(self).spec_program_pointer() == old(self).spec_program_pointer(),
            final(self).spec_data_pointer() == old(self).spec_data_pointer(),
            final(self).cells() == old(self).cells().update(
                old(self).spec_data_pointer() as int,
                value as nat,
            ),
    {
        self.tape.set(self.data_pointer, T::from_u8(value));
        proof {
            T::lemma_cell_limit();
            assert(final(self).cells() =~= old(self).cells().update(
                old(self).spec_data_pointer() as int,
                value as nat,
            ));
        }
    }

    /// Read one byte from the input sink into the cell at the data pointer.
    /// Clean end of input is not an error: it stores the cell's largest
    /// representable value, the sentinel idiomatic programs test for. A
    /// failing sink aborts with `IOError` and leaves the tape untouched.
    pub fn input_value<R: ByteReader>(&mut self, reader: &mut R) -> (r: Result<(), BfError>)
        requires
            old(self).wf(),
            old(self).spec_program_pointer() < old(self).spec_program().insts().len(),
        ensures
            final(self).wf(),
            old(self).same_setup(final(self)),
            final(self).spec_program_pointer() == old(self).spec_program_pointer(),
            final(self).spec_data_pointer() == old(self).spec_data_pointer(),
            old(reader).spec_infallible() ==> r is Ok && final(reader).spec_infallible(),
            match r {
                Ok(()) => {
                    &&& if old(reader).remaining_bytes().len() > 0 {
                        &&& final(self).cells() == old(self).cells().update(
                            old(self).spec_data_pointer() as int,
                            old(reader).remaining_bytes()[0] as nat,
                        )
                        &&& final(reader).remaining_bytes() == old(
                            reader,
                        ).remaining_bytes().drop_first()
                    } else {
                        &&& final(self).cells() == old(self).cells().update(
                            old(self).spec_data_pointer() as int,
                            (T::cell_limit() - 1) as nat,
                        )
                        &&& final(reader).remaining_bytes() == old(reader).remaining_bytes()
                    }
                },
                Err(e) => {
                    &&& e matches BfError::IOError { filepath, instruction, program_pointer, .. }
                        && instruction == old(self).spec_program().insts()[old(
                        self,
                    ).spec_program_pointer() as int] && program_pointer == old(
                        self,
                    ).spec_program_pointer() && filepath@ == old(
                        self,
                    ).spec_program().spec_filename()
                    &&& final(self).cells() == old(self).cells()
                    &&& final(reader).remaining_bytes() == old(reader).remaining_bytes()
                },
            },
    {
        match reader.read_byte() {
            Ok(Some(byte)) => {
                self.tape.set(self.data_pointer, T::from_u8(byte));
                proof {
                    T::lemma_cell_limit();
                    assert(final(self).cells() =~= old(self).cells().update(
                        old(self).spec_data_pointer() as int,
                        old(reader).remaining_bytes()[0] as nat,
                    ));
                }
                Ok(())
            },
            Ok(None) => {
                self.tape.set(self.data_pointer, T::max_value());
                proof {
                    T::lemma_cell_limit();
                    assert(final(self).cells() =~= old(self).cells().update(
                        old(self).spec_data_pointer() as int,
                        (T::cell_limit() - 1) as nat,
                    ));
                }
                Ok(())
            },
            Err(message) => Err(BfError::IOError {
                error_msg: message,
                filepath: self.program.filename().clone(),
                instruction: self.program.instructions()[self.program_pointer],
                program_pointer: self.program_pointer,
            }),
        }
    }

    /// Write the cell at the data pointer to the output sink, in the tape's
    /// output format: its low byte as-is under raw-byte output, or its
    /// decimal digits and a comma under numeric-text output. A failing sink
    /// aborts with `IOError`; whatever bytes were already accepted stay
    /// written.
    pub fn output_value<W: ByteWriter>(&mut self, writer: &mut W) -> (r: Result<(), BfError>)
        requires
            old(self).wf(),
            old(self).spec_program_pointer() < old(self).spec_program().insts().len(),
        ensures
            final(self).wf(),
            old(self).same_setup(final(self)),
            final(self).spec_program_pointer() == old(self).spec_program_pointer(),
            final(self).spec_data_pointer() == old(self).spec_data_pointer(),
            final(self).cells() == old(self).cells(),
            old(writer).spec_infallible() ==> r is Ok && final(writer).spec_infallible(),
            match r {
                Ok(()) => final(writer).written_bytes() == old(writer).written_bytes()
                    + spec_output_bytes(
                    old(self).cells()[old(self).spec_data_pointer() as int],
                    old(self).spec_output_format(),
                ),
                Err(e) => {
                    &&& e matches BfError::IOError { filepath, instruction, program_pointer, .. }
                        && instruction == old(self).spec_program().insts()[old(
                        self,
                    ).spec_program_pointer() as int] && program_pointer == old(
                        self,
                    ).spec_program_pointer() && filepath@ == old(
                        self,
                    ).spec_program().spec_filename()
                    &&& wrote_prefix(
                        old(writer).written_bytes(),
                        final(writer).written_bytes(),
                        spec_output_bytes(
                            old(self).cells()[old(self).spec_data_pointer() as int],
                            old(self).spec_output_format(),
                        ),
                    )
                },
            },
    {
        let byte = self.tape[self.data_pointer].to_u8();
        let ghost full = spec_output_bytes(
            old(self).cells()[old(self).spec_data_pointer() as int],
            old(self).spec_output_format(),
        );
        let mut buffer: Vec<u8> = Vec::new();
        match self.output_format {
            OutputFormat::AsciiOutput => {
                buffer.push(byte);
            },
            OutputFormat::BinaryOutput => {
                if byte >= 100 {
                    buffer.push(48 + byte / 100);
                }
                if byte >= 10 {
                    buffer.push(48 + (byte / 10) % 10);
                }
                buffer.push(48 + byte % 10);
                buffer.push(44);
                proof {
                    vstd::arithmetic::div_mod::lemma_div_denominator(byte as int, 10, 10);
                }
            },
        }
        proof {
            reveal_with_fuel(spec_decimal_digits, 4);
            assert(buffer@ =~= full);
        }
        match write_all(writer, &buffer) {
            Ok(()) => Ok(()),
            Err(message) => Err(BfError::IOError {
                error_msg: message,
                filepath: self.program.filename().clone(),
                instruction: self.program.instructions()[self.program_pointer],
                program_pointer: self.program_pointer,
            }),
        }
    }

    /// If the cell at the data pointer is zero, move the program pointer to
    /// the matching backward bracket, resolved in O(1) through the program's
    /// pre-built jump table (the uniform advance that follows every
    /// instruction then lands just past it); otherwise do nothing. A missing
    /// table entry — impossible after successful validation — fails with
    /// `BracketNotFound`.
    pub fn jump_forward(&mut self) -> (r: Result<(), BfError>)
        requires
            old(self).wf(),
            old(self).spec_program_pointer() < old(self).spec_program().insts().len(),
        ensures
            final(self).wf(),
            old(self).same_setup(final(self)),
            final(self).spec_data_pointer() == old(self).spec_data_pointer(),
            final(self).cells() == old(self).cells(),
            match r {
                Ok(()) => {
                    if old(self).cells()[old(self).spec_data_pointer() as int] == 0 {
                        old(self).spec_program().spec_jump_target(
                            old(self).spec_program_pointer() as int,
                        ) == Some(final(self).spec_program_pointer())
                    } else {
                        final(self).spec_program_pointer() == old(self).spec_program_pointer()
                    }
                },
                Err(e) => {
                    &&& e == (BfError::BracketNotFound {
                        program_pointer: old(self).spec_program_pointer(),
                    })
                    &&& old(self).cells()[old(self).spec_data_pointer() as int] == 0
                    &&& old(self).spec_program().spec_jump_target(
                        old(self).spec_program_pointer() as int,
                    ) is None
                    &&& final(self).spec_program_pointer() == old(self).spec_program_pointer()
                },
            },
    {
        if self.tape[self.data_pointer].is_zero() {
            match self.program.jump_target(self.program_pointer) {
                Some(target) => {
                    self.program_pointer = target;
                    Ok(())
                },
                None => Err(BfError::BracketNotFound { program_pointer: self.program_pointer }),
            }
        } else {
            Ok(())
        }
    }

    /// If the cell at the data pointer is nonzero, move the program pointer
    /// to the matching forward bracket (the uniform advance then lands just
    /// past it); otherwise do nothing. A missing table entry fails with
    /// `BracketNotFound`.
    pub fn jump_backward(&mut self) -> (r: Result<(), BfError>)
        requires
            old(self).wf(),
            old(self).spec_program_pointer() < old(self).spec_program().insts().len(),
        ensures
            final(self).wf(),
            old(self).same_setup(final(self)),
            final(self).spec_data_pointer() == old(self).spec_data_pointer(),
            final(self).cells() == old(self).cells(),
            match r {
                Ok(()) => {
                    if old(self).cells()[old(self).spec_data_pointer() as int] != 0 {
                        old(self).spec_program().spec_jump_target(
                            old(self).spec_program_pointer() as int,
                        ) == Some(final(self).spec_program_pointer())
                    } else {
                        final(self).spec_program_pointer() == old(self).spec_program_pointer()
                    }
                },
                Err(e) => {
                    &&& e == (BfError::BracketNotFound {
                        program_pointer: old(self).spec_program_pointer(),
                    })
                    &&& old(self).cells()[old(self).spec_data_pointer() as int] != 0
                    &&& old(self).spec_program().spec_jump_target(
                        old(self).spec_program_pointer() as int,
                    ) is None
                    &&& final(self).spec_program_pointer() == old(self).spec_program_pointer()
                },
            },
    {
        if !self.tape[self.data_pointer].is_zero() {
            match self.program.jump_target(self.program_pointer) {
                Some(target) => {
                    self.program_pointer = target;
                    Ok(())
                },
                None => Err(BfError::BracketNotFound { program_pointer: self.program_pointer }),
            }
        } else {
            Ok(())
        }
    }

    /// Execute one increment-cell instruction: wrap-increment the cell at the
    /// data pointer and return the advanced program pointer. Never fails.
    pub fn command_inc_value(&mut self) -> (r: Result<usize, BfError>)
        requires
            old(self).wf(),
            old(self).spec_program_pointer() < old(self).spec_program().insts().len(),
        ensures
            final(self).wf(),
            old(self).same_setup(final(self)),
            final(self).spec_data_pointer() == old(self).spec_data_pointer(),
            final(self).cells() == old(self).cells().update(
                old(self).spec_data_pointer() as int,
                cell_inc(old(self).cells()[old(self).spec_data_pointer() as int], T::cell_limit()),
            ),
            final(self).spec_program_pointer() == old(self).spec_program_pointer() + 1,
            r == Ok::<usize, BfError>((old(self).spec_program_pointer() + 1) as usize),
    {
        match self.increment_data_value() {
            Ok(()) => {},
            Err(e) => {
                return Err(e);
            },
        }
        let size = self.program.size();
        proof {
            assert(self.program_pointer < size);
        }
        self.program_pointer = self.program_pointer + 1;
        Ok(self.program_pointer)
    }

    /// Execute one decrement-cell instruction: wrap-decrement the cell at the
    /// data pointer and return the advanced program pointer. Never fails.
    pub fn command_dec_value(&mut self) -> (r: Result<usize, BfError>)
        requires
            old(self).wf(),
            old(self).spec_program_pointer() < old(self).spec_program().insts().len(),
        ensures
            final(self).wf(),
            old(self).same_setup(final(self)),
            final(self).spec_data_pointer() == old(self).spec_data_pointer(),
            final(self).cells() == old(self).cells().update(
                old(self).spec_data_pointer() as int,
                cell_dec(old(self).cells()[old(self).spec_data_pointer() as int], T::cell_limit()),
            ),
            final(self).spec_program_pointer() == old(self).spec_program_pointer() + 1,
            r == Ok::<usize, BfError>((old(self).spec_program_pointer() + 1) as usize),
    {
        match self.decrement_data_value() {
            Ok(()) => {},
            Err(e) => {
                return Err(e);
            },
        }
        let size = self.program.size();
        proof {
            assert(self.program_pointer < size);
        }
        self.program_pointer = self.program_pointer + 1;
        Ok(self.program_pointer)
    }

    /// Execute one move-pointer-right instruction: move the data pointer
    /// forward (growing the tape where the strategy allows) and return the
    /// advanced program pointer; on a fixed tape at its last cell, fail with
    /// `DataPtrMovedAfterEnd` and change nothing.
    pub fn command_move_pointer_forward(&mut self) -> (r: Result<usize, BfError>)
        requires
            old(self).wf(),
            old(self).spec_program_pointer() < old(self).spec_program().insts().len(),
        ensures
            final(self).wf(),
            old(self).same_setup(final(self)),
            match r {
                Ok(p) => {
                    &&& p == old(self).spec_program_pointer() + 1
                    &&& final(self).spec_program_pointer() == p
                    &&& final(self).spec_data_pointer() == old(self).spec_data_pointer() + 1
                    &&& if old(self).spec_data_pointer() == old(self).cells().len() - 1 {
                        old(self).spec_alloc_strategy() is TapeCanGrow && final(self).cells()
                            == old(self).cells().push(0)
                    } else {
                        final(self).cells() == old(self).cells()
                    }
                },
                Err(e) => {
                    &&& e == (BfError::DataPtrMovedAfterEnd {
                        instruction: old(self).spec_program().insts()[old(
                            self,
                        ).spec_program_pointer() as int],
                        program_pointer: old(self).spec_program_pointer(),
                    })
                    &&& old(self).spec_data_pointer() == old(self).cells().len() - 1
                    &&& old(self).spec_alloc_strategy() is TapeIsFixed
                    &&& final(self).spec_program_pointer() == old(self).spec_program_pointer()
                    &&& final(self).spec_data_pointer() == old(self).spec_data_pointer()
                    &&& final(self).cells() == old(self).cells()
                },
            },
    {
        match self.move_data_pointer_forward() {
            Ok(()) => {},
            Err(e) => {
                return Err(e);
            },
        }
        let size = self.program.size();
        proof {
            assert(self.program_pointer < size);
        }
        self.program_pointer = self.program_pointer + 1;
        Ok(self.program_pointer)
    }

    /// Execute one move-pointer-left instruction: move the data pointer back
    /// and return the advanced program pointer; at cell 0, fail with
    /// `DataPtrMovedBeforeStart` and change nothing.
    pub fn command_move_pointer_back(&mut self) -> (r: Result<usize, BfError>)
        requires
            old(self).wf(),
            old(self).spec_program_pointer() < old(self).spec_program().insts().len(),
        ensures
            final(self).wf(),
            old(self).same_setup(final(self)),
            final(self).cells() == old(self).cells(),
            match r {
                Ok(p) => {
                    &&& p == old(self).spec_program_pointer() + 1
                    &&& final(self).spec_program_pointer() == p
                    &&& old(self).spec_data_pointer() > 0
                    &&& final(self).spec_data_pointer() == old(self).spec_data_pointer() - 1
                },
                Err(e) => {
                    &&& e == (BfError::DataPtrMovedBeforeStart {
                        instruction: old(self).spec_program().insts()[old(
                            self,
                        ).spec_program_pointer() as int],
                        program_pointer: old(self).spec_program_pointer(),
                    })
                    &&& old(self).spec_data_pointer() == 0
                    &&& final(self).spec_program_pointer() == old(self).spec_program_pointer()
                    &&& final(self).spec_data_pointer() == 0
                },
            },
    {
        match self.move_data_pointer_back() {
            Ok(()) => {},
            Err(e) => {
                return Err(e);
            },
        }
        let size = self.program.size();
        proof {
            assert(self.program_pointer < size);
        }
        self.program_pointer = self.program_pointer + 1;
        Ok(self.program_pointer)
    }

    /// Execute one input-cell instruction: read a byte into the cell at the
    /// data pointer (the cell's largest value on clean end of input) and
    /// return the advanced program pointer; a failing sink aborts with
    /// `IOError` and changes nothing.
    pub fn command_input_value<R: ByteReader>(&mut self, reader: &mut R) -> (r: Result<
        usize,
        BfError,
    >)
        requires
            old(self).wf(),
            old(self).spec_program_pointer() < old(self).spec_program().insts().len(),
        ensures
            final(self).wf(),
            old(self).same_setup(final(self)),
            final(self).spec_data_pointer() == old(self).spec_data_pointer(),
            old(reader).spec_infallible() ==> r is Ok && final(reader).spec_infallible(),
            match r {
                Ok(p) => {
                    &&& p == old(self).spec_program_pointer() + 1
                    &&& final(self).spec_program_pointer() == p
                    &&& if old(reader).remaining_bytes().len() > 0 {
                        &&& final(self).cells() == old(self).cells().update(
                            old(self).spec_data_pointer() as int,
                            old(reader).remaining_bytes()[0] as nat,
                        )
                        &&& final(reader).remaining_bytes() == old(
                            reader,
                        ).remaining_bytes().drop_first()
                    } else {
                        &&& final(self).cells() == old(self).cells().update(
                            old(self).spec_data_pointer() as int,
                            (T::cell_limit() - 1) as nat,
                        )
                        &&& final(reader).remaining_bytes() == old(reader).remaining_bytes()
                    }
                },
                Err(e) => {
                    &&& e matches BfError::IOError { filepath, instruction, program_pointer, .. }
                        && instruction == old(self).spec_program().insts()[old(
                        self,
                    ).spec_program_pointer() as int] && program_pointer == old(
                        self,
                    ).spec_program_pointer() && filepath@ == old(
                        self,
                    ).spec_program().spec_filename()
                    &&& final(self).spec_program_pointer() == old(self).spec_program_pointer()
                    &&& final(self).cells() == old(self).cells()
                    &&& final(reader).remaining_bytes() == old(reader).remaining_bytes()
                },
            },
    {
        match self.input_value(reader) {
            Ok(()) => {},
            Err(e) => {
                return Err(e);
            },
        }
        let size = self.program.size();
        proof {
            assert(self.program_pointer < size);
        }
        self.program_pointer = self.program_pointer + 1;
        Ok(self.program_pointer)
    }

    /// Execute one output-cell instruction: write the cell at the data
    /// pointer to the sink in the tape's output format and return the
    /// advanced program pointer; a failing sink aborts with `IOError`,
    /// keeping whatever prefix it already accepted.
    pub fn command_output_value<W: ByteWriter>(&mut self, writer: &mut W) -> (r: Result<
        usize,
        BfError,
    >)
        requires
            old(self).wf(),
            old(self).spec_program_pointer() < old(self).spec_program().insts().len(),
        ensures
            final(self).wf(),
            old(self).same_setup(final(self)),
            final(self).spec_data_pointer() == old(self).spec_data_pointer(),
            final(self).cells() == old(self).cells(),
            old(writer).spec_infallible() ==> r is Ok && final(writer).spec_infallible(),
            match r {
                Ok(p) => {
                    &&& p == old(self).spec_program_pointer() + 1
                    &&& final(self).spec_program_pointer() == p
                    &&& final(writer).written_bytes() == old(writer).written_bytes()
                        + spec_output_bytes(
                        old(self).cells()[old(self).spec_data_pointer() as int],
                        old(self).spec_output_format(),
                    )
                },
                Err(e) => {
                    &&& e matches BfError::IOError { filepath, instruction, program_pointer, .. }
                        && instruction == old(self).spec_program().insts()[old(
                        self,
                    ).spec_program_pointer() as int] && program_pointer == old(
                        self,
                    ).spec_program_pointer() && filepath@ == old(
                        self,
                    ).spec_program().spec_filename()
                    &&& final(self).spec_program_pointer() == old(self).spec_program_pointer()
                    &&& wrote_prefix(
                        old(writer).written_bytes(),
                        final(writer).written_bytes(),
                        spec_output_bytes(
                            old(self).cells()[old(self).spec_data_pointer() as int],
                            old(self).spec_output_format(),
                        ),
                    )
                },
            },
    {
        match self.output_value(writer) {
            Ok(()) => {},
            Err(e) => {
                return Err(e);
            },
        }
        let size = self.program.size();
        proof {
            assert(self.program_pointer < size);
        }
        self.program_pointer = self.program_pointer + 1;
        Ok(self.program_pointer)
    }

    /// Execute one jump-forward-if-zero instruction: resolve the jump (a
    /// no-op on a nonzero cell) and return the advanced program pointer,
    /// which after a taken jump lands just past the matching backward
    /// bracket. A missing table entry fails with `BracketNotFound`.
    pub fn command_jump_forward(&mut self) -> (r: Result<usize, BfError>)
        requires
            old(self).wf(),
            old(self).spec_program_pointer() < old(self).spec_program().insts().len(),
        ensures
            final(self).wf(),
            old(self).same_setup(final(self)),
            final(self).spec_data_pointer() == old(self).spec_data_pointer(),
            final(self).cells() == old(self).cells(),
            match r {
                Ok(p) => {
                    &&& final(self).spec_program_pointer() == p
                    &&& if old(self).cells()[old(self).spec_data_pointer() as int] == 0 {
                        old(self).spec_program().spec_jump_target(
                            old(self).spec_program_pointer() as int,
                        ) matches Some(j) && p == j + 1
                    } else {
                        p == old(self).spec_program_pointer() + 1
                    }
                },
                Err(e) => {
                    &&& e == (BfError::BracketNotFound {
                        program_pointer: old(self).spec_program_pointer(),
                    })
                    &&& old(self).cells()[old(self).spec_data_pointer() as int] == 0
                    &&& old(self).spec_program().spec_jump_target(
                        old(self).spec_program_pointer() as int,
                    ) is None
                    &&& final(self).spec_program_pointer() == old(self).spec_program_pointer()
                },
            },
    {
        match self.jump_forward() {
            Ok(()) => {},
            Err(e) => {
                return Err(e);
            },
        }
        let size = self.program.size();
        proof {
            assert(self.program_pointer < size);
        }
        self.program_pointer = self.program_pointer + 1;
        Ok(self.program_pointer)
    }

    /// Execute one jump-backward-if-nonzero instruction: resolve the jump (a
    /// no-op on a zero cell) and return the advanced program pointer, which
    /// after a taken jump lands just past the matching forward bracket. A
    /// missing table entry fails with `BracketNotFound`.
    pub fn command_jump_backward(&mut self) -> (r: Result<usize, BfError>)
        requires
            old(self).wf(),
            old(self).spec_program_pointer() < old(self).spec_program().insts().len(),
        ensures
            final(self).wf(),
            old(self).same_setup(final(self)),
            final(self).spec_data_pointer() == old(self).spec_data_pointer(),
            final(self).cells() == old(self).cells(),
            match r {
                Ok(p) => {
                    &&& final(self).spec_program_pointer() == p
                    &&& if old(self).cells()[old(self).spec_data_pointer() as int] != 0 {
                        old(self).spec_program().spec_jump_target(
                            old(self).spec_program_pointer() as int,
                        ) matches Some(j) && p == j + 1
                    } else {
                        p == old(self).spec_program_pointer() + 1
                    }
                },
                Err(e) => {
                    &&& e == (BfError::BracketNotFound {
                        program_pointer: old(self).spec_program_pointer(),
                    })
                    &&& old(self).cells()[old(self).spec_data_pointer() as int] != 0
                    &&& old(self).spec_program().spec_jump_target(
                        old(self).spec_program_pointer() as int,
                    ) is None
                    &&& final(self).spec_program_pointer() == old(self).spec_program_pointer()
                },
            },
    {
        match self.jump_backward() {
            Ok(()) => {},
            Err(e) => {
                return Err(e);
            },
        }
        let size = self.program.size();
        proof {
            assert(self.program_pointer < size);
        }
        self.program_pointer = self.program_pointer + 1;
        Ok(self.program_pointer)
    }

    /// The debug level in use.
    pub fn debug(&self) -> (r: DebugLevelType)
        ensures
            r == self.spec_debug(),
    {
        self.debug
    }

    /// Set the debug level.
    pub fn set_debug(&mut self, debug: DebugLevelType)
        ensures
            final(self).spec_debug() == debug,
            final(self).spec_program() == old(self).spec_program(),
            final(self).spec_alloc_strategy() == old(self).spec_alloc_strategy(),
            final(self).spec_output_format() == old(self).spec_output_format(),
            final(self).spec_program_pointer() == old(self).spec_program_pointer(),
            final(self).spec_data_pointer() == old(self).spec_data_pointer(),
            final(self).cells() == old(self).cells(),
            old(self).wf() ==> final(self).wf(),
    {
        self.debug = debug;
    }

    /// Run the program to completion or first error: repeatedly fetch the
    /// instruction at the program pointer, execute it, and continue at the
    /// program pointer the operation returns, until the program pointer
    /// reaches the end of the instruction sequence (the halted state) or an
    /// operation fails, in which case the run stops at once and the error is
    /// returned; cell mutations already applied stay in place. A step budget
    /// of [`STEP_LIMIT`] instructions — far beyond anything a machine can
    /// execute — bounds the run, so a program whose loops never exit fails
    /// with `StepLimitExceeded` rather than spinning without end.
    #[verifier::rlimit(100)]
    pub fn interpreter<R: ByteReader, W: ByteWriter>(
        &mut self,
        reader: &mut R,
        writer: &mut W,
    ) -> (r: Result<(), BfError>)
        requires
            old(self).wf(),
        ensures
            final(self).wf(),
            old(self).same_setup(final(self)),
            r is Ok ==> final(self).spec_program_pointer()
                == final(self).spec_program().insts().len(),
            old(reader).spec_infallible() && old(writer).spec_infallible() ==> !(r matches Err(
                BfError::IOError { .. },
            )),
            old(reader).spec_infallible() ==> final(reader).spec_infallible(),
            old(writer).spec_infallible() ==> final(writer).spec_infallible(),
            exists|n: nat, out: Seq<u8>|
                #[trigger] Self::run_post(
                    *old(self),
                    *final(self),
                    old(reader).remaining_bytes(),
                    final(reader).remaining_bytes(),
                    old(writer).written_bytes(),
                    final(writer).written_bytes(),
                    n,
                    out,
                    r,
                ),
    {
        let ghost prog = old(self).spec_program();
        let ghost strategy = old(self).spec_alloc_strategy();
        let ghost format = old(self).spec_output_format();
        let ghost limit = T::cell_limit();
        let ghost start = old(self).config(old(reader).remaining_bytes(), Seq::<u8>::empty());
        let ghost mut steps: nat = 0;
        let ghost mut produced: Seq<u8> = Seq::<u8>::empty();
        proof {
            assert(old(writer).written_bytes() + produced =~= old(writer).written_bytes());
        }
        let mut fuel: u64 = STEP_LIMIT;
        while self.program_pointer != self.program.size() && fuel > 0
            invariant
                self.wf(),
                old(self).same_setup(self),
                self.spec_program() == prog,
                self.spec_alloc_strategy() == strategy,
                self.spec_output_format() == format,
                limit == T::cell_limit(),
                prog == old(self).spec_program(),
                strategy == old(self).spec_alloc_strategy(),
                format == old(self).spec_output_format(),
                start == old(self).config(old(reader).remaining_bytes(), Seq::<u8>::empty()),
                writer.written_bytes() == old(writer).written_bytes() + produced,
                old(reader).spec_infallible() ==> reader.spec_infallible(),
                old(writer).spec_infallible() ==> writer.spec_infallible(),
                steps + fuel == STEP_LIMIT,
                reaches(
                    prog,
                    strategy,
                    format,
                    limit,
                    start,
                    self.config(reader.remaining_bytes(), produced),
                    steps,
                ),
            decreases fuel,
        {
            fuel = fuel - 1;
            let ghost c = self.config(reader.remaining_bytes(), produced);
            let inst = self.program.instructions()[self.program_pointer];
            let next = match inst.command {
                BfCommand::Comment => self.program_pointer + 1,
                BfCommand::IncDataPointer => {
                    match self.command_move_pointer_forward() {
                        Ok(p) => p,
                        Err(e) => {
                            proof {
                                let n_next: nat = (steps + 1) as nat;
                                assert(self.config(reader.remaining_bytes(), produced) == c);
                                assert(aborts(
                                    prog,
                                    strategy,
                                    format,
                                    limit,
                                    start,
                                    ExecAbort::AfterEnd,
                                    self.config(reader.remaining_bytes(), produced),
                                    n_next,
                                ));
                                assert(Self::run_post(
                                    *old(self),
                                    *self,
                                    old(reader).remaining_bytes(),
                                    reader.remaining_bytes(),
                                    old(writer).written_bytes(),
                                    writer.written_bytes(),
                                    n_next,
                                    produced,
                                    Err(e),
                                ));
                            }
                            return Err(e);
                        },
                    }
                },
                BfCommand::DecDataPointer => {
                    match self.command_move_pointer_back() {
                        Ok(p) => p,
                        Err(e) => {
                            proof {
                                let n_next: nat = (steps + 1) as nat;
                                assert(self.config(reader.remaining_bytes(), produced) == c);
                                assert(aborts(
                                    prog,
                                    strategy,
                                    format,
                                    limit,
                                    start,
                                    ExecAbort::BeforeStart,
                                    self.config(reader.remaining_bytes(), produced),
                                    n_next,
                                ));
                                assert(Self::run_post(
                                    *old(self),
                                    *self,
                                    old(reader).remaining_bytes(),
                                    reader.remaining_bytes(),
                                    old(writer).written_bytes(),
                                    writer.written_bytes(),
                                    n_next,
                                    produced,
                                    Err(e),
                                ));
                            }
                            return Err(e);
                        },
                    }
                },
                BfCommand::IncValue => {
                    match self.command_inc_value() {
                        Ok(p) => p,
                        Err(e) => {
                            return Err(e);
                        },
                    }
                },
                BfCommand::DecValue => {
                    match self.command_dec_value() {
                        Ok(p) => p,
                        Err(e) => {
                            return Err(e);
                        },
                    }
                },
                BfCommand::OutputValue => {
                    match self.command_output_value(writer) {
                        Ok(p) => {
                            proof {
                                produced = produced + spec_output_bytes(
                                    c.cells[c.dp as int],
                                    format,
                                );
                                assert((old(writer).written_bytes() + c.output)
                                    + spec_output_bytes(c.cells[c.dp as int], format)
                                    =~= old(writer).written_bytes() + produced);
                            }
                            p
                        },
                        Err(e) => {
                            proof {
                                assert(self.config(reader.remaining_bytes(), produced) == c);
                                assert(reaches(
                                    prog,
                                    strategy,
                                    format,
                                    limit,
                                    start,
                                    self.config(reader.remaining_bytes(), produced),
                                    steps,
                                ));
                                assert(Self::run_post(
                                    *old(self),
                                    *self,
                                    old(reader).remaining_bytes(),
                                    reader.remaining_bytes(),
                                    old(writer).written_bytes(),
                                    writer.written_bytes(),
                                    steps,
                                    produced,
                                    Err(e),
                                ));
                            }
                            return Err(e);
                        },
                    }
                },
                BfCommand::InputValue => {
                    match self.command_input_value(reader) {
                        Ok(p) => p,
                        Err(e) => {
                            proof {
                                assert(self.config(reader.remaining_bytes(), produced) == c);
                                assert(reaches(
                                    prog,
                                    strategy,
                                    format,
                                    limit,
                                    start,
                                    self.config(reader.remaining_bytes(), produced),
                                    steps,
                                ));
                                assert(Self::run_post(
                                    *old(self),
                                    *self,
                                    old(reader).remaining_bytes(),
                                    reader.remaining_bytes(),
                                    old(writer).written_bytes(),
                                    writer.written_bytes(),
                                    steps,
                                    produced,
                                    Err(e),
                                ));
                            }
                            return Err(e);
                        },
                    }
                },
                BfCommand::JumpForward => {
                    match self.command_jump_forward() {
                        Ok(p) => p,
                        Err(e) => {
                            proof {
                                let n_next: nat = (steps + 1) as nat;
                                assert(self.config(reader.remaining_bytes(), produced) == c);
                                assert(aborts(
                                    prog,
                                    strategy,
                                    format,
                                    limit,
                                    start,
                                    ExecAbort::NoBracket,
                                    self.config(reader.remaining_bytes(), produced),
                                    n_next,
                                ));
                                assert(Self::run_post(
                                    *old(self),
                                    *self,
                                    old(reader).remaining_bytes(),
                                    reader.remaining_bytes(),
                                    old(writer).written_bytes(),
                                    writer.written_bytes(),
                                    n_next,
                                    produced,
                                    Err(e),
                                ));
                            }
                            return Err(e);
                        },
                    }
                },
                BfCommand::JumpBackward => {
                    match self.command_jump_backward() {
                        Ok(p) => p,
                        Err(e) => {
                            proof {
                                let n_next: nat = (steps + 1) as nat;
                                assert(self.config(reader.remaining_bytes(), produced) == c);
                                assert(aborts(
                                    prog,
                                    strategy,
                                    format,
                                    limit,
                                    start,
                                    ExecAbort::NoBracket,
                                    self.config(reader.remaining_bytes(), produced),
                                    n_next,
                                ));
                                assert(Self::run_post(
                                    *old(self),
                                    *self,
                                    old(reader).remaining_bytes(),
                                    reader.remaining_bytes(),
                                    old(writer).written_bytes(),
                                    writer.written_bytes(),
                                    n_next,
                                    produced,
                                    Err(e),
                                ));
                            }
                            return Err(e);
                        },
                    }
                },
            };
            self.program_pointer = next;
            proof {
                let c2 = self.config(reader.remaining_bytes(), produced);
                assert(spec_step(prog, strategy, format, limit, c) == Ok::<
                    ExecConfig,
                    ExecAbort,
                >(c2));
                steps = steps + 1;
                assert(reaches(prog, strategy, format, limit, start, c2, steps));
            }
        }
        if self.program_pointer != self.program.size() {
            let err = BfError::StepLimitExceeded { program_pointer: self.program_pointer };
            proof {
                assert(Self::run_post(
                    *old(self),
                    *self,
                    old(reader).remaining_bytes(),
                    reader.remaining_bytes(),
                    old(writer).written_bytes(),
                    writer.written_bytes(),
                    STEP_LIMIT as nat,
                    produced,
                    Err(err),
                ));
            }
            return Err(err);
        }
        proof {
            assert(Self::run_post(
                *old(self),
                *self,
                old(reader).remaining_bytes(),
                reader.remaining_bytes(),
                old(writer).written_bytes(),
                writer.written_bytes(),
                steps,
                produced,
                Ok(()),
            ));
        }
        Ok(())
    }

    /// Set the output format for cell values.
    pub fn set_output_format(&mut self, output_format: OutputFormat)
        ensures
            final(self).spec_output_format() == output_format,
            final(self).spec_program() == old(self).spec_program(),
            final(self).spec_alloc_strategy() == old(self).spec_alloc_strategy(),
            final(self).spec_debug() == old(self).spec_debug(),
            final(self).spec_program_pointer() == old(self).spec_program_pointer(),
            final(self).spec_data_pointer() == old(self).spec_data_pointer(),
            final(self).cells() == old(self).cells(),
            old(self).wf() ==> final(self).wf(),
    {
        self.output_format = output_format;
    }
}

} // verus!

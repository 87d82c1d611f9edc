//! The configuration the engine accepts from the boundary: allocation
//! strategy, output format, debug verbosity, and the assembled arguments.
//! Reading these values from the command line belongs to the caller; this
//! module only holds them as plain values.

use vstd::prelude::*;

verus! {

/// Allocation strategy for the tape that holds the program's data.
///
/// * `TapeCanGrow` allows more memory to be allocated when required.
/// * `TapeIsFixed` keeps the tape at its initial length; moving past its end
///   is an error.
#[derive(Copy, Clone, Debug, PartialEq, Eq, Structural)]
pub enum AllocStrategy {
    /// Allows more memory to be allocated when required.
    TapeCanGrow,
    /// The amount of memory used to store the tape cannot be changed.
    TapeIsFixed,
}

/// Output format for data cell values.
///
/// * `AsciiOutput` writes each cell's value as one raw byte.
/// * `BinaryOutput` writes each cell's value as decimal digits followed by a
///   comma.
#[derive(Copy, Clone, Debug, PartialEq, Eq, Structural)]
pub enum OutputFormat {
    /// Values are written as raw bytes.
    AsciiOutput,
    /// Values are written as decimal text, one comma after each value.
    BinaryOutput,
}

/// Debug verbosity levels, in increasing order of detail.
#[derive(Copy, Clone, Debug, PartialEq, Eq, PartialOrd, Ord, Structural)]
pub enum DebugLevelType {
    /// No debug output.
    Quiet,
    /// Informational output only.
    Information,
    /// More information and debug data.
    Verbose,
    /// Very detailed and very verbose debug information.
    Detailed,
}

/// The debug level a raw verbosity count denotes: 0 is quiet, 3 or more is
/// capped at the most detailed level.
pub open spec fn spec_debug_level(v: u8) -> DebugLevelType {
    if v == 0 {
        DebugLevelType::Quiet
    } else if v == 1 {
        DebugLevelType::Information
    } else if v == 2 {
        DebugLevelType::Verbose
    } else {
        DebugLevelType::Detailed
    }
}

impl From<u8> for DebugLevelType {
    /// Convert a raw verbosity count (typically how often a flag was given)
    /// into a debug level.
    fn from(orig: u8) -> (r: Self) {
        match orig {
            0 => DebugLevelType::Quiet,
            1 => DebugLevelType::Information,
            2 => DebugLevelType::Verbose,
            _ => DebugLevelType::Detailed,
        }
    }
}

impl vstd::std_specs::convert::FromSpecImpl<u8> for DebugLevelType {
    open spec fn obeys_from_spec() -> bool {
        true
    }

    open spec fn from_spec(v: u8) -> Self {
        spec_debug_level(v)
    }
}

/// The engine's run configuration, assembled from plain values: the name of
/// the program to run, the initial cell count, the allocation strategy, the
/// output format, and the debug verbosity.
pub struct Args {
    /// The name of the program's source.
    program: String,
    /// The number of initial cells; 0 asks for the documented default.
    cells: usize,
    /// How cell values are written out.
    output_format: OutputFormat,
    /// Whether the tape may grow past its initial length.
    extensible: AllocStrategy,
    /// Raw debug verbosity count.
    debug: u8,
}

impl Args {
    /// The name of the program's source.
    pub closed spec fn spec_program(&self) -> Seq<char> {
        self.program@
    }

    /// The configured initial cell count.
    pub closed spec fn spec_cells(&self) -> usize {
        self.cells
    }

    /// The configured allocation strategy.
    pub closed spec fn spec_extensible(&self) -> AllocStrategy {
        self.extensible
    }

    /// The configured output format.
    pub closed spec fn spec_output_format(&self) -> OutputFormat {
        self.output_format
    }

    /// The raw debug verbosity count.
    pub closed spec fn spec_debug(&self) -> u8 {
        self.debug
    }

    /// Assemble a run configuration from plain values: `extensible` chooses a
    /// growable over a fixed tape, `numbers` chooses decimal-text over
    /// raw-byte output, and `debug` is how often a verbosity flag was given.
    pub fn new(
        program: String,
        cells: usize,
        extensible: bool,
        numbers: bool,
        debug: u8,
    ) -> (r: Args)
        ensures
            r.spec_program() == program@,
            r.spec_cells() == cells,
            r.spec_extensible() == (if extensible {
                AllocStrategy::TapeCanGrow
            } else {
                AllocStrategy::TapeIsFixed
            }),
            r.spec_output_format() == (if numbers {
                OutputFormat::BinaryOutput
            } else {
                OutputFormat::AsciiOutput
            }),
            r.spec_debug() == debug,
    {
        let extensible = if extensible {
            AllocStrategy::TapeCanGrow
        } else {
            AllocStrategy::TapeIsFixed
        };
        let output_format = if numbers {
            OutputFormat::BinaryOutput
        } else {
            OutputFormat::AsciiOutput
        };
        Args { program, cells, extensible, output_format, debug }
    }

    /// The name of the program's source.
    pub fn program(&self) -> (r: &String)
        ensures
            r@ == self.spec_program(),
    {
        &self.program
    }

    /// The number of cells in the program's tape; 0 asks for the default.
    pub fn cell_count(&self) -> (r: usize)
        ensures
            r == self.spec_cells(),
    {
        self.cells
    }

    /// Whether the program's tape can grow or is fixed.
    pub fn extensible(&self) -> (r: AllocStrategy)
        ensures
            r == self.spec_extensible(),
    {
        self.extensible
    }

    /// How cell values are written out.
    pub fn output_format(&self) -> (r: OutputFormat)
        ensures
            r == self.spec_output_format(),
    {
        self.output_format
    }

    /// The configured debug level.
    pub fn debug(&self) -> (r: DebugLevelType)
        ensures
            r == spec_debug_level(self.spec_debug()),
    {
        DebugLevelType::from(self.debug)
    }
}

} // verus!

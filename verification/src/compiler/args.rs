//! The compiler's command-line arguments, as values.

use vstd::prelude::*;

verus! {

/// The compiler's banner: a slice of toast drawn in characters.
pub const TOAST_ASCII: &'static str = "================\n ###### ######\n#......#......#\n#.............#\n #...........#\n #...........#\n #...........#\n  ###########\n================";

/// How much the compiler reports.
#[derive(Debug, Clone, Copy, PartialEq, Eq, Structural)]
pub enum CompilerVerbosity {
    Verbose,
    Silent,
}

impl Default for CompilerVerbosity {
    /// The compiler is silent unless asked otherwise.
    fn default() -> (r: Self)
        ensures
            r == CompilerVerbosity::Silent,
    {
        CompilerVerbosity::Silent
    }
}

/// The arguments of a compiler run: the source file, where to store the
/// compiled program (if given), and the verbosity.
#[derive(Debug, Clone, PartialEq, Eq)]
pub struct ToastArgs {
    /// The path to the file which should be compiled.
    pub source: String,
    /// The file path where the compiled program should be stored.
    pub output: Option<String>,
    /// How much the compiler reports.
    pub verbosity: CompilerVerbosity,
}

} // verus!

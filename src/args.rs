//! The command line of the evaluator, as plain values.

use vstd::prelude::*;

verus! {

/// How much the program logs.
#[derive(Debug, PartialEq, Eq, Clone, Copy)]
pub enum LogLevel {
    Trace,
    Debug,
    Info,
    Warn,
    Error,
}

/// The options of the evaluator's command line.
#[derive(Debug, Clone)]
pub struct Args {
    /// A global log level to use when printing logs.
    pub log_level: LogLevel,
    /// Path to a script to evaluate.
    pub script: Option<String>,
    pub expr: Option<String>,
    /// Dump the raw AST to stdout before interpreting.
    pub display_ast: bool,
    /// Dump the bytecode to stdout before evaluating.
    pub dump_bytecode: bool,
    /// Trace the runtime of the VM.
    pub trace_runtime: bool,
    /// Capture the time (relative to the start time of evaluation) of all events
    /// traced with `--trace-runtime`.
    pub trace_runtime_timing: bool,
    /// Only compile, but do not execute code.
    pub compile_only: bool,
    /// Don't print warnings.
    pub no_warnings: bool,
    /// A colon-separated list of directories to use to resolve `<...>`-style
    /// paths.
    pub nix_search_path: Option<String>,
    /// Print "raw" (unquoted) output.
    pub raw: bool,
    /// Strictly evaluate values, forcing e.g. the elements of lists and attribute
    /// sets before printing the return value.
    pub strict: bool,
    pub blob_service_addr: String,
    pub directory_service_addr: String,
    pub path_info_service_addr: String,
    pub build_service_addr: String,
}

} // verus!

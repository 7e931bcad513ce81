//! Execute shell scripts embedded within text.
//!
//! Regions of a document delimited by a caller-supplied opening and closing
//! tag are interpreted as shell scripts: each region is located, its script
//! is executed by the system shell, and the region is replaced by the
//! script's captured standard output, trimmed of ASCII whitespace.  A
//! `recur` flag decides whether that output is itself scanned for further
//! regions or spliced in as final text.

pub mod engine;
pub mod matching;
pub mod shell;
pub mod trim;

pub use engine::run_embedded_scripts;
pub use shell::ExecutionFailure;

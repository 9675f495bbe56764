//! The editor's command-line options.
use vstd::prelude::*;

verus! {

/// Options given on the command line.
#[derive(Debug, Clone, Copy, PartialEq, Eq, Structural)]
pub struct Args {
    /// Log at debug level.
    pub debug: bool,
}

} // verus!

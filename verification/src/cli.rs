//! The command surface of the non-interactive binary. The argument parser
//! itself lives outside the library; it hands over one of these values.
use vstd::prelude::*;

verus! {

#[derive(Clone, Copy, PartialEq, Eq, Structural, Debug)]
pub enum Command {
    /// Create and run a new server.
    Create,
    /// List servers.
    Ls,
}

#[derive(Clone, Copy, PartialEq, Eq, Structural, Debug)]
pub struct Cli {
    pub command: Command,
}

} // verus!

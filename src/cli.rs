use vstd::prelude::*;

verus! {

/// The command line: what to play.
#[derive(Debug, Clone, PartialEq, Eq)]
pub struct Args {
    pub subcommand: SubCommand,
}

#[derive(Debug, Clone, PartialEq, Eq)]
pub enum SubCommand {
    /// Play a file.
    Load { file: String },
    /// Play lines typed in, one after another.
    Repl,
}

} // verus!

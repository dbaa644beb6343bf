//! The command line, as plain data: the program reads it into these types.
use vstd::prelude::*;

verus! {

/// The command line: the configuration file and a subcommand.
#[derive(Debug)]
pub struct Cli {
    /// Path of the configuration file (`config.toml` by default).
    pub config: String,
    pub cmd: Cmd,
}

/// The subcommands.
#[derive(Debug)]
pub enum Cmd {
    /// Process the files of the input directory with the profiles of the
    /// profile directory.
    Run {
        profile_dir: Option<String>,
        input_dir: Option<String>,
        dry_run: bool,
    },
    /// Draft a profile from a structure template and a sample.
    Learn {
        structure: String,
        sample: String,
        out: String,
        name: Option<String>,
    },
}

} // verus!

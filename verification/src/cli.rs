//! The command line of the `guroku` program, as plain values. Parsing the
//! arguments is the program's.
use vstd::prelude::*;

verus! {

/// The parsed command line.
#[derive(Debug)]
pub struct Cli {
    /// Project directory (defaults to the current working directory).
    pub cwd: Option<String>,
    pub command: Option<Command>,
}

/// A subcommand.
#[derive(Debug)]
pub enum Command {
    /// Install all dependencies declared in `package.json`.
    Install {
        /// Fail if `guroku.lock` is out of date with `package.json`
        /// instead of refreshing it.
        frozen_lockfile: bool,
        /// Skip lifecycle scripts (`preinstall`, `postinstall`, ...).
        ignore_scripts: bool,
    },
    /// Add packages to `dependencies` and install them.
    Add { packages: Vec<String> },
    /// Remove packages from `package.json` and `node_modules`.
    Remove { packages: Vec<String> },
    /// Run a script of `package.json#scripts` (without a name, list them),
    /// with trailing arguments.
    Run { name: Option<String>, args: Vec<String> },
    /// Execute a binary from `node_modules/.bin/` or `PATH`.
    Exec { command: String, args: Vec<String> },
    /// List the workspace packages.
    Workspaces,
    /// Query the registry's advisory database about `guroku.lock`.
    Audit,
}

impl Cli {
    /// The command to run: a plain `install` when none is given.
    pub fn command_or_install(self) -> (c: Command)
        ensures
            match self.command {
                Some(c0) => c == c0,
                None => c matches Command::Install { frozen_lockfile, ignore_scripts }
                    && !frozen_lockfile && !ignore_scripts,
            },
    {
        match self.command {
            Some(c) => c,
            None => Command::Install { frozen_lockfile: false, ignore_scripts: false },
        }
    }
}

} // verus!

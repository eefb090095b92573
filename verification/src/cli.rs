use vstd::prelude::*;

verus! {

/// Logging verbosity levels, from quietest to noisiest.
#[derive(Debug, Clone, Copy, PartialEq, Eq, Structural)]
pub enum LevelFilter {
    Warn,
    Info,
    Debug,
    Trace,
}

/// The log level selected by a verbosity count: each repetition of the
/// verbosity flag raises the level by one step, saturating at trace.
pub open spec fn spec_level_filter(verbose: u8) -> LevelFilter {
    if verbose == 0 {
        LevelFilter::Warn
    } else if verbose == 1 {
        LevelFilter::Info
    } else if verbose == 2 {
        LevelFilter::Debug
    } else {
        LevelFilter::Trace
    }
}

/// Options shared by every subcommand.
#[derive(Debug, Clone)]
pub struct GlobalOptions {
    /// How many times the verbosity flag was given.
    pub verbose: u8,
}

impl GlobalOptions {
    pub fn new(verbose: u8) -> (r: Self)
        ensures
            r.verbose == verbose,
    {
        GlobalOptions { verbose }
    }

    pub fn get_log_level_filter(&self) -> (r: LevelFilter)
        ensures
            r == spec_level_filter(self.verbose),
    {
        match self.verbose {
            0 => LevelFilter::Warn,
            1 => LevelFilter::Info,
            2 => LevelFilter::Debug,
            _ => LevelFilter::Trace,
        }
    }
}

/// The subcommands of the tool. Their option payloads, and running them,
/// live with the command-line front end outside this library.
#[derive(Debug, Clone)]
pub enum Command {
    Minify,
    Process,
}

/// The parsed command line: the chosen subcommand and the global options.
#[derive(Debug, Clone)]
pub struct Darklua {
    pub global_options: GlobalOptions,
    pub command: Command,
}

impl Darklua {
    pub fn new(global_options: GlobalOptions, command: Command) -> (r: Self)
        ensures
            r.global_options == global_options,
            r.command == command,
    {
        Darklua { global_options, command }
    }

    pub fn get_log_level_filter(&self) -> (r: LevelFilter)
        ensures
            r == spec_level_filter(self.global_options.verbose),
    {
        self.global_options.get_log_level_filter()
    }
}

} // verus!

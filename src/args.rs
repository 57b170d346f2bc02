//! The options of a run, and which of them may be combined.
use vstd::prelude::*;

verus! {

/// The options of one run.
#[derive(Debug)]
pub struct Args {
    /// Files or directories to bury.
    pub targets: Vec<String>,
    /// The graveyard to use in place of the default one.
    pub graveyard: Option<String>,
    /// Delete the whole graveyard.
    pub decompose: bool,
    /// List what was buried under the current directory.
    pub seance: bool,
    /// Restore these entries, or the last one buried where none is named.
    pub unbury: Option<Vec<String>>,
    /// Describe each target and ask before burying it.
    pub inspect: bool,
    /// A subcommand in place of the options.
    pub command: Option<Commands>,
}

/// The subcommands.
#[derive(Debug)]
pub enum Commands {
    /// Write the completions for a shell.
    Completions { shell: String },
    /// Print the graveyard's path, or the part of it for the current directory.
    Graveyard { seance: bool },
}

impl Default for Args {
    fn default() -> (r: Args)
        ensures
            r.targets@.len() == 0,
            r.graveyard is None,
            !r.decompose,
            !r.seance,
            r.unbury is None,
            !r.inspect,
            r.command is None,
    {
        Args {
            targets: Vec::new(),
            graveyard: None,
            decompose: false,
            seance: false,
            unbury: None,
            inspect: false,
            command: None,
        }
    }
}

/// Which options a run left at their defaults.
struct IsDefault {
    graveyard: bool,
    decompose: bool,
    seance: bool,
    unbury: bool,
    inspect: bool,
    completions: bool,
}

impl IsDefault {
    fn new(cli: &Args) -> (r: IsDefault)
        ensures
            r.graveyard == cli.graveyard is None,
            r.decompose == !cli.decompose,
            r.seance == !cli.seance,
            r.unbury == cli.unbury is None,
            r.inspect == !cli.inspect,
            r.completions == cli.command is None,
    {
        let defaults = Args::default();
        IsDefault {
            graveyard: cli.graveyard.is_none(),
            decompose: cli.decompose == defaults.decompose,
            seance: cli.seance == defaults.seance,
            unbury: cli.unbury.is_none(),
            inspect: cli.inspect == defaults.inspect,
            completions: cli.command.is_none(),
        }
    }
}

/// Combinations of options that are refused.
#[derive(Clone, Copy, PartialEq, Eq, Structural, Debug)]
pub enum ArgsError {
    /// A subcommand came with options.
    CompletionsAlone,
    /// `--decompose` came with an option other than `--graveyard`.
    DecomposeAlone,
}

impl ArgsError {
    /// The message that explains the refusal.
    pub fn message(&self) -> (r: &'static str)
        ensures
            *self == ArgsError::CompletionsAlone ==> r@ == "--completions can only be used by itself"@,
            *self == ArgsError::DecomposeAlone ==> r@ == "-d,--decompose can only be used with --graveyard"@,
    {
        match self {
            ArgsError::CompletionsAlone => "--completions can only be used by itself",
            ArgsError::DecomposeAlone => "-d,--decompose can only be used with --graveyard",
        }
    }
}

/// Some option other than the subcommand is set.
pub open spec fn has_options(cli: &Args) -> bool {
    cli.graveyard is Some || cli.decompose || cli.seance || cli.unbury is Some || cli.inspect
}

/// A subcommand stands alone, and `--decompose` goes with `--graveyard` only.
pub fn validate_args(cli: &Args) -> (r: Result<(), ArgsError>)
    ensures
        r is Ok <==> !(cli.command is Some && has_options(cli))
            && !(cli.decompose && (cli.seance || cli.unbury is Some || cli.inspect)),
        r == Err::<(), ArgsError>(ArgsError::CompletionsAlone) <==> cli.command is Some && has_options(cli),
        r == Err::<(), ArgsError>(ArgsError::DecomposeAlone) <==> !(cli.command is Some && has_options(cli))
            && cli.decompose && (cli.seance || cli.unbury is Some || cli.inspect),
{
    let defaults = IsDefault::new(cli);
    if !defaults.completions
        && !(defaults.graveyard && defaults.decompose && defaults.seance && defaults.unbury
            && defaults.inspect)
    {
        return Err(ArgsError::CompletionsAlone);
    }
    if !defaults.decompose && !(defaults.seance && defaults.unbury && defaults.inspect) {
        return Err(ArgsError::DecomposeAlone);
    }
    Ok(())
}

} // verus!

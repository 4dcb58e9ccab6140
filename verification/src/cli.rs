//! The command line: which command to run, with which configuration file,
//! and the log level named in the configuration.
use crate::config::{config_refusal, Config};
use crate::rules::{built_from, config_accepted, refused_for, rules_from_configs, Rule};
use crate::text::{lowercase_text, text_eq, to_lowercase};
use vstd::prelude::*;

verus! {

/// The command and the configuration file to run it with.
#[derive(Debug, Clone)]
pub struct CliArgs {
    pub command: String,
    pub config_path: String,
}

/// What the command line asks for.
#[derive(Debug)]
pub enum CliOutcome {
    /// Run `start` or `check` with a configuration file.
    Run(CliArgs),
    /// `-h` or `--help`: print the usage and succeed.
    Help,
    /// No command: print the usage and fail.
    MissingCommand,
    /// A command other than `start` or `check`.
    UnknownCommand(String),
    /// `-c` or `--config` as the last argument.
    MissingValue(String),
    /// An option other than `-c` or `--config`.
    UnknownOption(String),
}

/// An outcome as the contracts speak of it.
pub enum OutcomeView {
    Run(Seq<char>, Seq<char>),
    Help,
    MissingCommand,
    UnknownCommand(Seq<char>),
    MissingValue(Seq<char>),
    UnknownOption(Seq<char>),
}

impl CliOutcome {
    pub open spec fn view(&self) -> OutcomeView {
        match self {
            CliOutcome::Run(a) => OutcomeView::Run(a.command@, a.config_path@),
            CliOutcome::Help => OutcomeView::Help,
            CliOutcome::MissingCommand => OutcomeView::MissingCommand,
            CliOutcome::UnknownCommand(c) => OutcomeView::UnknownCommand(c@),
            CliOutcome::MissingValue(o) => OutcomeView::MissingValue(o@),
            CliOutcome::UnknownOption(o) => OutcomeView::UnknownOption(o@),
        }
    }
}

/// The options from position `i` on, for `command`, with the configuration
/// path found so far: each `-c` or `--config` takes the next argument as the
/// path (the last one wins); anything else is refused.
pub open spec fn options_outcome(args: Seq<Seq<char>>, i: nat, command: Seq<char>, path: Seq<char>) -> OutcomeView
    decreases args.len() - i,
{
    if i >= args.len() {
        OutcomeView::Run(command, path)
    } else if args[i as int] == "-c"@ || args[i as int] == "--config"@ {
        if i + 1 >= args.len() {
            OutcomeView::MissingValue(args[i as int])
        } else {
            options_outcome(args, (i + 2) as nat, command, args[(i + 1) as int])
        }
    } else {
        OutcomeView::UnknownOption(args[i as int])
    }
}

/// What the arguments (the program name first) ask for.
pub open spec fn cli_outcome(args: Seq<Seq<char>>) -> OutcomeView {
    if args.len() < 2 {
        OutcomeView::MissingCommand
    } else if args[1] == "-h"@ || args[1] == "--help"@ {
        OutcomeView::Help
    } else if args[1] != "start"@ && args[1] != "check"@ {
        OutcomeView::UnknownCommand(args[1])
    } else {
        options_outcome(args, 2, args[1], "config.toml"@)
    }
}

/// Reads the command line (the program name first): `start` or `check`,
/// then any number of `-c <file>` / `--config <file>`; the configuration
/// file defaults to `config.toml`.
pub fn parse_args(args: &Vec<String>) -> (r: CliOutcome)
    ensures
        r.view() == cli_outcome(args@.map_values(|a: String| a@)),
{
    let ghost av = args@.map_values(|a: String| a@);
    if args.len() < 2 {
        return CliOutcome::MissingCommand;
    }
    assert(av[1] == args@[1]@);
    let first = args[1].as_str();
    if text_eq(first, "-h") || text_eq(first, "--help") {
        return CliOutcome::Help;
    }
    if !text_eq(first, "start") && !text_eq(first, "check") {
        return CliOutcome::UnknownCommand(args[1].clone());
    }
    let command = args[1].clone();
    let mut config_path = "config.toml".to_owned();
    let mut i: usize = 2;
    while i < args.len()
        invariant
            av == args@.map_values(|a: String| a@),
            2 <= i,
            cli_outcome(av) == options_outcome(av, i as nat, command@, config_path@),
        decreases args@.len() - i,
    {
        assert(av[i as int] == args@[i as int]@);
        let a = args[i].as_str();
        if text_eq(a, "-c") || text_eq(a, "--config") {
            if i + 1 >= args.len() {
                return CliOutcome::MissingValue(args[i].clone());
            }
            assert(av[i + 1] == args@[i + 1]@);
            config_path = args[i + 1].clone();
            i = i + 2;
        } else {
            return CliOutcome::UnknownOption(args[i].clone());
        }
    }
    CliOutcome::Run(CliArgs { command, config_path })
}

/// A log level.
#[derive(Debug, Clone, Copy, PartialEq, Eq, Structural)]
pub enum LogLevel {
    Trace,
    Debug,
    Info,
    Warn,
    Error,
}

/// The level a name stands for, compared in lowercase.
pub open spec fn log_level_named(name: Seq<char>) -> Option<LogLevel> {
    let l = lowercase_text(name);
    if l == "trace"@ {
        Some(LogLevel::Trace)
    } else if l == "debug"@ {
        Some(LogLevel::Debug)
    } else if l == "info"@ {
        Some(LogLevel::Info)
    } else if l == "warn"@ {
        Some(LogLevel::Warn)
    } else if l == "error"@ {
        Some(LogLevel::Error)
    } else {
        None
    }
}

/// The log level named in the configuration, if it names one (in any case).
pub fn parse_log_level(name: &str) -> (r: Option<LogLevel>)
    ensures
        r == log_level_named(name@),
{
    let l = to_lowercase(name);
    let s = l.as_str();
    if text_eq(s, "trace") {
        Some(LogLevel::Trace)
    } else if text_eq(s, "debug") {
        Some(LogLevel::Debug)
    } else if text_eq(s, "info") {
        Some(LogLevel::Info)
    } else if text_eq(s, "warn") {
        Some(LogLevel::Warn)
    } else if text_eq(s, "error") {
        Some(LogLevel::Error)
    } else {
        None
    }
}

/// Why a configuration does not pass `check`.
#[derive(Debug)]
pub enum CheckError {
    /// The configuration is refused.
    Config(crate::config::Error),
    /// A rule of the configuration cannot be built.
    Rules(crate::rules::Error),
}

/// The `check` command's verdict on a configuration: its refusal when it is
/// refused; else the refusal of its first rule that cannot be built; else
/// its rules, in order.
pub fn check_config(config: &Config) -> (r: Result<Vec<Rule>, CheckError>)
    ensures
        r matches Err(CheckError::Config(e)) <==> config_refusal(*config) is Some,
        r matches Err(CheckError::Config(e)) ==> Some(e.view()) == config_refusal(*config),
        r matches Err(CheckError::Rules(e)) ==> config_refusal(*config) is None && exists|i: int|
            0 <= i < config.rules@.len() && !config_accepted(#[trigger] config.rules@[i])
                && refused_for(e, config.rules@[i]) && forall|j: int|
                0 <= j < i ==> config_accepted(#[trigger] config.rules@[j]),
        r is Ok <==> (config_refusal(*config) is None && forall|i: int|
            0 <= i < config.rules@.len() ==> config_accepted(#[trigger] config.rules@[i])),
        r matches Ok(rules) ==> rules@.len() == config.rules@.len() && forall|i: int|
            0 <= i < config.rules@.len() ==> built_from(#[trigger] rules@[i].view(), config.rules@[i]),
{
    match config.validate() {
        Err(e) => Err(CheckError::Config(e)),
        Ok(()) => match rules_from_configs(&config.rules) {
            Ok(rules) => Ok(rules),
            Err(e) => Err(CheckError::Rules(e)),
        },
    }
}

} // verus!

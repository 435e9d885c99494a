use vstd::prelude::*;
use crate::config::{parse_time_string, window_seconds};
use crate::text::{chars_of, parse_decimal, parse_decimal_range};
use crate::track::text_eq;

verus! {

/// Port of the local activity store.
pub const DEFAULT_PORT: u16 = 5600;

/// Port of the local activity store's testing instance.
pub const TESTING_PORT: u16 = 5699;

/// How the engine is to run.
#[derive(Debug, Clone, Copy, PartialEq, Eq)]
pub struct RunOptions {
    pub port: u16,
    /// Backfill window in seconds, when a backfill is asked for.
    pub sync_window: Option<u64>,
}

/// What the command line asks for.
#[derive(Debug, Clone, PartialEq, Eq)]
pub enum Command {
    Run(RunOptions),
    /// Print the usage text.
    Help,
    /// An argument that is not understood; the program reports it and stops.
    UnknownArgument(String),
}

#[derive(Debug, Clone, Copy, PartialEq, Eq)]
pub enum ArgError {
    PortMissing,
    PortInvalid,
    SyncMissing,
    SyncInvalid,
}

pub enum ArgsOutcome {
    Run(int, Option<int>),
    Help,
    Unknown(Seq<char>),
    Error(ArgError),
}

/// A port number as the standard library reads a `u16`: an optional `+`,
/// then decimal digits.
pub open spec fn port_value(s: Seq<char>) -> Option<int> {
    if s.len() > 0 && s[0] == '+' {
        parse_decimal(s.drop_first(), u16::MAX as int)
    } else {
        parse_decimal(s, u16::MAX as int)
    }
}

/// The meaning of the arguments from position `idx` on, with the port and
/// backfill window chosen so far.
pub open spec fn args_outcome(args: Seq<Seq<char>>, idx: int, port: int, sync: Option<int>) -> ArgsOutcome
    decreases args.len() - idx,
{
    if idx < 0 || idx >= args.len() {
        ArgsOutcome::Run(port, sync)
    } else {
        let a = args[idx];
        if a == "--port"@ {
            if idx + 1 < args.len() {
                match port_value(args[idx + 1]) {
                    Some(p) => args_outcome(args, idx + 2, p, sync),
                    None => ArgsOutcome::Error(ArgError::PortInvalid),
                }
            } else {
                ArgsOutcome::Error(ArgError::PortMissing)
            }
        } else if a == "--testing"@ {
            args_outcome(args, idx + 1, TESTING_PORT as int, sync)
        } else if a == "--sync"@ {
            if idx + 1 < args.len() {
                match window_seconds(args[idx + 1]) {
                    Some(w) => args_outcome(args, idx + 2, port, Some(w)),
                    None => ArgsOutcome::Error(ArgError::SyncInvalid),
                }
            } else {
                ArgsOutcome::Error(ArgError::SyncMissing)
            }
        } else if a == "--help"@ {
            ArgsOutcome::Help
        } else {
            ArgsOutcome::Unknown(a)
        }
    }
}

pub open spec fn args_view(args: Seq<String>) -> Seq<Seq<char>> {
    args.map_values(|s: String| s@)
}

pub open spec fn describes(r: Result<Command, ArgError>, o: ArgsOutcome) -> bool {
    match o {
        ArgsOutcome::Run(port, sync) => r matches Ok(Command::Run(opts)) && opts.port == port && match (
            opts.sync_window,
            sync,
        ) {
            (Some(w), Some(s)) => w == s,
            (None, None) => true,
            _ => false,
        },
        ArgsOutcome::Help => r matches Ok(Command::Help),
        ArgsOutcome::Unknown(a) => r matches Ok(Command::UnknownArgument(s)) && s@ == a,
        ArgsOutcome::Error(e) => r == Err::<Command, ArgError>(e),
    }
}

/// Reads a port number.
pub fn parse_port(s: &str) -> (r: Option<u16>)
    ensures
        r matches Some(p) ==> port_value(s@) == Some(p as int),
        r is None ==> port_value(s@) is None,
{
    let cs = chars_of(s);
    let lo: usize = if cs.len() > 0 && cs[0] == '+' {
        1
    } else {
        0
    };
    let r = parse_decimal_range(&cs, lo, cs.len(), u16::MAX as u64);
    if lo == 1 {
        assert(cs@.subrange(1, cs@.len() as int) =~= s@.drop_first());
    } else {
        assert(cs@.subrange(0, cs@.len() as int) =~= s@);
    }
    match r {
        Some(v) => Some(v as u16),
        None => None,
    }
}

/// Reads the command line; `args[0]` is the program's name.
pub fn parse_args(args: &Vec<String>) -> (r: Result<Command, ArgError>)
    ensures
        describes(r, args_outcome(args_view(args@), 1, DEFAULT_PORT as int, None)),
{
    let ghost av = args_view(args@);
    let mut idx: usize = 1;
    let mut port: u16 = DEFAULT_PORT;
    let mut sync: Option<u64> = None;
    while idx < args.len()
        invariant
            av == args_view(args@),
            av.len() == args.len(),
            1 <= idx,
            args_outcome(av, idx as int, port as int, match sync {
                Some(w) => Some(w as int),
                None => None,
            }) == args_outcome(av, 1, DEFAULT_PORT as int, None),
        decreases args.len() - idx,
    {
        let a = args[idx].as_str();
        assert(av[idx as int] == a@);
        if text_eq(a, "--port") {
            if idx + 1 < args.len() {
                assert(av[idx + 1] == args@[idx + 1]@);
                match parse_port(args[idx + 1].as_str()) {
                    Some(p) => {
                        port = p;
                        idx = idx + 2;
                    },
                    None => return Err(ArgError::PortInvalid),
                }
            } else {
                return Err(ArgError::PortMissing);
            }
        } else if text_eq(a, "--testing") {
            port = TESTING_PORT;
            idx = idx + 1;
        } else if text_eq(a, "--sync") {
            if idx + 1 < args.len() {
                assert(av[idx + 1] == args@[idx + 1]@);
                match parse_time_string(args[idx + 1].as_str()) {
                    Some(w) => {
                        sync = Some(w);
                        idx = idx + 2;
                    },
                    None => return Err(ArgError::SyncInvalid),
                }
            } else {
                return Err(ArgError::SyncMissing);
            }
        } else if text_eq(a, "--help") {
            return Ok(Command::Help);
        } else {
            return Ok(Command::UnknownArgument(args[idx].clone()));
        }
    }
    Ok(Command::Run(RunOptions { port, sync_window: sync }))
}

} // verus!

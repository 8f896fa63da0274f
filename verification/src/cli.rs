//! The command-line grammar: which verb was asked for and with which
//! positional arguments, or which usage error to die with.

use vstd::prelude::*;
use vstd::string::StringSliceAdditionalSpecFns;
use crate::bytes::{seq_views, eq_lit};

verus! {

/// One parsed invocation of the tool.
pub enum Invocation {
    /// Print the ranked list for the picker to reload.
    LsSwitchFrom { current: Vec<u8> },
    /// Pick a session interactively and switch to it.
    SwitchFrom { current: Vec<u8> },
    /// Pick a session interactively and move the current window into it.
    MoveWindow { current: Vec<u8>, window: Vec<u8> },
}

/// The mathematical shape of an invocation.
pub enum InvocationModel {
    LsSwitchFrom { current: Seq<u8> },
    SwitchFrom { current: Seq<u8> },
    MoveWindow { current: Seq<u8>, window: Seq<u8> },
}

impl View for Invocation {
    type V = InvocationModel;

    open spec fn view(&self) -> InvocationModel {
        match self {
            Invocation::LsSwitchFrom { current } => InvocationModel::LsSwitchFrom {
                current: current@,
            },
            Invocation::SwitchFrom { current } => InvocationModel::SwitchFrom { current: current@ },
            Invocation::MoveWindow { current, window } => InvocationModel::MoveWindow {
                current: current@,
                window: window@,
            },
        }
    }
}

/// Why an invocation was refused.
pub enum CliError {
    /// No verb, or one the tool does not know: show the usage line.
    Usage,
    /// The verb wants the current session's name and none was given.
    MissingSession,
    /// Moving a window wants the current window's id and none was given.
    MissingWindow,
}

/// What a given argument list (the verb first, the program's own name
/// already dropped) parses to. Arguments past the ones a verb wants are
/// ignored.
pub open spec fn parse_cli_spec(args: Seq<Seq<u8>>) -> Result<InvocationModel, CliError> {
    if args.len() == 0 {
        Err(CliError::Usage)
    } else if args[0] == "ls-switch-from".spec_bytes() {
        if args.len() < 2 {
            Err(CliError::MissingSession)
        } else {
            Ok(InvocationModel::LsSwitchFrom { current: args[1] })
        }
    } else if args[0] == "switch-from".spec_bytes() {
        if args.len() < 2 {
            Err(CliError::MissingSession)
        } else {
            Ok(InvocationModel::SwitchFrom { current: args[1] })
        }
    } else if args[0] == "move-window".spec_bytes() {
        if args.len() < 2 {
            Err(CliError::MissingSession)
        } else if args.len() < 3 {
            Err(CliError::MissingWindow)
        } else {
            Ok(InvocationModel::MoveWindow { current: args[1], window: args[2] })
        }
    } else {
        Err(CliError::Usage)
    }
}

/// Parses the argument list into an invocation or the error to die with.
pub fn parse_invocation(args: &Vec<Vec<u8>>) -> (r: Result<Invocation, CliError>)
    ensures
        match r {
            Ok(inv) => parse_cli_spec(seq_views(args@)) == Ok::<InvocationModel, CliError>(inv@),
            Err(e) => parse_cli_spec(seq_views(args@)) == Err::<InvocationModel, CliError>(e),
        },
{
    if args.len() == 0 {
        return Err(CliError::Usage);
    }
    let verb = &args[0];
    assert(seq_views(args@)[0] == verb@);
    if eq_lit(verb, "ls-switch-from") {
        if args.len() < 2 {
            Err(CliError::MissingSession)
        } else {
            let current = crate::bytes::copy_range(&args[1], 0, args[1].len());
            assert(current@ =~= seq_views(args@)[1]);
            Ok(Invocation::LsSwitchFrom { current })
        }
    } else if eq_lit(verb, "switch-from") {
        if args.len() < 2 {
            Err(CliError::MissingSession)
        } else {
            let current = crate::bytes::copy_range(&args[1], 0, args[1].len());
            assert(current@ =~= seq_views(args@)[1]);
            Ok(Invocation::SwitchFrom { current })
        }
    } else if eq_lit(verb, "move-window") {
        if args.len() < 2 {
            Err(CliError::MissingSession)
        } else if args.len() < 3 {
            Err(CliError::MissingWindow)
        } else {
            let current = crate::bytes::copy_range(&args[1], 0, args[1].len());
            let window = crate::bytes::copy_range(&args[2], 0, args[2].len());
            assert(current@ =~= seq_views(args@)[1]);
            assert(window@ =~= seq_views(args@)[2]);
            Ok(Invocation::MoveWindow { current, window })
        }
    } else {
        Err(CliError::Usage)
    }
}

} // verus!

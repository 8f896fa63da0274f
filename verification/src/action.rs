//! The action executor: the multiplexer command batch a resolved choice
//! calls for, as one argument list chained with the multiplexer's own
//! command separator.

use vstd::prelude::*;
use vstd::string::StringSliceAdditionalSpecFns;
use crate::bytes::{seq_views, append_bytes, append_lit, lit_vec};
use crate::picker::{Choice, ChoiceModel};

verus! {

/// The operation one invocation performs, fixed by the command-line verb.
pub enum Operation {
    /// Switch the client to the picked session.
    SwitchFrom,
    /// Move the current window into the picked session.
    MoveWindow,
}

/// A target name followed by a colon: the window-addressing form of a
/// session name.
pub open spec fn colon_suffixed(name: Seq<u8>) -> Seq<u8> {
    name + ":".spec_bytes()
}

/// The batch for switching to a session: switch, then refresh the display;
/// a new target is created detached first.
pub open spec fn switch_batch_spec(c: ChoiceModel) -> Seq<Seq<u8>> {
    match c {
        ChoiceModel::FromSelection(t) => seq![
            "switch-client".spec_bytes(),
            "-t".spec_bytes(),
            t,
            ";".spec_bytes(),
            "refresh-client".spec_bytes(),
            "-S".spec_bytes(),
        ],
        ChoiceModel::New(t) => seq![
            "new-session".spec_bytes(),
            "-d".spec_bytes(),
            "-s".spec_bytes(),
            t,
            ";".spec_bytes(),
            "switch-client".spec_bytes(),
            "-t".spec_bytes(),
            t,
            ";".spec_bytes(),
            "refresh-client".spec_bytes(),
            "-S".spec_bytes(),
        ],
    }
}

/// The batch for moving the current window: move it into the target,
/// switch there, and reselect the moved window. A new target is created
/// detached first, and the one placeholder window a fresh session starts
/// with is killed after the move, leaving exactly the moved window.
pub open spec fn move_window_batch_spec(c: ChoiceModel, window: Seq<u8>) -> Seq<Seq<u8>> {
    match c {
        ChoiceModel::FromSelection(t) => seq![
            "move-window".spec_bytes(),
            "-t".spec_bytes(),
            colon_suffixed(t),
            ";".spec_bytes(),
            "switch-client".spec_bytes(),
            "-t".spec_bytes(),
            t,
            ";".spec_bytes(),
            "select-window".spec_bytes(),
            "-t".spec_bytes(),
            window,
        ],
        ChoiceModel::New(t) => seq![
            "new-session".spec_bytes(),
            "-d".spec_bytes(),
            "-s".spec_bytes(),
            t,
            ";".spec_bytes(),
            "move-window".spec_bytes(),
            "-s".spec_bytes(),
            window,
            "-t".spec_bytes(),
            colon_suffixed(t),
            ";".spec_bytes(),
            "switch-client".spec_bytes(),
            "-t".spec_bytes(),
            t,
            ";".spec_bytes(),
            "kill-window".spec_bytes(),
            "-t".spec_bytes(),
            t + ":!".spec_bytes(),
        ],
    }
}

/// Copies a byte vector.
fn dup(v: &Vec<u8>) -> (r: Vec<u8>)
    ensures
        r@ == v@,
{
    let mut r: Vec<u8> = Vec::new();
    append_bytes(&mut r, v);
    assert(r@ =~= v@);
    r
}

/// The target with the window-addressing colon appended.
fn colon_target(t: &Vec<u8>) -> (r: Vec<u8>)
    ensures
        r@ == colon_suffixed(t@),
{
    let mut r = dup(t);
    append_lit(&mut r, ":");
    r
}

/// The command batch that switches the client to the chosen session.
pub fn switch_batch(choice: &Choice) -> (args: Vec<Vec<u8>>)
    ensures
        seq_views(args@) == switch_batch_spec(choice@),
{
    let mut args: Vec<Vec<u8>> = Vec::new();
    match choice {
        Choice::FromSelection(t) => {
            args.push(lit_vec("switch-client"));
            args.push(lit_vec("-t"));
            args.push(dup(t));
            args.push(lit_vec(";"));
            args.push(lit_vec("refresh-client"));
            args.push(lit_vec("-S"));
        },
        Choice::New(t) => {
            args.push(lit_vec("new-session"));
            args.push(lit_vec("-d"));
            args.push(lit_vec("-s"));
            args.push(dup(t));
            args.push(lit_vec(";"));
            args.push(lit_vec("switch-client"));
            args.push(lit_vec("-t"));
            args.push(dup(t));
            args.push(lit_vec(";"));
            args.push(lit_vec("refresh-client"));
            args.push(lit_vec("-S"));
        },
    }
    assert(seq_views(args@) =~= switch_batch_spec(choice@));
    args
}

/// The command batch that moves the current window into the chosen
/// session, `window` being the window to reselect or move.
pub fn move_window_batch(choice: &Choice, window: &Vec<u8>) -> (args: Vec<Vec<u8>>)
    ensures
        seq_views(args@) == move_window_batch_spec(choice@, window@),
{
    let mut args: Vec<Vec<u8>> = Vec::new();
    match choice {
        Choice::FromSelection(t) => {
            args.push(lit_vec("move-window"));
            args.push(lit_vec("-t"));
            args.push(colon_target(t));
            args.push(lit_vec(";"));
            args.push(lit_vec("switch-client"));
            args.push(lit_vec("-t"));
            args.push(dup(t));
            args.push(lit_vec(";"));
            args.push(lit_vec("select-window"));
            args.push(lit_vec("-t"));
            args.push(dup(window));
        },
        Choice::New(t) => {
            args.push(lit_vec("new-session"));
            args.push(lit_vec("-d"));
            args.push(lit_vec("-s"));
            args.push(dup(t));
            args.push(lit_vec(";"));
            args.push(lit_vec("move-window"));
            args.push(lit_vec("-s"));
            args.push(dup(window));
            args.push(lit_vec("-t"));
            args.push(colon_target(t));
            args.push(lit_vec(";"));
            args.push(lit_vec("switch-client"));
            args.push(lit_vec("-t"));
            args.push(dup(t));
            args.push(lit_vec(";"));
            args.push(lit_vec("kill-window"));
            args.push(lit_vec("-t"));
            let mut bang = dup(t);
            append_lit(&mut bang, ":!");
            args.push(bang);
        },
    }
    assert(seq_views(args@) =~= move_window_batch_spec(choice@, window@));
    args
}

/// The prompt each operation shows in the selector.
pub open spec fn prompt_spec(op: Operation) -> Seq<u8> {
    match op {
        Operation::SwitchFrom => "switch to session> ".spec_bytes(),
        Operation::MoveWindow => "move window to> ".spec_bytes(),
    }
}

/// The selector prompt for an operation.
pub fn prompt_for(op: &Operation) -> (r: Vec<u8>)
    ensures
        r@ == prompt_spec(*op),
{
    match op {
        Operation::SwitchFrom => lit_vec("switch to session> "),
        Operation::MoveWindow => lit_vec("move window to> "),
    }
}

} // verus!

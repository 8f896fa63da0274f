//! The picker protocol: configuring the selector subprocess and reading
//! its output into a choice.
//!
//! The selector is spawned so that it prints the typed query as its first
//! output line whatever happens, and a second line only for a highlighted
//! selection. Resolution is total over every output with at least one
//! line: a successful exit with a second line picks that line; otherwise
//! an empty query cancels and a non-empty one asks for a new session of
//! that name. Output without even the query line breaks the protocol.

use vstd::prelude::*;
use vstd::string::StringSliceAdditionalSpecFns;
use crate::bytes::{seq_views, append_bytes, append_lit, lit_vec};
use crate::lines::{lines_spec, split_lines};

verus! {

/// What the user settled on: an existing session, or a new session named
/// by the typed query.
pub enum Choice {
    FromSelection(Vec<u8>),
    New(Vec<u8>),
}

/// The mathematical shape of a choice.
pub enum ChoiceModel {
    FromSelection(Seq<u8>),
    New(Seq<u8>),
}

impl View for Choice {
    type V = ChoiceModel;

    open spec fn view(&self) -> ChoiceModel {
        match self {
            Choice::FromSelection(n) => ChoiceModel::FromSelection(n@),
            Choice::New(n) => ChoiceModel::New(n@),
        }
    }
}

/// The selector broke its contract: its output lacks even the query line.
pub enum ProtocolError {
    MissingQueryLine,
}

/// The selector exited successfully with a highlighted entry on a second
/// line: that entry is the choice.
pub open spec fn selection_case(out: Seq<u8>, exit_success: bool) -> bool {
    exit_success && lines_spec(out).len() >= 2
}

/// No selection and an empty query: the user cancelled.
pub open spec fn cancel_case(out: Seq<u8>, exit_success: bool) -> bool {
    &&& !selection_case(out, exit_success)
    &&& lines_spec(out).len() >= 1
    &&& lines_spec(out)[0].len() == 0
}

/// No selection and a non-empty query: the query names a new session.
pub open spec fn new_case(out: Seq<u8>, exit_success: bool) -> bool {
    &&& !selection_case(out, exit_success)
    &&& lines_spec(out).len() >= 1
    &&& lines_spec(out)[0].len() > 0
}

/// Reads the selector's collected output into a choice, `None` for a
/// cancellation, or the protocol error where the mandatory query line is
/// missing.
pub fn resolve_selector_output(out: &Vec<u8>, exit_success: bool) -> (r: Result<
    Option<Choice>,
    ProtocolError,
>)
    ensures
        match r {
            Ok(Some(Choice::FromSelection(n))) => selection_case(out@, exit_success) && n@
                == lines_spec(out@)[1],
            Ok(Some(Choice::New(q))) => new_case(out@, exit_success) && q@ == lines_spec(out@)[0],
            Ok(None) => cancel_case(out@, exit_success),
            Err(ProtocolError::MissingQueryLine) => lines_spec(out@).len() == 0,
        },
{
    let mut ls = split_lines(out);
    if ls.len() == 0 {
        return Err(ProtocolError::MissingQueryLine);
    }
    if exit_success && ls.len() >= 2 {
        let n = ls.remove(1);
        assert(n@ == lines_spec(out@)[1]);
        Ok(Some(Choice::FromSelection(n)))
    } else {
        let q = ls.remove(0);
        assert(q@ == lines_spec(out@)[0]);
        if q.len() == 0 {
            Ok(None)
        } else {
            Ok(Some(Choice::New(q)))
        }
    }
}

/// Resolution is total and unambiguous: every selector output with at
/// least its query line falls in exactly one of the three cases.
pub proof fn lemma_resolution_total(out: Seq<u8>, exit_success: bool)
    requires
        lines_spec(out).len() >= 1,
    ensures
        selection_case(out, exit_success) || cancel_case(out, exit_success) || new_case(
            out,
            exit_success,
        ),
        !(selection_case(out, exit_success) && cancel_case(out, exit_success)),
        !(selection_case(out, exit_success) && new_case(out, exit_success)),
        !(cancel_case(out, exit_success) && new_case(out, exit_success)),
{
}

/// Cancellation happens exactly when the query line is empty and no
/// second line is present. The selector prints a second line only on a
/// successful exit, which the premise records.
pub proof fn lemma_cancel_iff(out: Seq<u8>, exit_success: bool)
    requires
        lines_spec(out).len() >= 2 ==> exit_success,
    ensures
        cancel_case(out, exit_success) <==> (lines_spec(out).len() == 1 && lines_spec(out)[0].len()
            == 0),
{
}

/// The in-selector binding that kills the highlighted session and reloads
/// the list by re-running this tool's listing subcommand.
pub open spec fn kill_reload_bind(exe: Seq<u8>, current: Seq<u8>) -> Seq<u8> {
    "--bind=ctrl-k:execute(tmux kill-session -t {1})+reload(".spec_bytes() + exe
        + " ls-switch-from ".spec_bytes() + current + ")".spec_bytes()
}

/// The selector's full argument list: single-select, query echoed as the
/// first output line, the explicit use-query confirmation, the
/// kill-and-reload binding, and the prompt.
pub open spec fn selector_args_spec(exe: Seq<u8>, current: Seq<u8>, prompt: Seq<u8>) -> Seq<
    Seq<u8>,
> {
    seq![
        "--no-multi".spec_bytes(),
        "--print-query".spec_bytes(),
        "--bind=alt-enter:print-query".spec_bytes(),
        kill_reload_bind(exe, current),
        "--prompt".spec_bytes(),
        prompt,
    ]
}

/// Builds the selector's argument list, `exe` being the path under which
/// this tool's listing subcommand can be re-run and `current` the current
/// session's name.
pub fn selector_args(exe: &Vec<u8>, current: &Vec<u8>, prompt: &Vec<u8>) -> (args: Vec<Vec<u8>>)
    ensures
        seq_views(args@) == selector_args_spec(exe@, current@, prompt@),
{
    let mut bind: Vec<u8> = lit_vec("--bind=ctrl-k:execute(tmux kill-session -t {1})+reload(");
    append_bytes(&mut bind, exe);
    append_lit(&mut bind, " ls-switch-from ");
    append_bytes(&mut bind, current);
    append_lit(&mut bind, ")");
    let mut args: Vec<Vec<u8>> = Vec::new();
    args.push(lit_vec("--no-multi"));
    args.push(lit_vec("--print-query"));
    args.push(lit_vec("--bind=alt-enter:print-query"));
    args.push(bind);
    args.push(lit_vec("--prompt"));
    let mut p: Vec<u8> = Vec::new();
    append_bytes(&mut p, prompt);
    args.push(p);
    assert(seq_views(args@) =~= selector_args_spec(exe@, current@, prompt@));
    args
}

} // verus!

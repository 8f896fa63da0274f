use rs_tmux_fzf::picker::{resolve_selector_output, selector_args, Choice, ProtocolError};
use rs_tmux_fzf::lines::{render_list, split_lines};
use rs_tmux_fzf::session::ranked_session_list;

fn resolve(out: &[u8], success: bool) -> Result<Option<Choice>, ProtocolError> {
    resolve_selector_output(&out.to_vec(), success)
}

#[test]
fn selection_on_success_with_second_line() {
    match resolve(b"wo\nwork\n", true) {
        Ok(Some(Choice::FromSelection(n))) => assert_eq!(n, b"work".to_vec()),
        _ => panic!("expected a selection"),
    }
}

#[test]
fn no_match_query_becomes_new_session() {
    match resolve(b"foo\n", false) {
        Ok(Some(Choice::New(q))) => assert_eq!(q, b"foo".to_vec()),
        _ => panic!("expected a new-session choice"),
    }
}

#[test]
fn successful_exit_without_second_line_still_uses_query() {
    match resolve(b"foo\n", true) {
        Ok(Some(Choice::New(q))) => assert_eq!(q, b"foo".to_vec()),
        _ => panic!("expected a new-session choice"),
    }
}

#[test]
fn empty_query_without_selection_cancels() {
    match resolve(b"\n", false) {
        Ok(None) => {},
        _ => panic!("expected a cancellation"),
    }
}

#[test]
fn failed_exit_ignores_second_line() {
    match resolve(b"wo\nwork\n", false) {
        Ok(Some(Choice::New(q))) => assert_eq!(q, b"wo".to_vec()),
        _ => panic!("expected the query to win on a failed exit"),
    }
}

#[test]
fn output_without_any_line_breaks_the_protocol() {
    match resolve(b"", true) {
        Err(ProtocolError::MissingQueryLine) => {},
        _ => panic!("expected the protocol error"),
    }
}

#[test]
fn selector_argument_list_is_exact() {
    let args = selector_args(
        &b"/usr/local/bin/tool".to_vec(),
        &b"main".to_vec(),
        &b"switch to session> ".to_vec(),
    );
    let expected: Vec<Vec<u8>> = vec![
        b"--no-multi".to_vec(),
        b"--print-query".to_vec(),
        b"--bind=alt-enter:print-query".to_vec(),
        b"--bind=ctrl-k:execute(tmux kill-session -t {1})+reload(/usr/local/bin/tool ls-switch-from main)"
            .to_vec(),
        b"--prompt".to_vec(),
        b"switch to session> ".to_vec(),
    ];
    assert_eq!(args, expected);
}

#[test]
fn reload_output_is_one_name_per_line() {
    let listing = b"0 0 work\n1 50 scratch\n1 10 build\n";
    let ranked = ranked_session_list(&listing.to_vec(), &b"main".to_vec());
    let out = render_list(&ranked);
    assert_eq!(out, b"scratch\nbuild\nwork\n".to_vec());
}

#[test]
fn reload_output_reads_back_as_the_same_list() {
    let listing = b"0 3 a\n1 50 b\n1 50 c\n0 9 d\n1 0 e\n";
    let ranked = ranked_session_list(&listing.to_vec(), &b"b".to_vec());
    let again = split_lines(&render_list(&ranked));
    assert_eq!(again, ranked);
}

#[test]
fn split_lines_handles_terminators() {
    assert_eq!(split_lines(&b"".to_vec()), Vec::<Vec<u8>>::new());
    assert_eq!(split_lines(&b"\n".to_vec()), vec![b"".to_vec()]);
    assert_eq!(split_lines(&b"a\r\nb\nc".to_vec()), vec![
        b"a".to_vec(),
        b"b".to_vec(),
        b"c".to_vec(),
    ]);
    assert_eq!(split_lines(&b"a\r".to_vec()), vec![b"a\r".to_vec()]);
}

use rs_tmux_fzf::action::{move_window_batch, prompt_for, switch_batch, Operation};
use rs_tmux_fzf::cli::{parse_invocation, CliError, Invocation};
use rs_tmux_fzf::digits::parse_u64;
use rs_tmux_fzf::picker::Choice;

fn lits(words: &[&str]) -> Vec<Vec<u8>> {
    words.iter().map(|w| w.as_bytes().to_vec()).collect()
}

#[test]
fn switch_to_existing_session() {
    let batch = switch_batch(&Choice::FromSelection(b"work".to_vec()));
    assert_eq!(batch, lits(&["switch-client", "-t", "work", ";", "refresh-client", "-S"]));
}

#[test]
fn switch_to_new_session_creates_it_detached_first() {
    let batch = switch_batch(&Choice::New(b"fresh".to_vec()));
    assert_eq!(
        batch,
        lits(&[
            "new-session", "-d", "-s", "fresh", ";", "switch-client", "-t", "fresh", ";",
            "refresh-client", "-S",
        ])
    );
}

#[test]
fn move_window_into_existing_session_reselects_the_window() {
    let batch = move_window_batch(&Choice::FromSelection(b"work".to_vec()), &b"3".to_vec());
    assert_eq!(
        batch,
        lits(&[
            "move-window", "-t", "work:", ";", "switch-client", "-t", "work", ";",
            "select-window", "-t", "3",
        ])
    );
}

#[test]
fn move_window_into_new_session_kills_the_placeholder() {
    let batch = move_window_batch(&Choice::New(b"fresh".to_vec()), &b"@7".to_vec());
    assert_eq!(
        batch,
        lits(&[
            "new-session", "-d", "-s", "fresh", ";", "move-window", "-s", "@7", "-t", "fresh:",
            ";", "switch-client", "-t", "fresh", ";", "kill-window", "-t", "fresh:!",
        ])
    );
}

#[test]
fn prompts_name_the_operation() {
    assert_eq!(prompt_for(&Operation::SwitchFrom), b"switch to session> ".to_vec());
    assert_eq!(prompt_for(&Operation::MoveWindow), b"move window to> ".to_vec());
}

#[test]
fn no_verb_is_a_usage_error() {
    match parse_invocation(&Vec::new()) {
        Err(CliError::Usage) => {},
        _ => panic!("expected the usage error"),
    }
}

#[test]
fn unknown_verb_is_a_usage_error() {
    match parse_invocation(&lits(&["attach"])) {
        Err(CliError::Usage) => {},
        _ => panic!("expected the usage error"),
    }
}

#[test]
fn switch_from_wants_a_session_name() {
    match parse_invocation(&lits(&["switch-from"])) {
        Err(CliError::MissingSession) => {},
        _ => panic!("expected the missing-session error"),
    }
    match parse_invocation(&lits(&["switch-from", "main"])) {
        Ok(Invocation::SwitchFrom { current }) => assert_eq!(current, b"main".to_vec()),
        _ => panic!("expected a switch invocation"),
    }
}

#[test]
fn move_window_wants_session_then_window() {
    match parse_invocation(&lits(&["move-window", "main"])) {
        Err(CliError::MissingWindow) => {},
        _ => panic!("expected the missing-window error"),
    }
    match parse_invocation(&lits(&["move-window", "main", "3"])) {
        Ok(Invocation::MoveWindow { current, window }) => {
            assert_eq!(current, b"main".to_vec());
            assert_eq!(window, b"3".to_vec());
        },
        _ => panic!("expected a move invocation"),
    }
}

#[test]
fn listing_verb_parses_like_the_interactive_one() {
    match parse_invocation(&lits(&["ls-switch-from", "main", "extra"])) {
        Ok(Invocation::LsSwitchFrom { current }) => assert_eq!(current, b"main".to_vec()),
        _ => panic!("expected the listing invocation"),
    }
}

#[test]
fn decimal_fields_parse_as_u64() {
    assert_eq!(parse_u64(&b"0".to_vec()), Some(0));
    assert_eq!(parse_u64(&b"123".to_vec()), Some(123));
    assert_eq!(parse_u64(&b"+7".to_vec()), Some(7));
    assert_eq!(parse_u64(&b"18446744073709551615".to_vec()), Some(u64::MAX));
    assert_eq!(parse_u64(&b"18446744073709551616".to_vec()), None);
    assert_eq!(parse_u64(&b"".to_vec()), None);
    assert_eq!(parse_u64(&b"+".to_vec()), None);
    assert_eq!(parse_u64(&b"12a".to_vec()), None);
    assert_eq!(parse_u64(&b"-1".to_vec()), None);
}

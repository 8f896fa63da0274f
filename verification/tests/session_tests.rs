use rs_tmux_fzf::session::{parse_session_line, ranked_session_list};

fn names(listing: &[u8], current: &[u8]) -> Vec<Vec<u8>> {
    ranked_session_list(&listing.to_vec(), &current.to_vec())
}

#[test]
fn ranked_list_unattached_first_then_recent() {
    // work is attached (wire flag 0), scratch and build are not.
    let listing = b"0 0 work\n1 50 scratch\n1 10 build\n";
    let got = names(listing, b"main");
    assert_eq!(got, vec![b"scratch".to_vec(), b"build".to_vec(), b"work".to_vec()]);
}

#[test]
fn current_session_excluded_even_when_top_ranked() {
    let listing = b"0 0 work\n1 50 scratch\n1 10 build\n1 999 main\n";
    let got = names(listing, b"main");
    assert_eq!(got, vec![b"scratch".to_vec(), b"build".to_vec(), b"work".to_vec()]);
}

#[test]
fn empty_name_dropped_whatever_the_other_fields() {
    let listing = b"1 999\n1 10 kept\n   \n";
    let got = names(listing, b"main");
    assert_eq!(got, vec![b"kept".to_vec()]);
}

#[test]
fn malformed_flag_counts_as_attached_and_sorts_last() {
    let listing = b"x 50 broken\n1 10 fine\n";
    let got = names(listing, b"main");
    assert_eq!(got, vec![b"fine".to_vec(), b"broken".to_vec()]);
}

#[test]
fn malformed_timestamp_counts_as_zero_and_sorts_last_in_class() {
    let listing = b"1 ? broken\n1 10 fine\n";
    let got = names(listing, b"main");
    assert_eq!(got, vec![b"fine".to_vec(), b"broken".to_vec()]);
}

#[test]
fn missing_timestamp_field_counts_as_zero() {
    let listing = b"1 late\n1 10 fine\n";
    // "late" becomes the timestamp token and fails to parse; the name is gone.
    let got = names(listing, b"main");
    assert_eq!(got, vec![b"fine".to_vec()]);
}

#[test]
fn ties_keep_listing_order() {
    let listing = b"1 5 alpha\n1 5 beta\n0 5 gamma\n0 5 delta\n";
    let got = names(listing, b"main");
    assert_eq!(
        got,
        vec![b"alpha".to_vec(), b"beta".to_vec(), b"gamma".to_vec(), b"delta".to_vec()]
    );
}

#[test]
fn never_attached_sorts_last_within_class() {
    let listing = b"1 0 never\n1 1 once\n";
    let got = names(listing, b"main");
    assert_eq!(got, vec![b"once".to_vec(), b"never".to_vec()]);
}

#[test]
fn carriage_return_line_endings_accepted() {
    let listing = b"1 50 scratch\r\n1 10 build\r\n";
    let got = names(listing, b"main");
    assert_eq!(got, vec![b"scratch".to_vec(), b"build".to_vec()]);
}

#[test]
fn parse_line_reads_all_three_fields() {
    let r = parse_session_line(&b"0 1234 work".to_vec());
    assert!(r.attached);
    assert_eq!(r.last_attached, 1234);
    assert_eq!(r.name, b"work".to_vec());
}

#[test]
fn parse_line_unattached_marker() {
    let r = parse_session_line(&b"1 7 idle".to_vec());
    assert!(!r.attached);
    assert_eq!(r.last_attached, 7);
}

#[test]
fn parse_line_flag_reads_as_a_number() {
    // Decimal readings of the flag: a leading plus or zero still reads as 1.
    let r = parse_session_line(&b"+1 7 idle".to_vec());
    assert!(!r.attached);
    let r = parse_session_line(&b"01 7 idle".to_vec());
    assert!(!r.attached);
    let r = parse_session_line(&b"2 7 odd".to_vec());
    assert!(r.attached);
}

#[test]
fn parse_line_huge_timestamp_defaults_to_zero() {
    let r = parse_session_line(&b"1 99999999999999999999 old".to_vec());
    assert_eq!(r.last_attached, 0);
}

#[test]
fn parse_line_extra_whitespace_between_fields() {
    let r = parse_session_line(&b"  1\t42   name".to_vec());
    assert!(!r.attached);
    assert_eq!(r.last_attached, 42);
    assert_eq!(r.name, b"name".to_vec());
}

#[test]
fn name_with_spaces_keeps_only_the_third_field() {
    let r = parse_session_line(&b"1 42 two words".to_vec());
    assert_eq!(r.name, b"two".to_vec());
}

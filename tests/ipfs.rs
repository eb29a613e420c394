use nftgen::{check_car_size, daemon_is_ready, parse_cid_from_ipfs_add_output, NftgenError, MAX_CAR_SIZE};

#[test]
fn cid_is_second_word_of_last_line() {
    let out = b"added QmA images/0.png\nadded QmB images/1.png\nadded QmRoot images\n";
    assert_eq!(parse_cid_from_ipfs_add_output(out).unwrap(), "QmRoot");
}

#[test]
fn cid_with_crlf_and_extra_spaces() {
    let out = b"added QmA a\r\n  added \t QmRoot  images\r\n";
    assert_eq!(parse_cid_from_ipfs_add_output(out).unwrap(), "QmRoot");
}

#[test]
fn cid_missing_is_an_error() {
    assert!(matches!(parse_cid_from_ipfs_add_output(b""), Err(NftgenError::IpfsCommandError(c)) if c == "ipfs add"));
    assert!(matches!(parse_cid_from_ipfs_add_output(b"added\n"), Err(NftgenError::IpfsCommandError(_))));
    assert!(matches!(parse_cid_from_ipfs_add_output(b"added QmA a\n\n"), Err(NftgenError::IpfsCommandError(_))));
}

#[test]
fn cid_output_not_utf8() {
    assert!(matches!(parse_cid_from_ipfs_add_output(b"added \xFF x"), Err(NftgenError::InvalidUtf8(_))));
}

#[test]
fn daemon_ready_line() {
    assert!(daemon_is_ready("Daemon is ready"));
    assert!(daemon_is_ready("2024 Daemon is ready!"));
    assert!(!daemon_is_ready("Daemon is starting"));
    assert!(!daemon_is_ready(""));
}

#[test]
fn car_size_limit() {
    assert!(check_car_size(MAX_CAR_SIZE, "a.car").is_ok());
    assert!(matches!(check_car_size(MAX_CAR_SIZE + 1, "a.car"), Err(NftgenError::CarTooLarge(p)) if p == "a.car"));
}

#[test]
fn cid_words_split_on_unicode_white_space() {
    let out = "added\u{3000}QmWide\u{a0}images\n".as_bytes();
    assert_eq!(parse_cid_from_ipfs_add_output(out).unwrap(), "QmWide");
}

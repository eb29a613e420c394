use nftgen::{merge_config_and_cli_args, parse_reader};

#[test]
fn basic() {
    let (args, errs) = parse_reader(
        &b"\
# Test
--context=0
   --smart-case
-u


   # --bar
--foo
"[..],
    );
    assert!(errs.is_empty());
    let args: Vec<String> = args.into_iter().map(|s| String::from_utf8(s).unwrap()).collect();
    assert_eq!(args, vec!["--context=0", "--smart-case", "-u", "--foo",]);
}

#[test]
fn config_error() {
    let (args, errs) = parse_reader(
        &b"\
quux
foo\xFFbar
baz
"[..],
    );
    assert!(errs.is_empty());
    assert_eq!(args, vec![b"quux".to_vec(), b"foo\xFFbar".to_vec(), b"baz".to_vec()]);
}

#[test]
fn parse_reader_keeps_raw_bytes_and_last_line() {
    let (args, errs) = parse_reader(&b"quux\r\nfoo\xFFbar\n\tbaz"[..]);
    assert!(errs.is_empty());
    assert_eq!(args, vec![b"quux".to_vec(), b"foo\xFFbar".to_vec(), b"baz".to_vec()]);
}

#[test]
fn parse_reader_of_nothing() {
    let (args, errs) = parse_reader(&[]);
    assert!(args.is_empty() && errs.is_empty());
}

#[test]
fn merge_puts_config_after_program_and_subcommand() {
    let config = vec!["--a", "--b"];
    let cli = vec!["nftgen", "generate", "--num", "3"];
    assert_eq!(
        merge_config_and_cli_args(config.clone(), cli.clone(), 2),
        vec!["nftgen", "generate", "--a", "--b", "--num", "3"]
    );
    assert_eq!(merge_config_and_cli_args(config.clone(), cli, 1), vec!["nftgen", "--a", "--b", "generate", "--num", "3"]);
    assert_eq!(merge_config_and_cli_args(config.clone(), vec!["nftgen"], 2), vec!["nftgen", "--a", "--b"]);
    assert_eq!(merge_config_and_cli_args(config, vec![], 2), vec!["--a", "--b"]);
}

use transaction_solver::cli::Cli;

fn cli(input: Option<&str>, shards: Option<u16>) -> Cli {
    Cli {
        input: input.map(str::to_string),
        shards,
    }
}

#[test]
fn standard_input_is_read_without_a_file_or_with_a_dash() {
    assert_eq!(cli(None, None).file(), None);
    assert_eq!(cli(Some("-"), None).file(), None);
    assert_eq!(
        cli(Some("a.csv"), None).file(),
        Some(&"a.csv".to_string())
    );
    assert_eq!(cli(Some("--"), None).file(), Some(&"--".to_string()));
    assert_eq!(cli(Some(""), None).file(), Some(&String::new()));
}

#[test]
fn the_command_line_overrides_the_machine() {
    assert_eq!(cli(None, Some(3)).shard_count(Some(16)), 3);
    assert_eq!(cli(None, None).shard_count(Some(16)), 14);
    assert_eq!(cli(None, None).shard_count(None), 1);
}

use legacy_tx::{parse_cli_args, BitcoinError, CliCommand};

fn args(words: &[&str]) -> Vec<String> {
    words.iter().map(|w| w.to_string()).collect()
}

fn parse_error(words: &[&str]) -> String {
    match parse_cli_args(&args(words)) {
        Err(BitcoinError::ParseError(text)) => text,
        _ => panic!("expected a parse error"),
    }
}

#[test]
fn send_with_amount_and_address() {
    match parse_cli_args(&args(&["send", "42", "bc1qexample"])) {
        Ok(CliCommand::Send { amount, address }) => {
            assert_eq!(amount, 42);
            assert_eq!(address, "bc1qexample");
        }
        _ => panic!("expected a send command"),
    }
}

#[test]
fn send_reads_the_largest_amount() {
    match parse_cli_args(&args(&["send", "18446744073709551615", "x"])) {
        Ok(CliCommand::Send { amount, address }) => {
            assert_eq!(amount, u64::MAX);
            assert_eq!(address, "x");
        }
        _ => panic!("expected a send command"),
    }
}

#[test]
fn send_ignores_further_arguments() {
    match parse_cli_args(&args(&["send", "7", "addr", "more"])) {
        Ok(CliCommand::Send { amount, address }) => {
            assert_eq!(amount, 7);
            assert_eq!(address, "addr");
        }
        _ => panic!("expected a send command"),
    }
}

#[test]
fn send_with_a_bad_amount() {
    for bad in [
        "abc", "", "-1", "-0", "1.5", "18446744073709551616", " 1", "1 ", "+", "++1", "1_000", "0x10",
        "\u{664}",
    ] {
        assert!(matches!(
            parse_cli_args(&args(&["send", bad, "addr"])),
            Err(BitcoinError::InvalidAmount)
        ));
    }
}

#[test]
fn send_with_too_few_arguments() {
    assert_eq!(parse_error(&["send"]), "Send command requires amount and address");
    assert_eq!(parse_error(&["send", "5"]), "Send command requires amount and address");
    assert_eq!(parse_error(&["send", "abc"]), "Send command requires amount and address");
}

#[test]
fn balance_alone() {
    assert!(matches!(parse_cli_args(&args(&["balance"])), Ok(CliCommand::Balance)));
}

#[test]
fn balance_with_arguments() {
    assert_eq!(parse_error(&["balance", "now"]), "Balance command takes no arguments");
}

#[test]
fn no_command() {
    assert_eq!(parse_error(&[]), "No command provided");
}

#[test]
fn unknown_command() {
    assert_eq!(parse_error(&["mine"]), "Unknown command: mine. Use 'send' or 'balance'");
    assert_eq!(parse_error(&["Send", "1", "a"]), "Unknown command: Send. Use 'send' or 'balance'");
    assert_eq!(parse_error(&[""]), "Unknown command: . Use 'send' or 'balance'");
}

#[test]
fn send_reads_plus_sign_and_leading_zeros() {
    for (text, value) in [("+5", 5u64), ("007", 7), ("0", 0), ("+0", 0), ("1000000", 1_000_000)] {
        match parse_cli_args(&args(&["send", text, "addr"])) {
            Ok(CliCommand::Send { amount, address }) => {
                assert_eq!(amount, value);
                assert_eq!(address, "addr");
            }
            _ => panic!("expected a send command for {}", text),
        }
    }
}

#[test]
fn error_messages() {
    assert_eq!(BitcoinError::InvalidTransaction.message(), "Invalid transaction format");
    assert_eq!(BitcoinError::InvalidScript.message(), "Invalid script format");
    assert_eq!(BitcoinError::InvalidAmount.message(), "Invalid amount");
    assert_eq!(BitcoinError::ParseError("oops".to_string()).message(), "Parse error: oops");
    assert_eq!(BitcoinError::ParseError(String::new()).message(), "Parse error: ");
}

use utxo_chain::cli::{parse_boolean, parse_decimal, Command, CommandLine};
use utxo_chain::error::Error;

fn line(words: &[&str]) -> CommandLine {
    CommandLine { args: words.iter().map(|w| w.to_string()).collect() }
}

#[test]
fn decimal_amounts() {
    assert_eq!(parse_decimal("7"), Some(7));
    assert_eq!(parse_decimal("100"), Some(100));
    assert_eq!(parse_decimal("18446744073709551615"), Some(u64::MAX));
    assert_eq!(parse_decimal("18446744073709551616"), None);
    assert_eq!(parse_decimal(""), None);
    assert_eq!(parse_decimal("1a"), None);
    assert_eq!(parse_decimal("-1"), None);
}

#[test]
fn boolean_flags() {
    assert_eq!(parse_boolean("true"), Some(true));
    assert_eq!(parse_boolean("false"), Some(false));
    assert_eq!(parse_boolean("yes"), None);
}

#[test]
fn commands_are_read() {
    assert_eq!(
        line(&["send_coin", "A", "B", "7", "true"]).parse(),
        Ok(Command::SendCoin { from: "A".to_string(), to: "B".to_string(), amount: 7, mine_now: true })
    );
    assert_eq!(
        line(&["create_blockchain", "A"]).parse(),
        Ok(Command::CreateBlockchain { address: "A".to_string() })
    );
    assert_eq!(line(&["reindex_utxo"]).parse(), Ok(Command::ReindexUTXO));
    assert_eq!(line(&["start_node", ""]).parse(), Ok(Command::StartNode { miner_address: String::new() }));
}

#[test]
fn command_errors() {
    assert_eq!(line(&[]).parse(), Err(Error::Usage));
    assert_eq!(line(&["fly"]).parse(), Err(Error::Usage));
    assert_eq!(line(&["get_balance"]).parse(), Err(Error::Usage));
    assert_eq!(line(&["send_coin", "A", "B", "seven", "true"]).parse(), Err(Error::InvalidAmount));
    assert_eq!(line(&["send_coin", "A", "B", "7", "now"]).parse(), Err(Error::InvalidFlag));
}

use ypbank_tools::streaming_quotes::errors::LibraryError;
use ypbank_tools::streaming_quotes::protocol::{process_command, Command, QuoteStream};
use ypbank_tools::streaming_quotes::quote::{parse_quote_line, quote_price_field};
use ypbank_tools::streaming_quotes::tickers::read_tickers_from_reader;

fn allowed() -> Vec<String> {
    ["AAPL", "MSFT", "TSLA"].into_iter().map(str::to_string).collect()
}

/// What parsing a socket address reports for the addresses used here,
/// `None` when it parses (the text is what `SocketAddr` shows).
fn address_error(text: &str) -> Option<String> {
    match text {
        "127.0.0.1:9000" => None,
        _ => Some("invalid socket address syntax".to_string()),
    }
}

fn run_command(input: &str) -> Result<Command, LibraryError> {
    let address = ypbank_tools::streaming_quotes::protocol::command_address(input);
    let error = address.and_then(|a| address_error(&a));
    process_command(input, &allowed(), error)
}

#[test]
fn parses_stream_command() {
    let command = run_command("STREAM 127.0.0.1:9000 AAPL,TSLA").unwrap();

    match command {
        Command::Stream(stream) => {
            assert_eq!(stream.udp_address, "127.0.0.1:9000");

            assert_eq!(stream.tickers, vec!["AAPL", "TSLA"]);
        }

        _ => panic!("Expected STREAM"),
    }
}

#[test]
fn rejects_invalid_command() {
    let result = run_command("WRONG");

    assert!(matches!(result, Err(LibraryError::InvalidCommandError(_))));
}

#[test]
fn rejects_invalid_udp_address() {
    let result = run_command("STREAM invalid-address AAPL");

    assert!(matches!(result, Err(LibraryError::InvalidUdpError(_))));
}

#[test]
fn rejects_empty_tickers() {
    let result = run_command("STREAM 127.0.0.1:9000 ,,,");

    assert!(matches!(result, Err(LibraryError::EmptyTickersError(_))));
}

#[test]
fn rejects_unknown_ticker() {
    let result = run_command("STREAM 127.0.0.1:9000 UNKNOWN");

    assert!(matches!(result, Err(LibraryError::UnknownTickerError(_))));
}

#[test]
fn ticker_filter_works() {
    let filter = QuoteStream::new(vec!["AAPL".to_string(), "TSLA".to_string()], 0);

    assert!(filter.wants(&"AAPL".to_string()));
    assert!(!filter.wants(&"MSFT".to_string()));
}

#[test]
fn quote_round_trip() {
    let (ticker, price, volume, timestamp_ms) = ("AAPL", 201.25_f64, 1500_u64, 123456789_u64);

    let line = format!("{}|{:.2}|{}|{}\n", ticker, price, volume, timestamp_ms);

    let price_text = quote_price_field(&line).unwrap();
    let price_error = price_text.parse::<f64>().err().map(|e| e.to_string());
    let parsed = parse_quote_line(&line, price_error).unwrap();

    assert_eq!(parsed.ticker, ticker);
    assert_eq!(parsed.price_text.parse::<f64>().unwrap(), price);
    assert_eq!(parsed.volume, volume);
    assert_eq!(parsed.timestamp_ms, timestamp_ms);
}

#[test]
fn invalid_quote_returns_error() {
    let input = "AAPL|wrong|100";
    let price_error = quote_price_field(input)
        .and_then(|p| p.parse::<f64>().err().map(|e| e.to_string()));

    let result = parse_quote_line(input, price_error);

    assert!(matches!(result, Err(LibraryError::ParseError(_))));
}

#[test]
fn reads_tickers_and_skips_empty_lines() {
    let input = "AAPL\n\n MSFT \nTSLA\n";

    let tickers = read_tickers_from_reader(input.as_bytes()).unwrap();

    assert_eq!(tickers, vec!["AAPL", "MSFT", "TSLA"]);
}

#[test]
fn empty_ticker_list_returns_error() {
    let input = "\n   \n";

    let result = read_tickers_from_reader(input.as_bytes());

    assert!(matches!(result, Err(LibraryError::EmptyTickersError(_))));
}

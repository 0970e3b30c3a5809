use ypbank_tools::streaming_quotes::errors::LibraryError;
use ypbank_tools::streaming_quotes::protocol::{
    command_address, is_exit_line, is_ping_message, process_command, session_step, welcome,
    Command, PingEvent, QuoteStream, SessionAction, SessionEvent, SessionState,
};
use ypbank_tools::streaming_quotes::quote::{
    generate_volume, parse_quote_line, quote_price_field, timestamp_ms,
};
use ypbank_tools::streaming_quotes::tickers::read_tickers_from_reader;

fn allowed() -> Vec<String> {
    vec!["AAPL".to_string(), "MSFT".to_string(), "TSLA".to_string()]
}

#[test]
fn commands_are_checked_word_by_word() {
    assert!(matches!(process_command("  PING ", &allowed(), None), Ok(Command::Ping)));
    match process_command("PING now", &allowed(), None) {
        Err(LibraryError::InvalidCommandError(m)) => assert_eq!(m, "PING now"),
        other => panic!("unexpected {:?}", other),
    }
    match process_command(" \t ", &allowed(), None) {
        Err(LibraryError::InvalidCommandError(m)) => assert_eq!(m, "command is empty"),
        other => panic!("unexpected {:?}", other),
    }
    match process_command("STREAM", &allowed(), None) {
        Err(LibraryError::InvalidUdpError(m)) => assert_eq!(m, "UDP address is missing"),
        other => panic!("unexpected {:?}", other),
    }
    match process_command("STREAM nowhere", &allowed(), Some("bad".to_string())) {
        Err(LibraryError::InvalidUdpError(m)) => assert_eq!(m, "nowhere: bad"),
        other => panic!("unexpected {:?}", other),
    }
    match process_command("STREAM 1.2.3.4:5", &allowed(), None) {
        Err(LibraryError::EmptyTickersError(m)) => assert_eq!(m, "ticker list is missing"),
        other => panic!("unexpected {:?}", other),
    }
    assert!(matches!(
        process_command("STREAM 1.2.3.4:5 AAPL MSFT", &allowed(), None),
        Err(LibraryError::InvalidCommandError(_))
    ));
    match process_command("STREAM 1.2.3.4:5 aapl,,tsla,", &allowed(), None) {
        Ok(Command::Stream(s)) => {
            assert_eq!(s.udp_address, "1.2.3.4:5");
            assert_eq!(s.tickers, vec!["AAPL", "TSLA"]);
        }
        other => panic!("unexpected {:?}", other),
    }
    match process_command("STREAM 1.2.3.4:5 AAPL,goog", &allowed(), None) {
        Err(LibraryError::UnknownTickerError(t)) => assert_eq!(t, "GOOG"),
        other => panic!("unexpected {:?}", other),
    }
    assert_eq!(command_address(" STREAM 1.2.3.4:5 AAPL"), Some("1.2.3.4:5".to_string()));
    assert_eq!(command_address("PING"), None);
}

#[test]
fn a_session_answers_then_watches_the_stream() {
    assert_eq!(welcome(), "Welcome to Streaming\n");
    let (state, action) = session_step(
        SessionState::AwaitingCommand,
        SessionEvent::CommandLine { line: "PING\n".to_string(), address_error: None },
        &allowed(),
    );
    assert_eq!(state, SessionState::Closed);
    assert!(matches!(action, SessionAction::ReplyAndClose(ref t) if t == "PONG\n"));
    let (_, action) = session_step(
        SessionState::AwaitingCommand,
        SessionEvent::CommandLine { line: "WRONG\n".to_string(), address_error: None },
        &allowed(),
    );
    assert!(matches!(action, SessionAction::ReplyAndClose(ref t) if t == "ERR invalid command: WRONG\n"));
    let (state, action) = session_step(
        SessionState::AwaitingCommand,
        SessionEvent::CommandLine {
            line: "STREAM 1.2.3.4:5 msft\r\n".to_string(),
            address_error: None,
        },
        &allowed(),
    );
    assert_eq!(state, SessionState::Streaming);
    match action {
        SessionAction::ReplyAndStream(t, c) => {
            assert_eq!(t, "OK\n");
            assert_eq!(c.tickers, vec!["MSFT"]);
        }
        other => panic!("unexpected {:?}", other),
    }
    let (state, action) =
        session_step(SessionState::Streaming, SessionEvent::ControlLine("hello".to_string()), &allowed());
    assert_eq!(state, SessionState::Streaming);
    assert!(matches!(action, SessionAction::Wait));
    let (state, action) =
        session_step(SessionState::Streaming, SessionEvent::ControlLine(" Exit\n".to_string()), &allowed());
    assert_eq!(state, SessionState::Closed);
    assert!(matches!(action, SessionAction::StopAndClose));
    let (state, action) =
        session_step(SessionState::Streaming, SessionEvent::ConnectionClosed, &allowed());
    assert_eq!(state, SessionState::Closed);
    assert!(matches!(action, SessionAction::StopAndClose));
    let (state, action) =
        session_step(SessionState::AwaitingCommand, SessionEvent::ConnectionClosed, &allowed());
    assert_eq!(state, SessionState::Closed);
    assert!(matches!(action, SessionAction::Close));
}

#[test]
fn keep_alives_and_timeouts() {
    assert!(is_ping_message(" ping\n"));
    assert!(!is_ping_message("pong"));
    assert!(is_exit_line("EXIT"));
    let mut stream = QuoteStream::new(vec!["AAPL".to_string()], 0);
    assert!(stream.after_ping(PingEvent::Nothing, 6_000_000_000));
    assert!(!stream.after_ping(PingEvent::Nothing, 6_000_000_001));
    assert!(stream.after_ping(PingEvent::Message("PING".to_string()), 7_000_000_000));
    assert_eq!(stream.last_ping_ns, 7_000_000_000);
    assert!(stream.after_ping(PingEvent::Message("other".to_string()), 8_000_000_000));
    assert_eq!(stream.last_ping_ns, 7_000_000_000);
    assert!(!stream.after_ping(PingEvent::Failed, 8_000_000_000));
}

#[test]
fn volumes_and_timestamps() {
    for _ in 0..50 {
        let v = generate_volume("AAPL");
        assert!((1000..6000).contains(&v));
        let v = generate_volume("GOOG");
        assert!((2000..4000).contains(&v));
        let v = generate_volume("XYZ");
        assert!((100..1100).contains(&v));
    }
    assert_eq!(timestamp_ms(42).unwrap(), 42);
    assert!(matches!(
        timestamp_ms(u64::MAX as u128 + 1),
        Err(LibraryError::SystemTimeError(_))
    ));
}

#[test]
fn quote_line_errors() {
    let err = |input: &str| match parse_quote_line(input, None) {
        Err(LibraryError::ParseError(m)) => m,
        other => panic!("unexpected {:?}", other),
    };
    assert_eq!(err("a|b|c"), "expected 4 fields, received 3");
    assert_eq!(err(" |1.0|2|3"), "ticker is empty");
    assert_eq!(err("AAPL|1.0|x|3"), "invalid volume: invalid digit found in string");
    assert_eq!(err("AAPL|1.0|2|"), "invalid timestamp: cannot parse integer from empty string");
    match parse_quote_line("AAPL|x|2|3", Some("bad price".to_string())) {
        Err(LibraryError::ParseError(m)) => assert_eq!(m, "invalid price: bad price"),
        other => panic!("unexpected {:?}", other),
    }
    assert_eq!(quote_price_field(" AAPL|12.50|1|2\n"), Some("12.50".to_string()));
    let q = parse_quote_line(" msft |1|2|3", None).unwrap();
    assert_eq!(q.ticker, "msft");
}

#[test]
fn ticker_files() {
    assert_eq!(read_tickers_from_reader(b" aapl\r\nmsft").unwrap(), vec!["AAPL", "MSFT"]);
    match read_tickers_from_reader(b"") {
        Err(LibraryError::EmptyTickersError(m)) => assert_eq!(m, "ticker file contains no tickers"),
        other => panic!("unexpected {:?}", other),
    }
    assert!(matches!(read_tickers_from_reader(b"AAPL\n\xfe\n"), Err(LibraryError::InputOutputError(_))));
    assert_eq!(
        LibraryError::UnknownTickerError("X".to_string()).to_message(),
        "unknown ticker: X"
    );
}

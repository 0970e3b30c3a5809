//! Client commands and the decisions of a client session.
use crate::streaming_quotes::errors::{service_error_message, LibraryError, ServiceErrorView};
use crate::streaming_quotes::tickers::{ascii_upper, string_views, upper_string};
use crate::text::{
    ascii_lower_char, chars_of, pieces_of, push_char, sep_pred, split_bounds, split_by,
    string_from, trim, trim_bounds, Separator,
};
use vstd::prelude::*;

verus! {

/// A request to stream quotes of `tickers` to the UDP address `udp_address`
/// (the text of a socket address).
#[derive(Debug)]
pub struct StreamCommand {
    pub udp_address: String,
    pub tickers: Vec<String>,
}

/// A command of a client.
#[derive(Debug)]
pub enum Command {
    Stream(StreamCommand),
    Ping,
}

/// The abstract value of a [`Command`].
pub enum CommandView {
    Stream { udp_address: Seq<char>, tickers: Seq<Seq<char>> },
    Ping,
}

impl View for Command {
    type V = CommandView;

    open spec fn view(&self) -> CommandView {
        match self {
            Command::Stream(s) => CommandView::Stream {
                udp_address: s.udp_address@,
                tickers: string_views(s.tickers@),
            },
            Command::Ping => CommandView::Ping,
        }
    }
}

/// The pieces that are not empty, in order.
pub open spec fn nonempty_pieces(ps: Seq<Seq<char>>) -> Seq<Seq<char>>
    decreases ps.len(),
{
    if ps.len() == 0 {
        Seq::empty()
    } else {
        let prev = nonempty_pieces(ps.drop_last());
        if ps.last().len() > 0 {
            prev.push(ps.last())
        } else {
            prev
        }
    }
}

/// The words of `s`, as `str::split_whitespace` yields them.
pub open spec fn words(s: Seq<char>) -> Seq<Seq<char>> {
    nonempty_pieces(split_by(s, sep_pred(Separator::White)))
}

/// The bounds of the words of `v`.
pub fn word_bounds(v: &Vec<char>) -> (r: Vec<(usize, usize)>)
    ensures
        pieces_of(v@, r@) == words(v@),
        forall|k: int| 0 <= k < r@.len() ==> (#[trigger] r@[k]).0 <= r@[k].1 <= v@.len(),
{
    let all = split_bounds(v, 0, v.len(), Separator::White);
    assert(v@.subrange(0, v@.len() as int) =~= v@);
    let ghost ps = pieces_of(v@, all@);
    let mut r: Vec<(usize, usize)> = Vec::new();
    let mut k: usize = 0;
    assert(ps.take(0) =~= Seq::<Seq<char>>::empty());
    assert(pieces_of(v@, r@) =~= Seq::<Seq<char>>::empty());
    while k < all.len()
        invariant
            k <= all@.len(),
            ps == pieces_of(v@, all@),
            forall|j: int| 0 <= j < all@.len() ==> (#[trigger] all@[j]).0 <= all@[j].1 <= v@.len(),
            forall|j: int| 0 <= j < r@.len() ==> (#[trigger] r@[j]).0 <= r@[j].1 <= v@.len(),
            pieces_of(v@, r@) == nonempty_pieces(ps.take(k as int)),
        decreases all@.len() - k,
    {
        assert(ps.take(k + 1).drop_last() =~= ps.take(k as int));
        assert(ps.take(k + 1).last() == ps[k as int]);
        let (a, b) = all[k];
        if a < b {
            let ghost before = r@;
            r.push((a, b));
            assert(pieces_of(v@, r@) =~= pieces_of(v@, before).push(ps[k as int]));
        }
        k = k + 1;
    }
    assert(ps.take(k as int) =~= ps);
    r
}

/// The tickers of a comma-separated list: pieces trimmed, empty ones
/// dropped, the rest upper-cased in ASCII.
pub open spec fn ticker_list(word: Seq<char>) -> Seq<Seq<char>> {
    nonempty_pieces(
        split_by(word, sep_pred(Separator::Char(','))).map_values(|p: Seq<char>| trim(p)),
    ).map_values(|t: Seq<char>| ascii_upper(t))
}

/// The tickers of the comma-separated list in `v[from..to]`.
fn tickers_in(v: &Vec<char>, from: usize, to: usize) -> (r: Vec<String>)
    requires
        from <= to <= v@.len(),
    ensures
        string_views(r@) == ticker_list(v@.subrange(from as int, to as int)),
{
    let parts = split_bounds(v, from, to, Separator::Char(','));
    let ghost tp = pieces_of(v@, parts@).map_values(|p: Seq<char>| trim(p));
    let mut r: Vec<String> = Vec::new();
    let mut k: usize = 0;
    assert(tp.take(0) =~= Seq::<Seq<char>>::empty());
    assert(string_views(r@) =~= nonempty_pieces(tp.take(0)).map_values(|t: Seq<char>| ascii_upper(t)));
    while k < parts.len()
        invariant
            k <= parts@.len(),
            from <= to <= v@.len(),
            tp == pieces_of(v@, parts@).map_values(|p: Seq<char>| trim(p)),
            forall|j: int| 0 <= j < parts@.len() ==> from <= #[trigger] parts@[j].0 <= parts@[j].1 <= to,
            string_views(r@) == nonempty_pieces(tp.take(k as int)).map_values(
                |t: Seq<char>| ascii_upper(t),
            ),
        decreases parts@.len() - k,
    {
        assert(tp.take(k + 1).drop_last() =~= tp.take(k as int));
        assert(tp.take(k + 1).last() == tp[k as int]);
        let (a, b) = trim_bounds(v, parts[k].0, parts[k].1);
        if a < b {
            let ghost before = string_views(r@);
            r.push(upper_string(v, a, b));
            assert(string_views(r@) =~= before.push(ascii_upper(tp[k as int])));
            assert(nonempty_pieces(tp.take(k + 1)) == nonempty_pieces(tp.take(k as int)).push(
                tp[k as int],
            ));
            assert(string_views(r@) =~= nonempty_pieces(tp.take(k + 1)).map_values(
                |t: Seq<char>| ascii_upper(t),
            ));
        } else {
            assert(nonempty_pieces(tp.take(k + 1)) == nonempty_pieces(tp.take(k as int)));
        }
        k = k + 1;
    }
    assert(tp.take(k as int) =~= tp);
    r
}

/// Tests whether `list` holds `s`.
pub fn contains_string(list: &[String], s: &String) -> (b: bool)
    ensures
        b == string_views(list@).contains(s@),
{
    let mut i: usize = 0;
    while i < list.len()
        invariant
            i <= list@.len(),
            forall|j: int| 0 <= j < i ==> list@[j]@ != s@,
        decreases list@.len() - i,
    {
        if list[i] == *s {
            assert(string_views(list@)[i as int] == s@);
            return true;
        }
        i = i + 1;
    }
    assert forall|j: int| 0 <= j < string_views(list@).len() implies string_views(list@)[j] != s@ by {}
    false
}

/// The first ticker of `ts` that `allowed` does not hold, if any.
pub open spec fn first_unknown(ts: Seq<Seq<char>>, allowed: Seq<Seq<char>>) -> Option<Seq<char>>
    decreases ts.len(),
{
    if ts.len() == 0 {
        None
    } else if !allowed.contains(ts[0]) {
        Some(ts[0])
    } else {
        first_unknown(ts.drop_first(), allowed)
    }
}

/// What the word list `w` of a `STREAM` command line asks for, once its
/// address word parsed.
pub open spec fn stream_result(input: Seq<char>, w: Seq<Seq<char>>, allowed: Seq<Seq<char>>) -> Result<
    CommandView,
    ServiceErrorView,
> {
    if w.len() < 3 {
        Err(ServiceErrorView::EmptyTickers("ticker list is missing"@))
    } else if w.len() > 3 {
        Err(ServiceErrorView::InvalidCommand(input))
    } else if ticker_list(w[2]).len() == 0 {
        Err(ServiceErrorView::EmptyTickers("ticker list is empty"@))
    } else {
        match first_unknown(ticker_list(w[2]), allowed) {
            Some(t) => Err(ServiceErrorView::UnknownTicker(t)),
            None => Ok(CommandView::Stream { udp_address: w[1], tickers: ticker_list(w[2]) }),
        }
    }
}

/// What a command line asks for. `address_error` is what parsing its
/// second word as a socket address reported (`None`: it parsed).
pub open spec fn command_result(input: Seq<char>, allowed: Seq<Seq<char>>, address_error: Option<Seq<char>>) -> Result<
    CommandView,
    ServiceErrorView,
> {
    let w = words(input);
    if w.len() == 0 {
        Err(ServiceErrorView::InvalidCommand("command is empty"@))
    } else if w[0] == "PING"@ {
        if w.len() > 1 {
            Err(ServiceErrorView::InvalidCommand(input))
        } else {
            Ok(CommandView::Ping)
        }
    } else if w[0] == "STREAM"@ {
        if w.len() < 2 {
            Err(ServiceErrorView::InvalidUdp("UDP address is missing"@))
        } else {
            match address_error {
                Some(m) => Err(ServiceErrorView::InvalidUdp(w[1] + ": "@ + m)),
                None => stream_result(input, w, allowed),
            }
        }
    } else {
        Err(ServiceErrorView::InvalidCommand(w[0]))
    }
}

/// The abstract value of the result of [`process_command`].
pub open spec fn command_result_view(r: Result<Command, LibraryError>) -> Result<
    CommandView,
    ServiceErrorView,
> {
    match r {
        Ok(c) => Ok(c@),
        Err(e) => Err(e@),
    }
}

/// The view of an optional text.
pub open spec fn text_option(o: Option<String>) -> Option<Seq<char>> {
    match o {
        Some(s) => Some(s@),
        None => None,
    }
}

/// The word of a command line that must be a socket address: the second
/// word when the first is `STREAM`.
pub open spec fn address_word(input: Seq<char>) -> Option<Seq<char>> {
    let w = words(input);
    if w.len() >= 2 && w[0] == "STREAM"@ {
        Some(w[1])
    } else {
        None
    }
}

/// The word of a command line that must be parsed as a socket address
/// before [`process_command`] can decide: the second word when the first
/// is `STREAM`.
pub fn command_address(input: &str) -> (r: Option<String>)
    ensures
        text_option(r) == address_word(input@),
{
    let chars = chars_of(input);
    let w = word_bounds(&chars);
    if w.len() >= 2 {
        let first = string_from(&chars, w[0].0, w[0].1);
        if first == "STREAM".to_owned() {
            return Some(string_from(&chars, w[1].0, w[1].1));
        }
    }
    None
}

/// Interprets a command line: `PING`, or `STREAM <udp-address>
/// <ticker,ticker,...>` with every ticker among `allowed_tickers`.
/// `address_error` is what parsing the address word (see
/// [`command_address`]) as a socket address reported, `None` when it parsed.
pub fn process_command(input: &str, allowed_tickers: &[String], address_error: Option<String>) -> (r:
    Result<Command, LibraryError>)
    ensures
        command_result_view(r) == command_result(
            input@,
            string_views(allowed_tickers@),
            text_option(address_error),
        ),
{
    let chars = chars_of(input);
    let w = word_bounds(&chars);
    let ghost ws = words(input@);
    assert(forall|k: int| 0 <= k < w@.len() ==> #[trigger] pieces_of(chars@, w@)[k] == ws[k]);
    if w.len() == 0 {
        return Err(LibraryError::InvalidCommandError("command is empty".to_owned()));
    }
    let command = string_from(&chars, w[0].0, w[0].1);
    assert(command@ == ws[0]);
    if command == "PING".to_owned() {
        if w.len() > 1 {
            return Err(LibraryError::InvalidCommandError(input.to_owned()));
        }
        return Ok(Command::Ping);
    }
    if command == "STREAM".to_owned() {
        if w.len() < 2 {
            return Err(LibraryError::InvalidUdpError("UDP address is missing".to_owned()));
        }
        let address = string_from(&chars, w[1].0, w[1].1);
        assert(address@ == ws[1]);
        match address_error {
            Some(m) => {
                let mut text = address;
                text.append(": ");
                text.append(m.as_str());
                return Err(LibraryError::InvalidUdpError(text));
            },
            None => {},
        }
        if w.len() < 3 {
            return Err(LibraryError::EmptyTickersError("ticker list is missing".to_owned()));
        }
        if w.len() > 3 {
            return Err(LibraryError::InvalidCommandError(input.to_owned()));
        }
        assert(chars@.subrange(w@[2].0 as int, w@[2].1 as int) == ws[2]);
        let tickers = tickers_in(&chars, w[2].0, w[2].1);
        if tickers.len() == 0 {
            return Err(LibraryError::EmptyTickersError("ticker list is empty".to_owned()));
        }
        let ghost ts = string_views(tickers@);
        let ghost allowed = string_views(allowed_tickers@);
        let mut i: usize = 0;
        assert(ts.skip(0) =~= ts);
        while i < tickers.len()
            invariant
                i <= tickers@.len(),
                ts == string_views(tickers@),
                allowed == string_views(allowed_tickers@),
                ws == words(input@),
                ws.len() == 3,
                ws[0] == "STREAM"@,
                address_error is None,
                ts == ticker_list(ws[2]),
                ts.len() > 0,
                first_unknown(ts, allowed) == first_unknown(ts.skip(i as int), allowed),
            decreases tickers@.len() - i,
        {
            assert(ts.skip(i as int)[0] == ts[i as int]);
            assert(ts.skip(i as int).drop_first() =~= ts.skip(i + 1));
            if !contains_string(allowed_tickers, &tickers[i]) {
                assert(!allowed.contains(ts.skip(i as int)[0]));
                let t = tickers[i].clone();
                proof {
                    reveal_strlit("PING");
                    reveal_strlit("STREAM");
                    assert("PING"@ != "STREAM"@) by {
                        assert("PING"@.len() != "STREAM"@.len());
                    }
                }
                return Err(LibraryError::UnknownTickerError(t));
            }
            i = i + 1;
        }
        assert(ts.skip(i as int) =~= Seq::<Seq<char>>::empty());
        assert(ts.skip(0) =~= ts);
        return Ok(Command::Stream(StreamCommand { udp_address: address, tickers }));
    }
    Err(LibraryError::InvalidCommandError(command))
}

/* Client sessions */

/// `s` with its ASCII letters lower-cased.
pub open spec fn ascii_lower(s: Seq<char>) -> Seq<char> {
    s.map_values(|c: char| ascii_lower_char(c))
}

/// `line` is `word` up to ASCII case, once trimmed (as
/// `line.trim().eq_ignore_ascii_case(word)` tests for an ASCII `word`).
pub open spec fn is_keyword(line: Seq<char>, word: Seq<char>) -> bool {
    ascii_lower(trim(line)) == word
}

/// Tests whether `line`, trimmed, is `word` (given in lower case) up to ASCII case.
fn keyword_matches(line: &str, word: &str) -> (b: bool)
    ensures
        b == is_keyword(line@, word@),
{
    let chars = chars_of(line);
    let (a, b) = trim_bounds(&chars, 0, chars.len());
    assert(chars@.subrange(0, chars@.len() as int) =~= chars@);
    let mut lowered = String::new();
    let mut i = a;
    while i < b
        invariant
            a <= i <= b <= chars@.len(),
            lowered@ == ascii_lower(chars@.subrange(a as int, i as int)),
        decreases b - i,
    {
        push_char(&mut lowered, crate::text::lower_ascii(chars[i]));
        assert(ascii_lower(chars@.subrange(a as int, i + 1)) =~= ascii_lower(
            chars@.subrange(a as int, i as int),
        ).push(ascii_lower_char(chars@[i as int])));
        i = i + 1;
    }
    lowered == word.to_owned()
}

/// Tests whether a client line asks to end the stream (`EXIT`, in any case).
pub fn is_exit_line(line: &str) -> (b: bool)
    ensures
        b == is_keyword(line@, "exit"@),
{
    keyword_matches(line, "exit")
}

/// Tests whether a datagram's text is a keep-alive (`PING`, in any case).
pub fn is_ping_message(text: &str) -> (b: bool)
    ensures
        b == is_keyword(text@, "ping"@),
{
    keyword_matches(text, "ping")
}

/// The text a client is greeted with.
pub fn welcome() -> (s: String)
    ensures
        s@ == "Welcome to Streaming\n"@,
{
    "Welcome to Streaming\n".to_owned()
}

/// Where a client session stands.
#[derive(Clone, Copy, Debug, PartialEq, Eq, Structural)]
pub enum SessionState {
    /// Greeted; its command line is awaited.
    AwaitingCommand,
    /// Quotes are being streamed; control lines are read.
    Streaming,
    /// The session is over.
    Closed,
}

/// What happened on a client connection.
#[derive(Debug)]
pub enum SessionEvent {
    /// A line arrived while the command was awaited; `address_error` is
    /// what parsing its address word (see [`command_address`]) reported.
    CommandLine { line: String, address_error: Option<String> },
    /// A line arrived while streaming.
    ControlLine(String),
    /// The client closed the connection.
    ConnectionClosed,
    /// A read timed out without data.
    Idle,
    /// A read failed.
    ReadFailed,
    /// The quote stream stopped by itself.
    StreamStopped,
}

/// The abstract value of a [`SessionEvent`].
pub enum EventView {
    CommandLine { line: Seq<char>, address_error: Option<Seq<char>> },
    ControlLine(Seq<char>),
    ConnectionClosed,
    Idle,
    ReadFailed,
    StreamStopped,
}

impl View for SessionEvent {
    type V = EventView;

    open spec fn view(&self) -> EventView {
        match self {
            SessionEvent::CommandLine { line, address_error } => EventView::CommandLine {
                line: line@,
                address_error: text_option(*address_error),
            },
            SessionEvent::ControlLine(l) => EventView::ControlLine(l@),
            SessionEvent::ConnectionClosed => EventView::ConnectionClosed,
            SessionEvent::Idle => EventView::Idle,
            SessionEvent::ReadFailed => EventView::ReadFailed,
            SessionEvent::StreamStopped => EventView::StreamStopped,
        }
    }
}

/// What the session does next.
#[derive(Debug)]
pub enum SessionAction {
    /// Send the text, then end the session.
    ReplyAndClose(String),
    /// Send the text, then stream quotes as the command asks.
    ReplyAndStream(String, StreamCommand),
    /// Keep reading.
    Wait,
    /// Stop the quote stream and end the session.
    StopAndClose,
    /// End the session.
    Close,
}

/// The abstract value of a [`SessionAction`].
pub enum ActionView {
    ReplyAndClose(Seq<char>),
    ReplyAndStream(Seq<char>, CommandView),
    Wait,
    StopAndClose,
    Close,
}

impl View for SessionAction {
    type V = ActionView;

    open spec fn view(&self) -> ActionView {
        match self {
            SessionAction::ReplyAndClose(t) => ActionView::ReplyAndClose(t@),
            SessionAction::ReplyAndStream(t, c) => ActionView::ReplyAndStream(
                t@,
                CommandView::Stream { udp_address: c.udp_address@, tickers: string_views(c.tickers@) },
            ),
            SessionAction::Wait => ActionView::Wait,
            SessionAction::StopAndClose => ActionView::StopAndClose,
            SessionAction::Close => ActionView::Close,
        }
    }
}

/// The reply to a command line: `ERR <error>`, `PONG` or `OK`, each on a line.
pub open spec fn reply_to(r: Result<CommandView, ServiceErrorView>) -> Seq<char> {
    match r {
        Err(e) => "ERR "@ + service_error_message(e) + "\n"@,
        Ok(CommandView::Ping) => "PONG\n"@,
        Ok(CommandView::Stream { .. }) => "OK\n"@,
    }
}

/// The next state of a session and what it does, on an event.
pub open spec fn session_transition(state: SessionState, event: EventView, allowed: Seq<Seq<char>>) -> (
    SessionState,
    ActionView,
) {
    match state {
        SessionState::AwaitingCommand => match event {
            EventView::CommandLine { line, address_error } => {
                let r = command_result(trim(line), allowed, address_error);
                match r {
                    Ok(CommandView::Stream { udp_address, tickers }) => (
                        SessionState::Streaming,
                        ActionView::ReplyAndStream(
                            reply_to(r),
                            CommandView::Stream { udp_address, tickers },
                        ),
                    ),
                    _ => (SessionState::Closed, ActionView::ReplyAndClose(reply_to(r))),
                }
            },
            EventView::Idle => (SessionState::AwaitingCommand, ActionView::Wait),
            _ => (SessionState::Closed, ActionView::Close),
        },
        SessionState::Streaming => match event {
            EventView::ControlLine(line) => if is_keyword(line, "exit"@) {
                (SessionState::Closed, ActionView::StopAndClose)
            } else {
                (SessionState::Streaming, ActionView::Wait)
            },
            EventView::Idle => (SessionState::Streaming, ActionView::Wait),
            _ => (SessionState::Closed, ActionView::StopAndClose),
        },
        SessionState::Closed => (SessionState::Closed, ActionView::Close),
    }
}

/// The trimmed form of a string.
fn trimmed(s: &str) -> (r: String)
    ensures
        r@ == trim(s@),
{
    let chars = chars_of(s);
    let (a, b) = trim_bounds(&chars, 0, chars.len());
    assert(chars@.subrange(0, chars@.len() as int) =~= chars@);
    string_from(&chars, a, b)
}

/// Decides what a client session does on an event: answers the command
/// line, then watches the control lines while quotes stream.
pub fn session_step(state: SessionState, event: SessionEvent, allowed_tickers: &[String]) -> (r: (
    SessionState,
    SessionAction,
))
    ensures
        (r.0, r.1@) == session_transition(state, event@, string_views(allowed_tickers@)),
{
    match state {
        SessionState::AwaitingCommand => match event {
            SessionEvent::CommandLine { line, address_error } => {
                let t = trimmed(line.as_str());
                let r = process_command(t.as_str(), allowed_tickers, address_error);
                match r {
                    Ok(Command::Stream(cmd)) => (
                        SessionState::Streaming,
                        SessionAction::ReplyAndStream("OK\n".to_owned(), cmd),
                    ),
                    Ok(Command::Ping) => (
                        SessionState::Closed,
                        SessionAction::ReplyAndClose("PONG\n".to_owned()),
                    ),
                    Err(e) => {
                        let mut text = "ERR ".to_owned();
                        text.append(e.to_message().as_str());
                        text.append("\n");
                        (SessionState::Closed, SessionAction::ReplyAndClose(text))
                    },
                }
            },
            SessionEvent::Idle => (SessionState::AwaitingCommand, SessionAction::Wait),
            _ => (SessionState::Closed, SessionAction::Close),
        },
        SessionState::Streaming => match event {
            SessionEvent::ControlLine(line) => if is_exit_line(line.as_str()) {
                (SessionState::Closed, SessionAction::StopAndClose)
            } else {
                (SessionState::Streaming, SessionAction::Wait)
            },
            SessionEvent::Idle => (SessionState::Streaming, SessionAction::Wait),
            _ => (SessionState::Closed, SessionAction::StopAndClose),
        },
        SessionState::Closed => (SessionState::Closed, SessionAction::Close),
    }
}

/* Quote streams */

/// How long a stream waits for a keep-alive before it stops: six seconds.
pub open spec fn ping_timeout_ns() -> u128 {
    6_000_000_000
}

/// The state of one quote stream: the tickers it forwards and when the
/// last keep-alive came (nanoseconds on a monotonic clock).
pub struct QuoteStream {
    pub tickers: Vec<String>,
    pub last_ping_ns: u128,
}

/// What one attempt to receive a keep-alive gave.
#[derive(Debug)]
pub enum PingEvent {
    /// A datagram arrived; its text.
    Message(String),
    /// Nothing was waiting.
    Nothing,
    /// Receiving failed.
    Failed,
}

impl QuoteStream {
    /// A stream of the given tickers, started at `now_ns`.
    pub fn new(tickers: Vec<String>, now_ns: u128) -> (s: Self)
        ensures
            s.tickers == tickers,
            s.last_ping_ns == now_ns,
    {
        QuoteStream { tickers, last_ping_ns: now_ns }
    }

    /// Takes in the result of a keep-alive receive at `now_ns`, and tells
    /// whether the stream goes on: it stops when receiving failed or when
    /// more than [`ping_timeout_ns`] passed since the last keep-alive.
    pub fn after_ping(&mut self, event: PingEvent, now_ns: u128) -> (go_on: bool)
        ensures
            final(self).tickers == old(self).tickers,
            final(self).last_ping_ns == (match event {
                PingEvent::Message(t) => if is_keyword(t@, "ping"@) {
                    now_ns
                } else {
                    old(self).last_ping_ns
                },
                _ => old(self).last_ping_ns,
            }),
            go_on == (!(event is Failed) && !(now_ns > final(self).last_ping_ns && now_ns
                - final(self).last_ping_ns > ping_timeout_ns())),
    {
        match event {
            PingEvent::Message(t) => {
                if is_ping_message(t.as_str()) {
                    self.last_ping_ns = now_ns;
                }
            },
            PingEvent::Nothing => {},
            PingEvent::Failed => {
                return false;
            },
        }
        !(now_ns > self.last_ping_ns && now_ns - self.last_ping_ns > 6_000_000_000)
    }

    /// Tests whether quotes of `ticker` are forwarded by this stream.
    pub fn wants(&self, ticker: &String) -> (b: bool)
        ensures
            b == string_views(self.tickers@).contains(ticker@),
    {
        contains_string(self.tickers.as_slice(), ticker)
    }
}

} // verus!

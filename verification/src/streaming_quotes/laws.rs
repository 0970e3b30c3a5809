//! What the service's message logic promises across its parts.
use crate::decimal::{is_digit, nat_text, u64_from_text};
use crate::streaming_quotes::errors::ServiceErrorView;
use crate::streaming_quotes::protocol::{
    command_result, first_unknown, is_keyword, nonempty_pieces, session_transition, ticker_list,
    words, ActionView, CommandView, EventView, SessionState,
};
use crate::streaming_quotes::quote::volume_range;
use crate::streaming_quotes::tickers::ascii_upper;
use crate::streaming_quotes::quote::{quote_line_result, quote_parts, QuoteFieldsView};
use crate::text::{is_white, sep_pred, split_by, trim, trim_end, trim_start, Separator};
use crate::laws::{lemma_nat_text, lemma_split_no_sep, lemma_split_sep, lemma_trimmed_ends};
use vstd::prelude::*;

verus! {

/// When no ticker is unknown, every ticker is allowed.
proof fn lemma_first_unknown_none(ts: Seq<Seq<char>>, allowed: Seq<Seq<char>>)
    requires
        first_unknown(ts, allowed) is None,
    ensures
        forall|i: int| 0 <= i < ts.len() ==> allowed.contains(#[trigger] ts[i]),
    decreases ts.len(),
{
    if ts.len() > 0 {
        lemma_first_unknown_none(ts.drop_first(), allowed);
        assert forall|i: int| 0 <= i < ts.len() implies allowed.contains(#[trigger] ts[i]) by {
            if i > 0 {
                assert(ts[i] == ts.drop_first()[i - 1]);
            }
        }
    }
}

/// A stream request is granted only for tickers that are all allowed, and
/// never for an empty list.
pub proof fn law_streamed_tickers_are_allowed(
    input: Seq<char>,
    allowed: Seq<Seq<char>>,
    address_error: Option<Seq<char>>,
)
    ensures
        command_result(input, allowed, address_error) matches Ok(CommandView::Stream { tickers, .. })
            ==> tickers.len() > 0 && forall|i: int|
            0 <= i < tickers.len() ==> allowed.contains(#[trigger] tickers[i]),
{
    if let Ok(CommandView::Stream { tickers, .. }) = command_result(input, allowed, address_error) {
        lemma_first_unknown_none(tickers, allowed);
    }
}

/// `u64::from_str` reads back the decimal text of a `u64`.
proof fn lemma_u64_text(n: u64)
    ensures
        u64_from_text(nat_text(n as nat)) == Some(n),
        nat_text(n as nat).len() > 0,
        forall|i: int| 0 <= i < nat_text(n as nat).len() ==> is_digit(#[trigger] nat_text(n as nat)[i]),
{
    lemma_nat_text(n as nat);
    let t = nat_text(n as nat);
    assert(is_digit(t[0]));
    assert(t[0] != '+' && t[0] != '-');
}

/// The text of a quote line with the given fields, the price as text.
pub open spec fn quote_line(ticker: Seq<char>, price_text: Seq<char>, volume: u64, timestamp_ms: u64) -> Seq<char> {
    ticker + seq!['|'] + price_text + seq!['|'] + nat_text(volume as nat) + seq!['|'] + nat_text(
        timestamp_ms as nat,
    ) + seq!['\n']
}

/// Reading a quote line gives back the fields it was written from, when the
/// ticker is not empty, holds no `|` and has no white space at its ends, the
/// price text holds no `|`, and the price text parsed.
pub proof fn law_quote_line_round_trip(ticker: Seq<char>, price_text: Seq<char>, volume: u64, timestamp_ms: u64)
    requires
        ticker.len() > 0,
        trim(ticker) == ticker,
        forall|i: int| 0 <= i < ticker.len() ==> ticker[i] != '|',
        forall|i: int| 0 <= i < price_text.len() ==> price_text[i] != '|',
    ensures
        quote_line_result(quote_line(ticker, price_text, volume, timestamp_ms), None) == Ok::<
            QuoteFieldsView,
            ServiceErrorView,
        >(QuoteFieldsView { ticker, price_text, volume, timestamp_ms }),
{
    let v = nat_text(volume as nat);
    let t = nat_text(timestamp_ms as nat);
    lemma_u64_text(volume);
    lemma_u64_text(timestamp_ms);
    let body = ticker + seq!['|'] + price_text + seq!['|'] + v + seq!['|'] + t;
    let line = quote_line(ticker, price_text, volume, timestamp_ms);
    assert(line =~= body.push('\n'));
    // trimming drops the line feed and nothing else
    lemma_trimmed_ends(ticker);
    assert(line[0] == ticker[0]);
    assert(trim_start(line) == line);
    assert(line.drop_last() =~= body);
    assert(body.last() == t.last());
    assert(is_white('\n'));
    assert(trim_end(line) == trim_end(body));
    assert(trim_end(body) == body);
    assert(trim(line) == body);
    // the four parts
    let p = sep_pred(Separator::Char('|'));
    let e = Seq::<char>::empty();
    assert(split_by(e, p) =~= seq![e]);
    lemma_split_no_sep(e, ticker, p);
    assert(e + ticker =~= ticker);
    lemma_split_sep(ticker, '|', p);
    assert(ticker.push('|') =~= ticker + seq!['|']);
    lemma_split_no_sep(ticker + seq!['|'], price_text, p);
    lemma_split_sep(ticker + seq!['|'] + price_text, '|', p);
    assert((ticker + seq!['|'] + price_text).push('|') =~= ticker + seq!['|'] + price_text + seq!['|']);
    assert forall|i: int| 0 <= i < v.len() implies !p(#[trigger] v[i]) by {}
    assert forall|i: int| 0 <= i < t.len() implies !p(#[trigger] t[i]) by {}
    lemma_split_no_sep(ticker + seq!['|'] + price_text + seq!['|'], v, p);
    lemma_split_sep(ticker + seq!['|'] + price_text + seq!['|'] + v, '|', p);
    assert((ticker + seq!['|'] + price_text + seq!['|'] + v).push('|') =~= ticker + seq!['|']
        + price_text + seq!['|'] + v + seq!['|']);
    lemma_split_no_sep(ticker + seq!['|'] + price_text + seq!['|'] + v + seq!['|'], t, p);
    assert(quote_parts(line) =~= seq![ticker, price_text, v, t]);
}

/* Sessions */

/// While quotes stream, a session ends only on `EXIT`, a closed connection,
/// a failed read or a stopped stream: a read that timed out without data,
/// and any other line, leave it streaming and reading. While the command is
/// awaited, a timed-out read keeps waiting too.
pub proof fn law_streaming_session_ends_only_on_exit_or_disconnect(
    event: EventView,
    allowed: Seq<Seq<char>>,
)
    ensures
        event is Idle ==> session_transition(SessionState::Streaming, event, allowed) == (
            SessionState::Streaming,
            ActionView::Wait,
        ),
        event is Idle ==> session_transition(SessionState::AwaitingCommand, event, allowed) == (
            SessionState::AwaitingCommand,
            ActionView::Wait,
        ),
        event matches EventView::ControlLine(line) ==> session_transition(
            SessionState::Streaming,
            event,
            allowed,
        ) == (if is_keyword(line, "exit"@) {
            (SessionState::Closed, ActionView::StopAndClose)
        } else {
            (SessionState::Streaming, ActionView::Wait)
        }),
        (event is ConnectionClosed || event is ReadFailed || event is StreamStopped)
            ==> session_transition(SessionState::Streaming, event, allowed) == (
            SessionState::Closed,
            ActionView::StopAndClose,
        ),
        session_transition(SessionState::Streaming, event, allowed).0 == SessionState::Streaming
            <==> (event is Idle || (event matches EventView::ControlLine(line) && !is_keyword(
            line,
            "exit"@,
        ))),
{
}

/* Volumes */

/// The volume range of a ticker: AAPL, MSFT and TSLA draw from
/// `[1000, 6000)`, GOOG and AMZN from `[2000, 4000)`, every other ticker
/// from `[100, 1100)`.
pub proof fn law_volume_ranges(ticker: Seq<char>)
    ensures
        (ticker == "AAPL"@ || ticker == "MSFT"@ || ticker == "TSLA"@) ==> volume_range(ticker)
            == (1000u64, 6000u64),
        (ticker == "GOOG"@ || ticker == "AMZN"@) ==> volume_range(ticker) == (2000u64, 4000u64),
        !(ticker == "AAPL"@ || ticker == "MSFT"@ || ticker == "TSLA"@ || ticker == "GOOG"@
            || ticker == "AMZN"@) ==> volume_range(ticker) == (100u64, 1100u64),
{
    reveal_strlit("AAPL");
    reveal_strlit("MSFT");
    reveal_strlit("TSLA");
    reveal_strlit("GOOG");
    reveal_strlit("AMZN");
    assert("GOOG"@[0] != "AAPL"@[0] && "GOOG"@[0] != "MSFT"@[0] && "GOOG"@[0] != "TSLA"@[0]);
    assert("AMZN"@[1] != "AAPL"@[1] && "AMZN"@[0] != "MSFT"@[0] && "AMZN"@[0] != "TSLA"@[0]);
}

/* Stream tickers */

/// How many of the pieces are not empty.
pub open spec fn nonempty_count(ps: Seq<Seq<char>>) -> nat
    decreases ps.len(),
{
    if ps.len() == 0 {
        0
    } else {
        nonempty_count(ps.drop_last()) + if ps.last().len() > 0 {
            1nat
        } else {
            0nat
        }
    }
}

/// The non-empty pieces, in order, are as many as [`nonempty_count`] says,
/// and every non-empty piece is among them.
proof fn lemma_nonempty_pieces(ps: Seq<Seq<char>>)
    ensures
        nonempty_pieces(ps).len() == nonempty_count(ps),
        forall|k: int|
            0 <= k < ps.len() && ps[k].len() > 0 ==> nonempty_pieces(ps).contains(#[trigger] ps[k]),
    decreases ps.len(),
{
    if ps.len() > 0 {
        let prev = ps.drop_last();
        lemma_nonempty_pieces(prev);
        assert forall|k: int| 0 <= k < ps.len() && ps[k].len() > 0 implies nonempty_pieces(
            ps,
        ).contains(#[trigger] ps[k]) by {
            if k < ps.len() - 1 {
                assert(prev[k] == ps[k]);
                let j = choose|j: int| 0 <= j < nonempty_pieces(prev).len() && nonempty_pieces(prev)[j] == prev[k];
                assert(nonempty_pieces(ps)[j] == ps[k]);
            } else {
                assert(nonempty_pieces(ps).last() == ps[k]);
            }
        }
    }
}

/// A granted `STREAM` command streams every non-empty comma-separated piece
/// of its ticker word, trimmed and upper-cased, and nothing else: each such
/// piece is among its tickers, and it has as many tickers as there are such
/// pieces.
pub proof fn law_stream_keeps_every_ticker(
    input: Seq<char>,
    allowed: Seq<Seq<char>>,
    address_error: Option<Seq<char>>,
)
    ensures
        command_result(input, allowed, address_error) matches Ok(
            CommandView::Stream { tickers, .. },
        ) ==> ({
            let pieces = split_by(words(input)[2], sep_pred(Separator::Char(','))).map_values(
                |p: Seq<char>| trim(p),
            );
            &&& tickers.len() == nonempty_count(pieces)
            &&& forall|k: int|
                0 <= k < pieces.len() && pieces[k].len() > 0 ==> tickers.contains(
                    ascii_upper(#[trigger] pieces[k]),
                )
        }),
{
    if let Ok(CommandView::Stream { tickers, .. }) = command_result(input, allowed, address_error) {
        let w = words(input);
        let pieces = split_by(w[2], sep_pred(Separator::Char(','))).map_values(
            |p: Seq<char>| trim(p),
        );
        let kept = nonempty_pieces(pieces);
        assert(tickers == ticker_list(w[2]));
        assert(ticker_list(w[2]) =~= kept.map_values(|t: Seq<char>| ascii_upper(t)));
        lemma_nonempty_pieces(pieces);
        assert forall|k: int| 0 <= k < pieces.len() && pieces[k].len() > 0 implies tickers.contains(
            ascii_upper(#[trigger] pieces[k]),
        ) by {
            assert(kept.contains(pieces[k]));
            let j = choose|j: int| 0 <= j < kept.len() && kept[j] == pieces[k];
            assert(tickers[j] == ascii_upper(pieces[k]));
        }
    }
}

} // verus!

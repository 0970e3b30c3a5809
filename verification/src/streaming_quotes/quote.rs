//! The parts of stock quotes that are integers and text: drawing volumes,
//! timestamps, and reading the fields of a quote line.
use crate::decimal::{nat_text, parse_u64, push_u128_text, u64_from_text, u64_parse_error_text};
use crate::streaming_quotes::errors::{LibraryError, ServiceErrorView};
use crate::text::{chars_of, pieces_of, sep_pred, split_bounds, split_by, string_from, trim, trim_bounds, Separator};
use vstd::prelude::*;

verus! {

/// The range `[low, high)` that quote volumes of `ticker` are drawn from.
pub open spec fn volume_range(ticker: Seq<char>) -> (u64, u64) {
    if ticker == "AAPL"@ || ticker == "MSFT"@ || ticker == "TSLA"@ {
        (1000, 6000)
    } else if ticker == "GOOG"@ || ticker == "AMZN"@ {
        (2000, 4000)
    } else {
        (100, 1100)
    }
}

/// A random number in `[low, high)`.
///
/// Trusted: `rand::random_range`, which the `rand` crate documents as
/// sampling uniformly from the given range and panicking when it is
/// empty; the contract states only that the result lies in the range.
#[verifier::external_body]
fn random_in(low: u64, high: u64) -> (r: u64)
    requires
        low < high,
    ensures
        low <= r < high,
{
    rand::random_range(low..high)
}

/// Draws the traded volume of a new quote of `ticker`: 1000 up to 6000 for
/// AAPL, MSFT and TSLA, 2000 up to 4000 for GOOG and AMZN, 100 up to 1100
/// for any other ticker (upper bounds excluded).
pub fn generate_volume(ticker: &str) -> (v: u64)
    ensures
        volume_range(ticker@).0 <= v < volume_range(ticker@).1,
        (ticker@ == "AAPL"@ || ticker@ == "MSFT"@ || ticker@ == "TSLA"@) ==> 1000 <= v < 6000,
        (ticker@ == "GOOG"@ || ticker@ == "AMZN"@) ==> 2000 <= v < 4000,
        !(ticker@ == "AAPL"@ || ticker@ == "MSFT"@ || ticker@ == "TSLA"@ || ticker@ == "GOOG"@
            || ticker@ == "AMZN"@) ==> 100 <= v < 1100,
{
    proof {
        crate::streaming_quotes::laws::law_volume_ranges(ticker@);
    }
    let t = ticker.to_owned();
    if t == "AAPL".to_owned() || t == "MSFT".to_owned() || t == "TSLA".to_owned() {
        random_in(1000, 6000)
    } else if t == "GOOG".to_owned() || t == "AMZN".to_owned() {
        random_in(2000, 4000)
    } else {
        random_in(100, 1100)
    }
}

/// The text that `TryFromIntError` shows when `u64::try_from` refuses `x`.
pub uninterp spec fn u64_conversion_error_text(x: u128) -> Seq<char>;

/// Converts a `u128` to a `u64`.
///
/// Trusted: `<u64 as TryFrom<u128>>::try_from`, which succeeds exactly when
/// the value fits; the error's display text is the named
/// [`u64_conversion_error_text`].
#[verifier::external_body]
fn u128_to_u64(x: u128) -> (r: Result<u64, String>)
    ensures
        match r {
            Ok(v) => x <= u64::MAX && v == x,
            Err(m) => x > u64::MAX && m@ == u64_conversion_error_text(x),
        },
{
    match u64::try_from(x) {
        Ok(v) => Ok(v),
        Err(e) => Err(e.to_string()),
    }
}

/// The timestamp of a quote made `millis` milliseconds after the Unix
/// epoch; an error when it does not fit a `u64`.
pub fn timestamp_ms(millis: u128) -> (r: Result<u64, LibraryError>)
    ensures
        match r {
            Ok(t) => millis <= u64::MAX && t == millis,
            Err(e) => millis > u64::MAX && e@ == ServiceErrorView::SystemTime(
                u64_conversion_error_text(millis),
            ),
        },
{
    match u128_to_u64(millis) {
        Ok(t) => Ok(t),
        Err(m) => Err(LibraryError::SystemTimeError(m)),
    }
}

/// The fields of a quote line, the price still as text.
#[derive(Debug)]
pub struct QuoteFields {
    pub ticker: String,
    pub price_text: String,
    pub volume: u64,
    pub timestamp_ms: u64,
}

/// The abstract value of [`QuoteFields`].
pub struct QuoteFieldsView {
    pub ticker: Seq<char>,
    pub price_text: Seq<char>,
    pub volume: u64,
    pub timestamp_ms: u64,
}

impl View for QuoteFields {
    type V = QuoteFieldsView;

    open spec fn view(&self) -> QuoteFieldsView {
        QuoteFieldsView {
            ticker: self.ticker@,
            price_text: self.price_text@,
            volume: self.volume,
            timestamp_ms: self.timestamp_ms,
        }
    }
}

/// The `|`-separated parts of a quote line, once trimmed.
pub open spec fn quote_parts(input: Seq<char>) -> Seq<Seq<char>> {
    split_by(trim(input), sep_pred(Separator::Char('|')))
}

/// The price text of a quote line: its second part, when it has four.
pub open spec fn price_part(input: Seq<char>) -> Option<Seq<char>> {
    if quote_parts(input).len() == 4 {
        Some(quote_parts(input)[1])
    } else {
        None
    }
}

/// What reading a quote line gives. `price_error` is what parsing its
/// price text as a number reported (`None`: it parsed).
pub open spec fn quote_line_result(input: Seq<char>, price_error: Option<Seq<char>>) -> Result<
    QuoteFieldsView,
    ServiceErrorView,
> {
    let p = quote_parts(input);
    if p.len() != 4 {
        Err(ServiceErrorView::Parse("expected 4 fields, received "@ + nat_text(p.len())))
    } else if trim(p[0]).len() == 0 {
        Err(ServiceErrorView::Parse("ticker is empty"@))
    } else {
        match price_error {
            Some(m) => Err(ServiceErrorView::Parse("invalid price: "@ + m)),
            None => match u64_from_text(p[2]) {
                None => Err(ServiceErrorView::Parse("invalid volume: "@ + u64_parse_error_text(p[2]))),
                Some(volume) => match u64_from_text(p[3]) {
                    None => Err(
                        ServiceErrorView::Parse("invalid timestamp: "@ + u64_parse_error_text(p[3])),
                    ),
                    Some(timestamp_ms) => Ok(
                        QuoteFieldsView { ticker: trim(p[0]), price_text: p[1], volume, timestamp_ms },
                    ),
                },
            },
        }
    }
}

/// The view of an optional text.
pub open spec fn opt_text(o: Option<String>) -> Option<Seq<char>> {
    match o {
        Some(s) => Some(s@),
        None => None,
    }
}

/// The price text of a quote line (its second `|`-separated part, when it
/// has four), which must be parsed as a number before
/// [`parse_quote_line`] can decide.
pub fn quote_price_field(input: &str) -> (r: Option<String>)
    ensures
        opt_text(r) == price_part(input@),
{
    let chars = chars_of(input);
    let (a, b) = trim_bounds(&chars, 0, chars.len());
    assert(chars@.subrange(0, chars@.len() as int) =~= chars@);
    let parts = split_bounds(&chars, a, b, Separator::Char('|'));
    if parts.len() == 4 {
        Some(string_from(&chars, parts[1].0, parts[1].1))
    } else {
        None
    }
}

/// Reads the fields of a quote line `ticker|price|volume|timestamp`.
/// `price_error` is what parsing the price text (see
/// [`quote_price_field`]) as a number reported, `None` when it parsed.
pub fn parse_quote_line(input: &str, price_error: Option<String>) -> (r: Result<
    QuoteFields,
    LibraryError,
>)
    ensures
        match r {
            Ok(q) => quote_line_result(input@, opt_text(price_error)) == Ok::<
                QuoteFieldsView,
                ServiceErrorView,
            >(q@),
            Err(e) => quote_line_result(input@, opt_text(price_error)) == Err::<
                QuoteFieldsView,
                ServiceErrorView,
            >(e@),
        },
{
    let chars = chars_of(input);
    let (a, b) = trim_bounds(&chars, 0, chars.len());
    assert(chars@.subrange(0, chars@.len() as int) =~= chars@);
    let parts = split_bounds(&chars, a, b, Separator::Char('|'));
    let ghost p = quote_parts(input@);
    assert(p.len() == parts@.len());
    if parts.len() != 4 {
        let mut m = "expected 4 fields, received ".to_owned();
        push_u128_text(&mut m, parts.len() as u128);
        return Err(LibraryError::ParseError(m));
    }
    assert(forall|k: int| 0 <= k < 4 ==> #[trigger] p[k] == pieces_of(chars@, parts@)[k]);
    let (t0, t1) = trim_bounds(&chars, parts[0].0, parts[0].1);
    if t0 == t1 {
        return Err(LibraryError::ParseError("ticker is empty".to_owned()));
    }
    match price_error {
        Some(m) => {
            let mut text = "invalid price: ".to_owned();
            text.append(m.as_str());
            return Err(LibraryError::ParseError(text));
        },
        None => {},
    }
    let volume_text = string_from(&chars, parts[2].0, parts[2].1);
    let volume = match parse_u64(volume_text.as_str()) {
        Ok(v) => v,
        Err(err) => {
            let mut text = "invalid volume: ".to_owned();
            text.append(err.as_str());
            return Err(LibraryError::ParseError(text));
        },
    };
    let time_text = string_from(&chars, parts[3].0, parts[3].1);
    let timestamp_ms = match parse_u64(time_text.as_str()) {
        Ok(v) => v,
        Err(err) => {
            let mut text = "invalid timestamp: ".to_owned();
            text.append(err.as_str());
            return Err(LibraryError::ParseError(text));
        },
    };
    let ticker = string_from(&chars, t0, t1);
    let price_text = string_from(&chars, parts[1].0, parts[1].1);
    Ok(QuoteFields { ticker, price_text, volume, timestamp_ms })
}

} // verus!

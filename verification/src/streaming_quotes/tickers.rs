//! Ticker lists: one ticker per line.
use crate::streaming_quotes::errors::{LibraryError, ServiceErrorView};
use crate::text::{
    ascii_upper_char, chars_of, decode_utf8_bytes, lines_of, push_char, split_lines, trim,
    trim_bounds, upper_ascii,
};
use vstd::prelude::*;
use vstd::utf8::{decode_utf8, valid_utf8};

verus! {

/// `s` with its ASCII letters upper-cased, as `str::to_ascii_uppercase` gives it.
pub open spec fn ascii_upper(s: Seq<char>) -> Seq<char> {
    s.map_values(|c: char| ascii_upper_char(c))
}

/// A new `String` with `v[from..to]` upper-cased in ASCII.
pub fn upper_string(v: &Vec<char>, from: usize, to: usize) -> (s: String)
    requires
        from <= to <= v@.len(),
    ensures
        s@ == ascii_upper(v@.subrange(from as int, to as int)),
{
    let mut s = String::new();
    let mut i = from;
    while i < to
        invariant
            from <= i <= to <= v@.len(),
            s@ == ascii_upper(v@.subrange(from as int, i as int)),
        decreases to - i,
    {
        push_char(&mut s, upper_ascii(v[i]));
        assert(ascii_upper(v@.subrange(from as int, i + 1)) =~= ascii_upper(
            v@.subrange(from as int, i as int),
        ).push(ascii_upper_char(v@[i as int])));
        i = i + 1;
    }
    s
}

/// The error for a line that is not UTF-8, as reading lines reports it.
pub open spec fn not_utf8() -> ServiceErrorView {
    ServiceErrorView::InputOutput("stream did not contain valid UTF-8"@)
}

/// The tickers on `lines`: each line trimmed, empty ones skipped, the rest
/// upper-cased; or the first line that is not UTF-8.
pub open spec fn ticker_lines(lines: Seq<Seq<u8>>) -> Result<Seq<Seq<char>>, ServiceErrorView>
    decreases lines.len(),
{
    if lines.len() == 0 {
        Ok(Seq::empty())
    } else {
        match ticker_lines(lines.drop_last()) {
            Err(e) => Err(e),
            Ok(ts) => if !valid_utf8(lines.last()) {
                Err(not_utf8())
            } else {
                let t = trim(decode_utf8(lines.last()));
                if t.len() == 0 {
                    Ok(ts)
                } else {
                    Ok(ts.push(ascii_upper(t)))
                }
            },
        }
    }
}

/// What reading a ticker list gives.
pub open spec fn tickers_result(bytes: Seq<u8>) -> Result<Seq<Seq<char>>, ServiceErrorView> {
    match ticker_lines(lines_of(bytes)) {
        Err(e) => Err(e),
        Ok(ts) => if ts.len() == 0 {
            Err(ServiceErrorView::EmptyTickers("ticker file contains no tickers"@))
        } else {
            Ok(ts)
        },
    }
}

/// The views of a list of strings.
pub open spec fn string_views(v: Seq<String>) -> Seq<Seq<char>> {
    v.map_values(|s: String| s@)
}

/// An error in the ticker lines of a prefix is the error of the whole list.
proof fn lemma_ticker_lines_error_prefix(lines: Seq<Seq<u8>>, n: nat)
    requires
        n <= lines.len(),
        ticker_lines(lines.take(n as int)) is Err,
    ensures
        ticker_lines(lines) == ticker_lines(lines.take(n as int)),
    decreases lines.len() - n,
{
    if n < lines.len() {
        assert(lines.take(n + 1 as int).drop_last() =~= lines.take(n as int));
        lemma_ticker_lines_error_prefix(lines, (n + 1) as nat);
    } else {
        assert(lines.take(n as int) =~= lines);
    }
}

/// Reads a ticker list: one ticker per line, trimmed and upper-cased,
/// empty lines skipped; an error when no ticker is left.
pub fn read_tickers_from_reader(input: &[u8]) -> (r: Result<Vec<String>, LibraryError>)
    ensures
        match r {
            Ok(v) => tickers_result(input@) == Ok::<Seq<Seq<char>>, ServiceErrorView>(
                string_views(v@),
            ),
            Err(e) => tickers_result(input@) == Err::<Seq<Seq<char>>, ServiceErrorView>(e@),
        },
{
    let lines = split_lines(input);
    let ghost ls = lines_of(input@);
    let mut tickers: Vec<String> = Vec::new();
    let mut i: usize = 0;
    assert(ls.take(0) =~= Seq::<Seq<u8>>::empty());
    assert(string_views(tickers@) =~= Seq::<Seq<char>>::empty());
    while i < lines.len()
        invariant
            i <= lines@.len(),
            lines@.len() == ls.len(),
            ls == lines_of(input@),
            forall|k: int| 0 <= k < lines@.len() ==> (#[trigger] lines@[k])@ == ls[k],
            ticker_lines(ls.take(i as int)) == Ok::<Seq<Seq<char>>, ServiceErrorView>(
                string_views(tickers@),
            ),
        decreases lines@.len() - i,
    {
        assert(ls.take(i + 1).drop_last() =~= ls.take(i as int));
        assert(ls.take(i + 1).last() == lines@[i as int]@);
        let text = match decode_utf8_bytes(lines[i].as_slice()) {
            Ok(t) => t,
            Err(_) => {
                proof {
                    lemma_ticker_lines_error_prefix(ls, (i + 1) as nat);
                }
                return Err(
                    LibraryError::InputOutputError("stream did not contain valid UTF-8".to_owned()),
                );
            },
        };
        let chars = chars_of(text.as_str());
        let (a, b) = trim_bounds(&chars, 0, chars.len());
        assert(chars@.subrange(0, chars@.len() as int) =~= chars@);
        if a < b {
            let ghost before = string_views(tickers@);
            tickers.push(upper_string(&chars, a, b));
            assert(string_views(tickers@) =~= before.push(
                ascii_upper(chars@.subrange(a as int, b as int)),
            ));
        }
        i = i + 1;
    }
    assert(ls.take(i as int) =~= ls);
    if tickers.len() == 0 {
        return Err(LibraryError::EmptyTickersError("ticker file contains no tickers".to_owned()));
    }
    Ok(tickers)
}

} // verus!

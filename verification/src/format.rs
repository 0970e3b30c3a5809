//! The three file formats: CSV, text and binary.
use crate::decimal::{
    i64_from_text, i64_parse_error_text, int_text, nat_text, parse_i64, push_i64_text,
    push_u128_text,
};
use crate::error::{LibraryError, LibraryErrorView};
use crate::model::{kind_text, views, Transaction, TransactionKind, TransactionView};
use crate::text::{
    chars_of, decode_utf8_bytes, lines_of, lowered, pieces_of, push_char, sep_pred, split_bounds,
    split_by, split_lines, string_from, to_lowercase, trim, trim_bounds, utf8_error_text,
    Separator,
};
use vstd::bytes::{spec_u32_from_le_bytes, spec_u32_to_le_bytes, spec_u64_from_le_bytes, spec_u64_to_le_bytes};
use vstd::prelude::*;
use vstd::utf8::{decode_utf8, encode_utf8, valid_utf8};

verus! {

/// The formats that transactions can be read from and written to.
#[derive(Clone, Copy, Debug, Eq, PartialEq, Structural)]
pub enum Format {
    Csv,
    Text,
    Bin,
}

/// The format with the given (already lower-cased) name.
pub open spec fn format_named(name: Seq<char>) -> Option<Format> {
    if name == "csv"@ {
        Some(Format::Csv)
    } else if name == "text"@ {
        Some(Format::Text)
    } else if name == "bin"@ {
        Some(Format::Bin)
    } else {
        None
    }
}

impl Format {
    /// The format named `value` (`csv`, `text` or `bin`, in any case).
    pub fn parse(value: &str) -> (r: Result<Self, LibraryError>)
        ensures
            match format_named(lowered(value@)) {
                Some(f) => r matches Ok(g) && g == f,
                None => r matches Err(e) && e@ == LibraryErrorView::Format(
                    "Unknown format: "@ + lowered(value@),
                ),
            },
    {
        let lower_name = to_lowercase(value);
        if lower_name == "csv".to_owned() {
            Ok(Format::Csv)
        } else if lower_name == "text".to_owned() {
            Ok(Format::Text)
        } else if lower_name == "bin".to_owned() {
            Ok(Format::Bin)
        } else {
            let mut m = "Unknown format: ".to_owned();
            m.append(lower_name.as_str());
            Err(LibraryError::FormatError(m))
        }
    }
}

/// The abstract value of the result of a reader.
pub open spec fn list_result(r: Result<Vec<Transaction>, LibraryError>) -> Result<
    Seq<TransactionView>,
    LibraryErrorView,
> {
    match r {
        Ok(v) => Ok(views(v@)),
        Err(e) => Err(e@),
    }
}

/// The byte views of a list of lines.
pub open spec fn line_views(lines: Seq<Vec<u8>>) -> Seq<Seq<u8>> {
    lines.map_values(|l: Vec<u8>| l@)
}

/* Text records */

/// The kind written as `word`.
pub open spec fn kind_named(word: Seq<char>) -> Option<TransactionKind> {
    if word == "income"@ {
        Some(TransactionKind::Income)
    } else if word == "expense"@ {
        Some(TransactionKind::Expense)
    } else {
        None
    }
}

/// The fields of a record line: the trimmed line split at `sep`, each
/// piece trimmed.
pub open spec fn fields_of(text: Seq<char>, sep: char) -> Seq<Seq<char>> {
    split_by(trim(text), sep_pred(Separator::Char(sep))).map_values(|p: Seq<char>| trim(p))
}

/// The error for a line that is not UTF-8, as reading lines reports it.
pub open spec fn not_utf8_error() -> LibraryErrorView {
    LibraryErrorView::InputOutput("stream did not contain valid UTF-8"@)
}

/// The text of a line, lower-cased when `lower`.
pub open spec fn line_text(line: Seq<u8>, lower: bool) -> Seq<char> {
    if lower {
        lowered(decode_utf8(line))
    } else {
        decode_utf8(line)
    }
}

/// The message for a record line without exactly four fields.
pub open spec fn field_count_message(no: nat, count: nat) -> Seq<char> {
    "Line "@ + nat_text(no) + ": expected 4 fields, got "@ + nat_text(count)
}

/// The message for a record whose kind is neither `income` nor `expense`.
pub open spec fn unknown_kind_message(no: nat, word: Seq<char>) -> Seq<char> {
    "Line "@ + nat_text(no) + ": unknown operation "@ + word
}

/// The message for a record whose amount is not an `i64`.
pub open spec fn bad_amount_message(no: nat, text: Seq<char>) -> Seq<char> {
    "Line "@ + nat_text(no) + ": invalid amount '"@ + text + "': "@ + i64_parse_error_text(text)
}

/// What reading the record on line number `no` gives.
pub open spec fn record_result(line: Seq<u8>, no: nat, sep: char, lower: bool) -> Result<
    TransactionView,
    LibraryErrorView,
> {
    if !valid_utf8(line) {
        Err(not_utf8_error())
    } else {
        let f = fields_of(line_text(line, lower), sep);
        if f.len() != 4 {
            Err(LibraryErrorView::Parse(field_count_message(no, f.len())))
        } else {
            match kind_named(f[2]) {
                None => Err(LibraryErrorView::Parse(unknown_kind_message(no, f[2]))),
                Some(kind) => match i64_from_text(f[3]) {
                    Some(amount) => Ok(
                        TransactionView { date: f[0], category: f[1], kind, amount },
                    ),
                    None => Err(LibraryErrorView::Parse(bad_amount_message(no, f[3]))),
                },
            }
        }
    }
}

/// What reading the record lines `lines` gives, the first of them being
/// line number `first_no`: the records in order, or the first error.
pub open spec fn records_result(lines: Seq<Seq<u8>>, first_no: nat, sep: char, lower: bool) -> Result<
    Seq<TransactionView>,
    LibraryErrorView,
>
    decreases lines.len(),
{
    if lines.len() == 0 {
        Ok(Seq::empty())
    } else {
        match records_result(lines.drop_last(), first_no, sep, lower) {
            Err(e) => Err(e),
            Ok(ts) => match record_result(
                lines.last(),
                (first_no + lines.len() - 1) as nat,
                sep,
                lower,
            ) {
                Err(e) => Err(e),
                Ok(t) => Ok(ts.push(t)),
            },
        }
    }
}

/// The header line of the CSV format.
pub open spec fn csv_header() -> Seq<char> {
    "date,category,kind,amount"@
}

/// What reading CSV gives (`lower`: records are lower-cased first).
pub open spec fn csv_result(bytes: Seq<u8>, lower: bool) -> Result<
    Seq<TransactionView>,
    LibraryErrorView,
> {
    let ls = lines_of(bytes);
    if ls.len() == 0 {
        Err(LibraryErrorView::Parse("CSV header is missing"@))
    } else if !valid_utf8(ls[0]) {
        Err(not_utf8_error())
    } else if lowered(trim(decode_utf8(ls[0]))) != csv_header() {
        Err(LibraryErrorView::Parse("Invalid CSV header: "@ + decode_utf8(ls[0])))
    } else {
        records_result(ls.skip(1), 2, ',', lower)
    }
}

/// What reading the text format gives (`lower`: records are lower-cased first).
pub open spec fn text_result(bytes: Seq<u8>, lower: bool) -> Result<
    Seq<TransactionView>,
    LibraryErrorView,
> {
    records_result(lines_of(bytes), 1, ';', lower)
}

/// Reads the record on one line.
fn read_record(line: &Vec<u8>, no: u128, sep: char, lower: bool) -> (r: Result<
    Transaction,
    LibraryError,
>)
    ensures
        match r {
            Ok(t) => record_result(line@, no as nat, sep, lower) == Ok::<
                TransactionView,
                LibraryErrorView,
            >(t@),
            Err(e) => record_result(line@, no as nat, sep, lower) == Err::<
                TransactionView,
                LibraryErrorView,
            >(e@),
        },
{
    let decoded = match decode_utf8_bytes(line.as_slice()) {
        Ok(s) => s,
        Err(_) => {
            return Err(LibraryError::InputOutputError("stream did not contain valid UTF-8".to_owned()));
        },
    };
    let text = if lower {
        to_lowercase(decoded.as_str())
    } else {
        decoded
    };
    let chars = chars_of(text.as_str());
    assert(chars@ == line_text(line@, lower));
    let (a, b) = trim_bounds(&chars, 0, chars.len());
    assert(chars@.subrange(0, chars@.len() as int) =~= chars@);
    let parts = split_bounds(&chars, a, b, Separator::Char(sep));
    let ghost f = fields_of(chars@, sep);
    assert(f.len() == parts@.len());
    if parts.len() != 4 {
        let mut m = "Line ".to_owned();
        push_u128_text(&mut m, no);
        m.append(": expected 4 fields, got ");
        push_u128_text(&mut m, parts.len() as u128);
        return Err(LibraryError::ParseError(m));
    }
    assert(forall|k: int| 0 <= k < 4 ==> #[trigger] f[k] == trim(pieces_of(chars@, parts@)[k]));
    let (d0, d1) = trim_bounds(&chars, parts[0].0, parts[0].1);
    let (c0, c1) = trim_bounds(&chars, parts[1].0, parts[1].1);
    let (k0, k1) = trim_bounds(&chars, parts[2].0, parts[2].1);
    let (a0, a1) = trim_bounds(&chars, parts[3].0, parts[3].1);
    let word = string_from(&chars, k0, k1);
    assert(word@ == f[2]);
    let kind = if word == "income".to_owned() {
        TransactionKind::Income
    } else if word == "expense".to_owned() {
        TransactionKind::Expense
    } else {
        let mut m = "Line ".to_owned();
        push_u128_text(&mut m, no);
        m.append(": unknown operation ");
        m.append(word.as_str());
        return Err(LibraryError::ParseError(m));
    };
    let amount_text = string_from(&chars, a0, a1);
    assert(amount_text@ == f[3]);
    let amount = match parse_i64(amount_text.as_str()) {
        Ok(v) => v,
        Err(err) => {
            let mut m = "Line ".to_owned();
            push_u128_text(&mut m, no);
            m.append(": invalid amount '");
            m.append(amount_text.as_str());
            m.append("': ");
            m.append(err.as_str());
            return Err(LibraryError::ParseError(m));
        },
    };
    let date = string_from(&chars, d0, d1);
    let category = string_from(&chars, c0, c1);
    assert(date@ == f[0]);
    assert(category@ == f[1]);
    Ok(Transaction { date, category, kind, amount })
}

/// Reads the records on `lines[start..]`, the first being line number `first_no`.
fn read_records(lines: &Vec<Vec<u8>>, start: usize, first_no: usize, sep: char, lower: bool) -> (r:
    Result<Vec<Transaction>, LibraryError>)
    requires
        start <= lines@.len(),
        first_no <= 2,
    ensures
        list_result(r) == records_result(
            line_views(lines@).skip(start as int),
            first_no as nat,
            sep,
            lower,
        ),
{
    let ghost all = line_views(lines@).skip(start as int);
    let mut out: Vec<Transaction> = Vec::new();
    let mut i = start;
    assert(all.take(0) =~= Seq::<Seq<u8>>::empty());
    assert(views(out@) =~= Seq::<TransactionView>::empty());
    while i < lines.len()
        invariant
            start <= i <= lines@.len(),
            first_no <= 2,
            all == line_views(lines@).skip(start as int),
            records_result(all.take(i - start), first_no as nat, sep, lower) == Ok::<
                Seq<TransactionView>,
                LibraryErrorView,
            >(views(out@)),
        decreases lines@.len() - i,
    {
        let ghost prefix = all.take(i + 1 - start);
        assert(prefix.drop_last() =~= all.take(i - start));
        assert(prefix.last() == lines@[i as int]@);
        let no: u128 = first_no as u128 + (i - start) as u128;
        match read_record(&lines[i], no, sep, lower) {
            Ok(t) => {
                let ghost before = views(out@);
                out.push(t);
                assert(views(out@) =~= before.push(t@));
                assert(prefix.len() == i + 1 - start);
                assert(records_result(prefix, first_no as nat, sep, lower) == Ok::<
                    Seq<TransactionView>,
                    LibraryErrorView,
                >(before.push(t@)));
            },
            Err(e) => {
                assert(all =~= all.take(all.len() as int));
                proof {
                    lemma_records_error_prefix(all, (i + 1 - start) as nat, first_no as nat, sep, lower);
                }
                return Err(e);
            },
        }
        i = i + 1;
    }
    assert(all.take(i - start) =~= all);
    Ok(out)
}

/// An error in the records of a prefix is the error of the whole list.
proof fn lemma_records_error_prefix(lines: Seq<Seq<u8>>, n: nat, first_no: nat, sep: char, lower: bool)
    requires
        n <= lines.len(),
        records_result(lines.take(n as int), first_no, sep, lower) is Err,
    ensures
        records_result(lines, first_no, sep, lower) == records_result(
            lines.take(n as int),
            first_no,
            sep,
            lower,
        ),
    decreases lines.len() - n,
{
    if n < lines.len() {
        assert(lines.take(n + 1 as int).drop_last() =~= lines.take(n as int));
        lemma_records_error_prefix(lines, (n + 1) as nat, first_no, sep, lower);
    } else {
        assert(lines.take(n as int) =~= lines);
    }
}

/// Reads CSV: a header line, then one record per line (`lower`: each
/// record line is lower-cased before it is read).
pub(crate) fn read_csv_records(input: &[u8], lower: bool) -> (r: Result<Vec<Transaction>, LibraryError>)
    ensures
        list_result(r) == csv_result(input@, lower),
{
    let lines = split_lines(input);
    assert(line_views(lines@) =~= lines_of(input@));
    if lines.len() == 0 {
        return Err(LibraryError::ParseError("CSV header is missing".to_owned()));
    }
    let header = match decode_utf8_bytes(lines[0].as_slice()) {
        Ok(h) => h,
        Err(_) => {
            return Err(LibraryError::InputOutputError("stream did not contain valid UTF-8".to_owned()));
        },
    };
    let chars = chars_of(header.as_str());
    let (a, b) = trim_bounds(&chars, 0, chars.len());
    assert(chars@.subrange(0, chars@.len() as int) =~= chars@);
    let trimmed = string_from(&chars, a, b);
    let lower_name = to_lowercase(trimmed.as_str());
    if !(lower_name == "date,category,kind,amount".to_owned()) {
        let mut m = "Invalid CSV header: ".to_owned();
        m.append(header.as_str());
        return Err(LibraryError::ParseError(m));
    }
    read_records(&lines, 1, 2, ',', lower)
}

/// Reads the text format: one record per line (`lower`: each line is
/// lower-cased before it is read).
pub(crate) fn read_text_records(input: &[u8], lower: bool) -> (r: Result<Vec<Transaction>, LibraryError>)
    ensures
        list_result(r) == text_result(input@, lower),
{
    let lines = split_lines(input);
    assert(line_views(lines@) =~= lines_of(input@));
    assert(line_views(lines@).skip(0) =~= line_views(lines@));
    read_records(&lines, 0, 1, ';', lower)
}

/// Reads transactions from CSV; each record line is lower-cased first.
pub fn read_csv(input: &[u8]) -> (r: Result<Vec<Transaction>, LibraryError>)
    ensures
        list_result(r) == csv_result(input@, true),
{
    read_csv_records(input, true)
}

/// Reads transactions from the text format; each line is lower-cased first.
pub fn read_text(input: &[u8]) -> (r: Result<Vec<Transaction>, LibraryError>)
    ensures
        list_result(r) == text_result(input@, true),
{
    read_text_records(input, true)
}

/// The line that writes one record, its fields joined by `sep`.
pub open spec fn record_line(t: TransactionView, sep: char) -> Seq<char> {
    t.date + seq![sep] + t.category + seq![sep] + kind_text(t.kind) + seq![sep] + int_text(
        t.amount as int,
    ) + seq!['\n']
}

/// The lines that write a list of records.
pub open spec fn records_text(ts: Seq<TransactionView>, sep: char) -> Seq<char>
    decreases ts.len(),
{
    if ts.len() == 0 {
        Seq::empty()
    } else {
        records_text(ts.drop_last(), sep) + record_line(ts.last(), sep)
    }
}

/// The CSV text of a list of records.
pub open spec fn csv_text(ts: Seq<TransactionView>) -> Seq<char> {
    csv_header() + seq!['\n'] + records_text(ts, ',')
}

/// The text-format text of a list of records.
pub open spec fn plain_text(ts: Seq<TransactionView>) -> Seq<char> {
    records_text(ts, ';')
}

/// Appends the lines of `ts` to `s`.
fn push_records(s: &mut String, ts: &[Transaction], sep: char)
    ensures
        final(s)@ == old(s)@ + records_text(views(ts@), sep),
{
    let ghost base = s@;
    let mut i: usize = 0;
    assert(views(ts@).take(0) =~= Seq::<TransactionView>::empty());
    assert(s@ =~= base + records_text(views(ts@).take(0), sep));
    while i < ts.len()
        invariant
            i <= ts@.len(),
            s@ == base + records_text(views(ts@).take(i as int), sep),
        decreases ts@.len() - i,
    {
        let t = &ts[i];
        s.append(t.date.as_str());
        push_char(s, sep);
        s.append(t.category.as_str());
        push_char(s, sep);
        s.append(t.kind.as_str());
        push_char(s, sep);
        push_i64_text(s, t.amount);
        push_char(s, '\n');
        assert(views(ts@).take(i + 1).drop_last() =~= views(ts@).take(i as int));
        assert(views(ts@).take(i + 1).last() == t@);
        assert(s@ =~= base + records_text(views(ts@).take(i + 1), sep));
        i = i + 1;
    }
    assert(views(ts@).take(i as int) =~= views(ts@));
}

/// The UTF-8 bytes of a string.
fn string_bytes(s: &String) -> (b: Vec<u8>)
    ensures
        b@ == encode_utf8(s@),
{
    vstd::slice::slice_to_vec(s.as_str().as_bytes())
}

/// Writes transactions as CSV: the header line, then one line per record.
pub fn write_csv(transactions: &[Transaction]) -> (r: Vec<u8>)
    ensures
        r@ == encode_utf8(csv_text(views(transactions@))),
{
    let mut s = "date,category,kind,amount".to_owned();
    push_char(&mut s, '\n');
    push_records(&mut s, transactions, ',');
    assert(s@ =~= csv_text(views(transactions@)));
    string_bytes(&s)
}

/// Writes transactions in the text format: one line per record.
pub fn write_text(transactions: &[Transaction]) -> (r: Vec<u8>)
    ensures
        r@ == encode_utf8(plain_text(views(transactions@))),
{
    let mut s = String::new();
    push_records(&mut s, transactions, ';');
    assert(s@ =~= plain_text(views(transactions@)));
    string_bytes(&s)
}

/* Binary format */

/// The first four bytes of the binary format: ASCII `YPB1`.
pub open spec fn magic() -> Seq<u8> {
    seq![89u8, 80u8, 66u8, 49u8]
}

/// The error for input that ends in the middle of a value.
pub open spec fn eof_error() -> LibraryErrorView {
    LibraryErrorView::InputOutput("failed to fill whole buffer"@)
}

/// The little-endian `u32` at `pos`.
pub open spec fn u32_at(b: Seq<u8>, pos: int) -> u32 {
    spec_u32_from_le_bytes(b.subrange(pos, pos + 4))
}

/// The little-endian 64-bit value at `pos`, read as an `i64`.
pub open spec fn i64_at(b: Seq<u8>, pos: int) -> i64 {
    spec_u64_from_le_bytes(b.subrange(pos, pos + 8)) as i64
}

/// What reading a length-prefixed string at `pos` gives: the text and the
/// position after it.
pub open spec fn bin_string(b: Seq<u8>, pos: int) -> Result<(Seq<char>, int), LibraryErrorView> {
    if pos + 4 > b.len() {
        Err(eof_error())
    } else {
        let n = u32_at(b, pos);
        if pos + 4 + n > b.len() {
            Err(eof_error())
        } else {
            let raw = b.subrange(pos + 4, pos + 4 + n);
            if valid_utf8(raw) {
                Ok((decode_utf8(raw), pos + 4 + n))
            } else {
                Err(
                    LibraryErrorView::Parse(
                        "Invalid UTF-8 string in binary data: "@ + utf8_error_text(raw),
                    ),
                )
            }
        }
    }
}

/// The kind that a kind byte stands for.
pub open spec fn kind_of_byte(byte: u8) -> Option<TransactionKind> {
    if byte == 1 {
        Some(TransactionKind::Income)
    } else if byte == 2 {
        Some(TransactionKind::Expense)
    } else {
        None
    }
}

/// The byte that stands for a kind.
pub open spec fn kind_byte(k: TransactionKind) -> u8 {
    match k {
        TransactionKind::Income => 1u8,
        TransactionKind::Expense => 2u8,
    }
}

/// The message for a binary record whose kind byte is neither 1 nor 2.
pub open spec fn unknown_kind_byte_message(number: nat, byte: u8) -> Seq<char> {
    "Transaction "@ + nat_text(number) + ": unknown kind byte: "@ + nat_text(byte as nat)
}

/// What reading the record at `pos`, the record with index `index`, gives:
/// the record and the position after it.
pub open spec fn bin_record(b: Seq<u8>, pos: int, index: nat) -> Result<
    (TransactionView, int),
    LibraryErrorView,
> {
    match bin_string(b, pos) {
        Err(e) => Err(e),
        Ok((date, p1)) => match bin_string(b, p1) {
            Err(e) => Err(e),
            Ok((category, p2)) => if p2 + 1 > b.len() {
                Err(eof_error())
            } else {
                match kind_of_byte(b[p2]) {
                    None => Err(
                        LibraryErrorView::Parse(unknown_kind_byte_message(index + 1, b[p2])),
                    ),
                    Some(kind) => if p2 + 9 > b.len() {
                        Err(eof_error())
                    } else {
                        Ok(
                            (
                                TransactionView { date, category, kind, amount: i64_at(b, p2 + 1) },
                                p2 + 9,
                            ),
                        )
                    },
                }
            },
        },
    }
}

/// `prefix` put in front of the records of a result.
pub open spec fn with_prefix(prefix: Seq<TransactionView>, r: Result<Seq<TransactionView>, LibraryErrorView>) -> Result<
    Seq<TransactionView>,
    LibraryErrorView,
> {
    match r {
        Ok(ts) => Ok(prefix + ts),
        Err(e) => Err(e),
    }
}

/// What reading `count` records from `pos` gives, the first having index `index`.
pub open spec fn bin_records(b: Seq<u8>, pos: int, count: nat, index: nat) -> Result<
    Seq<TransactionView>,
    LibraryErrorView,
>
    decreases count,
{
    if count == 0 {
        Ok(Seq::empty())
    } else {
        match bin_record(b, pos, index) {
            Err(e) => Err(e),
            Ok((t, next)) => with_prefix(
                seq![t],
                bin_records(b, next, (count - 1) as nat, index + 1),
            ),
        }
    }
}

/// What reading the binary format gives.
pub open spec fn bin_result(b: Seq<u8>) -> Result<Seq<TransactionView>, LibraryErrorView> {
    if b.len() < 4 {
        Err(eof_error())
    } else if b.subrange(0, 4) != magic() {
        Err(LibraryErrorView::Format("Invalid binary header"@))
    } else if b.len() < 8 {
        Err(eof_error())
    } else {
        bin_records(b, 8, u32_at(b, 4) as nat, 0)
    }
}

/// The error value for input that ends too early.
fn eof() -> (e: LibraryError)
    ensures
        e@ == eof_error(),
{
    LibraryError::InputOutputError("failed to fill whole buffer".to_owned())
}

/// Reads a length-prefixed UTF-8 string at `pos`.
fn read_string(b: &[u8], pos: usize) -> (r: Result<(String, usize), LibraryError>)
    requires
        pos <= b@.len(),
    ensures
        match r {
            Ok((s, next)) => bin_string(b@, pos as int) == Ok::<
                (Seq<char>, int),
                LibraryErrorView,
            >((s@, next as int)) && next <= b@.len(),
            Err(e) => bin_string(b@, pos as int) == Err::<(Seq<char>, int), LibraryErrorView>(
                e@,
            ),
        },
{
    if b.len() - pos < 4 {
        return Err(eof());
    }
    let n = vstd::bytes::u32_from_le_bytes(vstd::slice::slice_subrange(b, pos, pos + 4));
    let start = pos + 4;
    if b.len() - start < n as usize {
        return Err(eof());
    }
    let end = start + n as usize;
    let raw = vstd::slice::slice_subrange(b, start, end);
    match decode_utf8_bytes(raw) {
        Ok(s) => Ok((s, end)),
        Err(err) => {
            let mut m = "Invalid UTF-8 string in binary data: ".to_owned();
            m.append(err.as_str());
            Err(LibraryError::ParseError(m))
        },
    }
}

/// Reads the record at `pos`, whose index is `index`.
fn read_bin_record(b: &[u8], pos: usize, index: u32) -> (r: Result<(Transaction, usize), LibraryError>)
    requires
        pos <= b@.len(),
    ensures
        match r {
            Ok((t, next)) => bin_record(b@, pos as int, index as nat) == Ok::<
                (TransactionView, int),
                LibraryErrorView,
            >((t@, next as int)) && next <= b@.len(),
            Err(e) => bin_record(b@, pos as int, index as nat) == Err::<
                (TransactionView, int),
                LibraryErrorView,
            >(e@),
        },
{
    let (date, p1) = match read_string(b, pos) {
        Ok(x) => x,
        Err(e) => return Err(e),
    };
    let (category, p2) = match read_string(b, p1) {
        Ok(x) => x,
        Err(e) => return Err(e),
    };
    if b.len() - p2 < 1 {
        return Err(eof());
    }
    let byte = b[p2];
    let kind = if byte == 1 {
        TransactionKind::Income
    } else if byte == 2 {
        TransactionKind::Expense
    } else {
        let mut m = "Transaction ".to_owned();
        push_u128_text(&mut m, index as u128 + 1);
        m.append(": unknown kind byte: ");
        push_u128_text(&mut m, byte as u128);
        return Err(LibraryError::ParseError(m));
    };
    if b.len() - p2 < 9 {
        return Err(eof());
    }
    let raw = vstd::bytes::u64_from_le_bytes(vstd::slice::slice_subrange(b, p2 + 1, p2 + 9));
    let amount = raw as i64;
    Ok((Transaction { date, category, kind, amount }, p2 + 9))
}

/// Reads transactions from the binary format.
pub fn read_bin(input: &[u8]) -> (r: Result<Vec<Transaction>, LibraryError>)
    ensures
        list_result(r) == bin_result(input@),
{
    if input.len() < 4 {
        return Err(eof());
    }
    if !(input[0] == 89u8 && input[1] == 80u8 && input[2] == 66u8 && input[3] == 49u8) {
        assert(input@.subrange(0, 4) != magic()) by {
            if input@.subrange(0, 4) == magic() {
                assert(input@.subrange(0, 4)[0] == input@[0]);
                assert(input@.subrange(0, 4)[1] == input@[1]);
                assert(input@.subrange(0, 4)[2] == input@[2]);
                assert(input@.subrange(0, 4)[3] == input@[3]);
            }
        }
        return Err(LibraryError::FormatError("Invalid binary header".to_owned()));
    }
    assert(input@.subrange(0, 4) =~= magic());
    if input.len() < 8 {
        return Err(eof());
    }
    let count = vstd::bytes::u32_from_le_bytes(vstd::slice::slice_subrange(input, 4, 8));
    let ghost whole = bin_result(input@);
    assert(whole == bin_records(input@, 8, count as nat, 0));
    let mut out: Vec<Transaction> = Vec::new();
    let mut pos: usize = 8;
    let mut index: u32 = 0;
    assert(with_prefix(views(out@), bin_records(input@, 8, count as nat, 0)) == whole) by {
        assert(views(out@) =~= Seq::<TransactionView>::empty());
        match bin_records(input@, 8, count as nat, 0) {
            Ok(ts) => assert(Seq::<TransactionView>::empty() + ts =~= ts),
            Err(_) => {},
        }
    }
    while index < count
        invariant
            index <= count,
            pos <= input@.len(),
            whole == bin_result(input@),
            with_prefix(views(out@), bin_records(input@, pos as int, (count - index) as nat, index as nat))
                == whole,
        decreases count - index,
    {
        let ghost rest = bin_records(input@, pos as int, (count - index) as nat, index as nat);
        match read_bin_record(input, pos, index) {
            Ok((t, next)) => {
                let ghost tail = bin_records(input@, next as int, (count - index - 1) as nat, (index + 1) as nat);
                assert(rest == with_prefix(seq![t@], tail));
                let ghost before = views(out@);
                out.push(t);
                assert(views(out@) =~= before + seq![t@]);
                proof {
                    match tail {
                        Ok(ts) => assert(before + seq![t@] + ts =~= before + (seq![t@] + ts)),
                        Err(_) => {},
                    }
                }
                pos = next;
            },
            Err(e) => {
                return Err(e);
            },
        }
        index = index + 1;
    }
    assert(bin_records(input@, pos as int, 0, index as nat) == Ok::<Seq<TransactionView>, LibraryErrorView>(Seq::empty()));
    assert(views(out@) + Seq::<TransactionView>::empty() =~= views(out@));
    Ok(out)
}

/// The bytes that write a string: its UTF-8 length as a little-endian
/// `u32`, then its UTF-8 bytes.
pub open spec fn string_record(s: Seq<char>) -> Seq<u8> {
    spec_u32_to_le_bytes(encode_utf8(s).len() as u32) + encode_utf8(s)
}

/// The bytes that write one record.
pub open spec fn record_bytes(t: TransactionView) -> Seq<u8> {
    string_record(t.date) + string_record(t.category) + seq![kind_byte(t.kind)]
        + spec_u64_to_le_bytes(t.amount as u64)
}

/// The bytes that write a list of records.
pub open spec fn records_bytes(ts: Seq<TransactionView>) -> Seq<u8>
    decreases ts.len(),
{
    if ts.len() == 0 {
        Seq::empty()
    } else {
        records_bytes(ts.drop_last()) + record_bytes(ts.last())
    }
}

/// The binary form of a list of records: the magic, the count as a
/// little-endian `u32`, then the records.
pub open spec fn bin_bytes(ts: Seq<TransactionView>) -> Seq<u8> {
    magic() + spec_u32_to_le_bytes(ts.len() as u32) + records_bytes(ts)
}

/// Appends the binary form of a string to `out`.
fn write_string(out: &mut Vec<u8>, value: &String)
    ensures
        final(out)@ == old(out)@ + string_record(value@),
{
    let mut bytes = string_bytes(value);
    let mut len = vstd::bytes::u32_to_le_bytes(bytes.len() as u32);
    out.append(&mut len);
    out.append(&mut bytes);
    assert(out@ =~= old(out)@ + string_record(value@));
}

/// Writes transactions in the binary format.
pub fn write_bin(transactions: &[Transaction]) -> (r: Vec<u8>)
    ensures
        r@ == bin_bytes(views(transactions@)),
{
    let mut out: Vec<u8> = Vec::new();
    out.push(89u8);
    out.push(80u8);
    out.push(66u8);
    out.push(49u8);
    let mut count = vstd::bytes::u32_to_le_bytes(transactions.len() as u32);
    out.append(&mut count);
    let ghost head = out@;
    assert(head =~= magic() + spec_u32_to_le_bytes(transactions@.len() as u32));
    let mut i: usize = 0;
    assert(views(transactions@).take(0) =~= Seq::<TransactionView>::empty());
    assert(out@ =~= head + records_bytes(views(transactions@).take(0)));
    while i < transactions.len()
        invariant
            i <= transactions@.len(),
            head == magic() + spec_u32_to_le_bytes(transactions@.len() as u32),
            out@ == head + records_bytes(views(transactions@).take(i as int)),
        decreases transactions@.len() - i,
    {
        let t = &transactions[i];
        let ghost before = out@;
        write_string(&mut out, &t.date);
        write_string(&mut out, &t.category);
        match t.kind {
            TransactionKind::Income => out.push(1u8),
            TransactionKind::Expense => out.push(2u8),
        }
        let mut amount = vstd::bytes::u64_to_le_bytes(t.amount as u64);
        out.append(&mut amount);
        assert(out@ =~= before + record_bytes(t@));
        assert(views(transactions@).take(i + 1).drop_last() =~= views(transactions@).take(i as int));
        assert(views(transactions@).take(i + 1).last() == t@);
        assert(out@ =~= head + records_bytes(views(transactions@).take(i + 1)));
        i = i + 1;
    }
    assert(views(transactions@).take(i as int) =~= views(transactions@));
    out
}

} // verus!

//! What the formats promise across calls: reading back what was written.
use crate::format::{
    bin_bytes, bin_record, bin_records, bin_result, bin_string, i64_at, kind_byte, kind_of_byte,
    magic, record_bytes, records_bytes, string_record, u32_at,
};
use crate::model::{DifferenceView, TransactionKind, TransactionView};
use crate::{field_difference, first_difference, read_result, written_bytes, Format};
use vstd::utf8::{decode_utf8, valid_utf8};
use vstd::bytes::{
    lemma_auto_spec_u32_to_from_le_bytes, lemma_auto_spec_u64_to_from_le_bytes,
    spec_u32_to_le_bytes, spec_u64_to_le_bytes,
};
use vstd::prelude::*;
use crate::decimal::{
    all_digits, digit_char, digits_value, i64_from_text, int_text, is_digit,
    nat_text,
};
use crate::format::{
    csv_header, csv_result, csv_text, fields_of, kind_named, line_text, plain_text, record_line,
    record_result, records_result, records_text, text_result,
};
use crate::model::kind_text;
use crate::text::{
    ascii_lower_char, is_white, lines_of, lowered, newline_pred, sep_pred, split_by, strip_cr,
    trim, trim_end, trim_start, Separator,
};
use vstd::utf8::{
    encode_scalar, encode_utf8, encode_utf8_decode_utf8, encode_utf8_valid_utf8, has_width_1_encoding,
    has_width_2_encoding, has_width_3_encoding, is_scalar,
    leading_byte_width_1, leading_byte_width_2, leading_byte_width_3, leading_byte_width_4,
    last_continuation_byte, second_last_continuation_byte, third_last_continuation_byte,
    char_is_scalar,
};

verus! {

/// The records fit the binary format: no more than `u32::MAX` of them, and
/// no date or category longer than `u32::MAX` bytes in UTF-8.
pub open spec fn fits_bin(ts: Seq<TransactionView>) -> bool {
    &&& ts.len() <= u32::MAX
    &&& forall|i: int|
        0 <= i < ts.len() ==> encode_utf8(#[trigger] ts[i].date).len() <= u32::MAX
            && encode_utf8(ts[i].category).len() <= u32::MAX
}

/// `b` holds `x` at `pos`.
pub open spec fn holds_at(b: Seq<u8>, pos: int, x: Seq<u8>) -> bool {
    0 <= pos && pos + x.len() <= b.len() && b.subrange(pos, pos + x.len()) == x
}

/// Bytes held at a position split into their two parts.
proof fn lemma_holds_split(b: Seq<u8>, pos: int, x: Seq<u8>, y: Seq<u8>)
    requires
        holds_at(b, pos, x + y),
    ensures
        holds_at(b, pos, x),
        holds_at(b, pos + x.len(), y),
{
    let whole = b.subrange(pos, pos + x.len() + y.len());
    assert(whole == x + y);
    assert(b.subrange(pos, pos + x.len()) =~= whole.subrange(0, x.len() as int));
    assert(whole.subrange(0, x.len() as int) =~= x);
    assert(b.subrange(pos + x.len(), pos + x.len() + y.len()) =~= whole.subrange(
        x.len() as int,
        whole.len() as int,
    ));
    assert(whole.subrange(x.len() as int, whole.len() as int) =~= y);
}

/// A written string reads back as itself.
proof fn lemma_bin_string_back(b: Seq<u8>, pos: int, s: Seq<char>)
    requires
        holds_at(b, pos, string_record(s)),
        encode_utf8(s).len() <= u32::MAX,
    ensures
        bin_string(b, pos) == Ok::<(Seq<char>, int), crate::error::LibraryErrorView>(
            (s, pos + string_record(s).len()),
        ),
{
    let e = encode_utf8(s);
    lemma_auto_spec_u32_to_from_le_bytes();
    let head = spec_u32_to_le_bytes(e.len() as u32);
    lemma_holds_split(b, pos, head, e);
    assert(u32_at(b, pos) == e.len());
    encode_utf8_valid_utf8(s);
    encode_utf8_decode_utf8(s);
}

/// A written binary record reads back as itself.
proof fn lemma_bin_record_back(b: Seq<u8>, pos: int, t: TransactionView, index: nat)
    requires
        holds_at(b, pos, record_bytes(t)),
        encode_utf8(t.date).len() <= u32::MAX,
        encode_utf8(t.category).len() <= u32::MAX,
    ensures
        bin_record(b, pos, index) == Ok::<(TransactionView, int), crate::error::LibraryErrorView>(
            (t, pos + record_bytes(t).len()),
        ),
{
    let d = string_record(t.date);
    let c = string_record(t.category);
    let k = seq![kind_byte(t.kind)];
    let a = spec_u64_to_le_bytes(t.amount as u64);
    assert(record_bytes(t) == d + c + k + a);
    assert(d + c + k + a =~= d + (c + (k + a)));
    lemma_holds_split(b, pos, d, c + (k + a));
    lemma_holds_split(b, pos + d.len(), c, k + a);
    lemma_holds_split(b, pos + d.len() + c.len(), k, a);
    lemma_bin_string_back(b, pos, t.date);
    lemma_bin_string_back(b, pos + d.len(), t.category);
    let p2 = pos + d.len() + c.len();
    assert(b[p2] == kind_byte(t.kind)) by {
        assert(b.subrange(p2, p2 + 1)[0] == b[p2]);
    }
    assert(kind_of_byte(b[p2]) == Some(t.kind));
    lemma_auto_spec_u64_to_from_le_bytes();
    let x = t.amount;
    assert((x as u64) as i64 == x) by (bit_vector);
    assert(i64_at(b, p2 + 1) == t.amount);
}

/// The bytes of a list of records start with those of its first record.
proof fn lemma_records_bytes_front(ts: Seq<TransactionView>)
    requires
        ts.len() > 0,
    ensures
        records_bytes(ts) == record_bytes(ts[0]) + records_bytes(ts.drop_first()),
    decreases ts.len(),
{
    if ts.len() == 1 {
        assert(ts.drop_first() =~= Seq::<TransactionView>::empty());
        assert(ts.drop_last() =~= Seq::<TransactionView>::empty());
        assert(records_bytes(ts) =~= record_bytes(ts[0]) + records_bytes(ts.drop_first()));
    } else {
        lemma_records_bytes_front(ts.drop_last());
        assert(ts.drop_first().drop_last() =~= ts.drop_last().drop_first());
        assert(ts.drop_first().last() == ts.last());
        assert(records_bytes(ts) =~= record_bytes(ts[0]) + records_bytes(ts.drop_first()));
    }
}

/// Written binary records read back as themselves.
proof fn lemma_bin_records_back(b: Seq<u8>, pos: int, ts: Seq<TransactionView>, index: nat)
    requires
        holds_at(b, pos, records_bytes(ts)),
        forall|i: int|
            0 <= i < ts.len() ==> encode_utf8(#[trigger] ts[i].date).len() <= u32::MAX
                && encode_utf8(ts[i].category).len() <= u32::MAX,
    ensures
        bin_records(b, pos, ts.len(), index) == Ok::<
            Seq<TransactionView>,
            crate::error::LibraryErrorView,
        >(ts),
    decreases ts.len(),
{
    if ts.len() == 0 {
        assert(bin_records(b, pos, 0, index) == Ok::<
            Seq<TransactionView>,
            crate::error::LibraryErrorView,
        >(Seq::empty()));
        assert(ts =~= Seq::<TransactionView>::empty());
    } else {
        lemma_records_bytes_front(ts);
        let first = record_bytes(ts[0]);
        lemma_holds_split(b, pos, first, records_bytes(ts.drop_first()));
        lemma_bin_record_back(b, pos, ts[0], index);
        let rest = ts.drop_first();
        assert forall|i: int| 0 <= i < rest.len() implies encode_utf8(#[trigger] rest[i].date).len()
            <= u32::MAX && encode_utf8(rest[i].category).len() <= u32::MAX by {
            assert(rest[i] == ts[i + 1]);
        }
        lemma_bin_records_back(b, pos + first.len(), rest, index + 1);
        assert(seq![ts[0]] + rest =~= ts);
    }
}

/// Reading the binary format gives back exactly the transactions that were
/// written, as long as they fit its length fields.
pub proof fn law_bin_round_trip(ts: Seq<TransactionView>)
    requires
        fits_bin(ts),
    ensures
        bin_result(bin_bytes(ts)) == Ok::<Seq<TransactionView>, crate::error::LibraryErrorView>(ts),
        read_result(written_bytes(ts, Format::Bin), Format::Bin) == Ok::<
            Seq<TransactionView>,
            crate::error::LibraryErrorView,
        >(ts),
{
    let b = bin_bytes(ts);
    let head = spec_u32_to_le_bytes(ts.len() as u32);
    lemma_auto_spec_u32_to_from_le_bytes();
    assert(b == magic() + head + records_bytes(ts));
    assert(b.subrange(0, 4) =~= magic());
    assert(b.subrange(4, 8) =~= head);
    assert(u32_at(b, 4) == ts.len());
    assert(b.subrange(8, 8 + records_bytes(ts).len() as int) =~= records_bytes(ts));
    lemma_bin_records_back(b, 8, ts, 0);
}

/// No difference from index `i` on means equal lengths and equal records from `i` on.
proof fn lemma_no_difference_from(l: Seq<TransactionView>, r: Seq<TransactionView>, i: int)
    requires
        0 <= i <= l.len(),
    ensures
        first_difference(l, r, i) is None <==> (l.len() == r.len() && forall|j: int|
            i <= j < l.len() ==> l[j] == r[j]),
    decreases l.len() - i,
{
    if i < l.len() && i < r.len() {
        lemma_no_difference_from(l, r, i + 1);
        let a = l[i];
        let b = r[i];
        if field_difference(a, b, (i + 1) as nat) is None {
            assert(a == b);
        }
    }
}

/// Comparing two lists finds no difference exactly when they hold the same
/// transactions in the same order.
pub proof fn law_compare_none_iff_equal(left: Seq<TransactionView>, right: Seq<TransactionView>)
    ensures
        first_difference(left, right, 0) is None <==> left == right,
{
    lemma_no_difference_from(left, right, 0);
    if left.len() == right.len() && forall|j: int| 0 <= j < left.len() ==> left[j] == right[j] {
        assert(left =~= right);
    }
}

/* UTF-8 facts */

/// UTF-8 encoding distributes over concatenation.
proof fn lemma_encode_concat(a: Seq<char>, b: Seq<char>)
    ensures
        encode_utf8(a + b) == encode_utf8(a) + encode_utf8(b),
    decreases a.len(),
{
    if a.len() == 0 {
        assert(a + b =~= b);
        assert(encode_utf8(a) =~= Seq::<u8>::empty());
        assert(encode_utf8(a) + encode_utf8(b) =~= encode_utf8(b));
    } else {
        lemma_encode_concat(a.drop_first(), b);
        assert((a + b).drop_first() =~= a.drop_first() + b);
        assert((a + b)[0] == a[0]);
        assert(encode_utf8(a + b) =~= encode_utf8(a) + encode_utf8(b));
    }
}

/// Every byte of a scalar's encoding is either the scalar itself (when it
/// is ASCII) or at least 0x80.
proof fn lemma_scalar_bytes(x: u32)
    requires
        is_scalar(x),
    ensures
        forall|i: int|
            0 <= i < encode_scalar(x).len() ==> (#[trigger] encode_scalar(x)[i] >= 0x80 || (x
                < 0x80 && encode_scalar(x)[i] == x as u8)),
{
    if has_width_1_encoding(x) {
        assert(leading_byte_width_1(x) == x as u8) by (bit_vector)
            requires
                x <= 0x7f,
        ;
    } else if has_width_2_encoding(x) {
        assert(leading_byte_width_2(x) >= 0x80) by (bit_vector);
        assert(last_continuation_byte(x) >= 0x80) by (bit_vector);
    } else if has_width_3_encoding(x) {
        assert(leading_byte_width_3(x) >= 0x80) by (bit_vector);
        assert(second_last_continuation_byte(x) >= 0x80) by (bit_vector);
        assert(last_continuation_byte(x) >= 0x80) by (bit_vector);
    } else {
        assert(leading_byte_width_4(x) >= 0x80) by (bit_vector);
        assert(third_last_continuation_byte(x) >= 0x80) by (bit_vector);
        assert(second_last_continuation_byte(x) >= 0x80) by (bit_vector);
        assert(last_continuation_byte(x) >= 0x80) by (bit_vector);
    }
}

/// A character below 0x80 is encoded as itself, and appears among the
/// bytes of an encoding only where the text holds it.
proof fn lemma_ascii_byte_absent(s: Seq<char>, c: char)
    requires
        (c as u32) < 0x80,
        forall|i: int| 0 <= i < s.len() ==> s[i] != c,
    ensures
        forall|i: int| 0 <= i < encode_utf8(s).len() ==> encode_utf8(s)[i] != (c as u32) as u8,
    decreases s.len(),
{
    if s.len() > 0 {
        let rest = s.drop_first();
        lemma_ascii_byte_absent(rest, c);
        char_is_scalar(s[0]);
        lemma_scalar_bytes(s[0] as u32);
        let x = s[0] as u32;
        let y = c as u32;
        vstd::utf8::char_u32_cast(s[0], x);
        vstd::utf8::char_u32_cast(c, y);
        assert(x != y);
        assert(x < 0x80 && y < 0x80 ==> x as u8 != y as u8) by (bit_vector)
            requires
                x != y,
        ;
        let e = encode_scalar(x);
        let r = encode_utf8(rest);
        assert forall|i: int| 0 <= i < encode_utf8(s).len() implies encode_utf8(s)[i] != (c as u32) as u8 by {
            if i < e.len() {
                assert(encode_utf8(s)[i] == e[i]);
            } else {
                assert(encode_utf8(s)[i] == r[i - e.len()]);
            }
        }
    }
}

/// The last byte of an encoding is the last character when that one is
/// ASCII, and at least 0x80 otherwise.
proof fn lemma_last_byte(s: Seq<char>)
    requires
        s.len() > 0,
    ensures
        encode_utf8(s).len() > 0,
        encode_utf8(s).last() >= 0x80 || ((s.last() as u32) < 0x80 && encode_utf8(s).last() == (
        s.last() as u32) as u8),
{
    lemma_encode_concat(s.drop_last(), seq![s.last()]);
    assert(s.drop_last() + seq![s.last()] =~= s);
    char_is_scalar(s.last());
    lemma_scalar_bytes(s.last() as u32);
    let e = encode_scalar(s.last() as u32);
    assert(seq![s.last()].drop_first() =~= Seq::<char>::empty());
    assert(encode_utf8(seq![s.last()].drop_first()) =~= Seq::<u8>::empty());
    assert(encode_utf8(seq![s.last()]) =~= e);
    assert(e.len() > 0);
    assert(encode_utf8(s).last() == e.last());
}

/* Splitting */

pub(crate) proof fn lemma_split_no_sep<T>(a: Seq<T>, b: Seq<T>, p: spec_fn(T) -> bool)
    requires
        forall|i: int| 0 <= i < b.len() ==> !p(#[trigger] b[i]),
    ensures
        split_by(a, p).len() >= 1,
        split_by(a + b, p) == split_by(a, p).update(
            split_by(a, p).len() - 1,
            split_by(a, p).last() + b,
        ),
    decreases b.len(),
{
    crate::text::lemma_split_by_nonempty(a, p);
    if b.len() == 0 {
        assert(a + b =~= a);
        assert(split_by(a, p).last() + b =~= split_by(a, p).last());
        assert(split_by(a, p).update(split_by(a, p).len() - 1, split_by(a, p).last() + b)
            =~= split_by(a, p));
    } else {
        let b0 = b.drop_last();
        lemma_split_no_sep(a, b0, p);
        assert((a + b).drop_last() =~= a + b0);
        assert((a + b).last() == b.last());
        assert(!p(b.last()));
        let sa = split_by(a, p);
        let prev = split_by(a + b0, p);
        assert(prev.len() == sa.len());
        assert(prev.last() == sa.last() + b0);
        assert(split_by(a + b, p) == prev.update(prev.len() - 1, prev.last().push(b.last())));
        assert((sa.last() + b0).push(b.last()) =~= sa.last() + b);
        assert(prev.update(prev.len() - 1, prev.last().push(b.last())) =~= sa.update(
            sa.len() - 1,
            sa.last() + b,
        ));
        assert(split_by(a + b, p) =~= split_by(a, p).update(
            split_by(a, p).len() - 1,
            split_by(a, p).last() + b,
        ));
    }
}

pub(crate) proof fn lemma_split_sep<T>(a: Seq<T>, x: T, p: spec_fn(T) -> bool)
    requires
        p(x),
    ensures
        split_by(a.push(x), p) == split_by(a, p).push(Seq::<T>::empty()),
{
    assert(a.push(x).drop_last() =~= a);
}

/* Trimming */

/// Trimming the start never lengthens, and keeps text of the same length.
proof fn lemma_trim_start_len(s: Seq<char>)
    ensures
        trim_start(s).len() <= s.len(),
        trim_start(s).len() == s.len() ==> trim_start(s) == s,
    decreases s.len(),
{
    if s.len() > 0 && is_white(s[0]) {
        lemma_trim_start_len(s.drop_first());
    }
}

/// Trimming the end never lengthens.
proof fn lemma_trim_end_len(s: Seq<char>)
    ensures
        trim_end(s).len() <= s.len(),
    decreases s.len(),
{
    if s.len() > 0 && is_white(s.last()) {
        lemma_trim_end_len(s.drop_last());
    }
}

/// Text whose ends are not white space is its own trimmed form.
proof fn lemma_trim_id(s: Seq<char>)
    requires
        s.len() == 0 || (!is_white(s[0]) && !is_white(s.last())),
    ensures
        trim(s) == s,
{
}

/// Text that is its own trimmed form starts and ends with other than white space.
pub(crate) proof fn lemma_trimmed_ends(s: Seq<char>)
    requires
        trim(s) == s,
        s.len() > 0,
    ensures
        !is_white(s[0]),
        !is_white(s.last()),
{
    lemma_trim_start_len(s);
    lemma_trim_end_len(trim_start(s));
    if is_white(s[0]) {
        lemma_trim_start_len(s.drop_first());
        assert(false);
    }
    assert(trim_start(s) == s);
    if is_white(s.last()) {
        lemma_trim_end_len(s.drop_last());
        assert(false);
    }
}

/* Lines */

/// Lines joined, each followed by a line feed.
pub open spec fn joined_lines(cores: Seq<Seq<char>>) -> Seq<char>
    decreases cores.len(),
{
    if cores.len() == 0 {
        Seq::empty()
    } else {
        joined_lines(cores.drop_last()) + cores.last() + seq!['\n']
    }
}

/// A line that reads back as itself: no line feed in it, and no carriage
/// return at its end.
pub open spec fn clean_line(c: Seq<char>) -> bool {
    &&& forall|i: int| 0 <= i < c.len() ==> c[i] != '\n'
    &&& (c.len() == 0 || c.last() != '\r')
}

/// The UTF-8 encodings of a list of lines.
pub open spec fn encoded(cores: Seq<Seq<char>>) -> Seq<Seq<u8>> {
    cores.map_values(|c: Seq<char>| encode_utf8(c))
}

/// A line feed is encoded as the byte 10.
proof fn lemma_encode_newline()
    ensures
        encode_utf8(seq!['\n']) == seq![10u8],
{
    assert(seq!['\n'].drop_first() =~= Seq::<char>::empty());
    assert(encode_utf8(seq!['\n'].drop_first()) =~= Seq::<u8>::empty());
    assert(('\n' as u32) == 10);
    assert(leading_byte_width_1(10u32) == 10u8) by (bit_vector);
    assert(encode_utf8(seq!['\n']) =~= seq![10u8]);
}

/// Encoded joined lines split at line feeds into the encoded lines and a final empty piece.
proof fn lemma_split_joined(cores: Seq<Seq<char>>)
    requires
        forall|k: int| 0 <= k < cores.len() ==> clean_line(#[trigger] cores[k]),
    ensures
        split_by(encode_utf8(joined_lines(cores)), newline_pred()) == encoded(cores).push(
            Seq::<u8>::empty(),
        ),
    decreases cores.len(),
{
    if cores.len() == 0 {
        assert(encode_utf8(joined_lines(cores)) =~= Seq::<u8>::empty());
        assert(encoded(cores).push(Seq::<u8>::empty()) =~= seq![Seq::<u8>::empty()]);
    } else {
        let prev = cores.drop_last();
        let c = cores.last();
        assert forall|k: int| 0 <= k < prev.len() implies clean_line(#[trigger] prev[k]) by {
            assert(prev[k] == cores[k]);
        }
        lemma_split_joined(prev);
        let ep = encode_utf8(joined_lines(prev));
        let ec = encode_utf8(c);
        lemma_encode_concat(joined_lines(prev) + c, seq!['\n']);
        lemma_encode_concat(joined_lines(prev), c);
        lemma_encode_newline();
        assert(encode_utf8(joined_lines(cores)) =~= (ep + ec).push(10u8));
        assert(clean_line(cores[cores.len() - 1]));
        lemma_ascii_byte_absent(c, '\n');
        assert(('\n' as u32) as u8 == 10u8);
        assert forall|i: int| 0 <= i < ec.len() implies !newline_pred()(#[trigger] ec[i]) by {}
        lemma_split_no_sep(ep, ec, newline_pred());
        lemma_split_sep(ep + ec, 10u8, newline_pred());
        assert(encoded(prev).push(Seq::<u8>::empty()).update(encoded(prev).len() as int, Seq::<u8>::empty() + ec)
            =~= encoded(cores));
    }
}

/// The lines of joined clean lines, encoded, are those lines encoded.
proof fn lemma_lines_joined(cores: Seq<Seq<char>>)
    requires
        forall|k: int| 0 <= k < cores.len() ==> clean_line(#[trigger] cores[k]),
    ensures
        lines_of(encode_utf8(joined_lines(cores))) == encoded(cores),
{
    lemma_split_joined(cores);
    let raw = split_by(encode_utf8(joined_lines(cores)), newline_pred());
    assert forall|k: int| 0 <= k < cores.len() implies strip_cr(raw[k]) == raw[k] by {
        let c = cores[k];
        assert(clean_line(c));
        assert(raw[k] == encode_utf8(c));
        if c.len() > 0 {
            lemma_last_byte(c);
            let x = c.last() as u32;
            vstd::utf8::char_u32_cast(c.last(), x);
            if x < 0x80 {
                assert(x != 13);
                assert(x < 0x80 && x != 13 ==> x as u8 != 13u8) by (bit_vector);
            }
        } else {
            assert(c =~= Seq::<char>::empty());
            assert(encode_utf8(c) =~= Seq::<u8>::empty());
        }
    }
    assert(lines_of(encode_utf8(joined_lines(cores))) =~= encoded(cores));
}

/* Numbers */

pub(crate) proof fn lemma_nat_text(n: nat)
    ensures
        nat_text(n).len() > 0,
        all_digits(nat_text(n)),
        digits_value(nat_text(n)) == n,
    decreases n,
{
    if n >= 10 {
        lemma_nat_text(n / 10);
        let d = digit_char(n % 10);
        assert(is_digit(d) && (d as u32) - 48 == n % 10);
        assert(nat_text(n).drop_last() =~= nat_text(n / 10));
        assert(nat_text(n).last() == d);
        assert((n / 10) * 10 + n % 10 == n) by (nonlinear_arith);
        assert(digits_value(nat_text(n)) == digits_value(nat_text(n / 10)) * 10 + n % 10);
    } else {
        assert(is_digit(digit_char(n)) && (digit_char(n) as u32) - 48 == n);
        assert(nat_text(n).drop_last() =~= Seq::<char>::empty());
        assert(digits_value(Seq::<char>::empty()) == 0);
        assert(digits_value(nat_text(n)) == digits_value(nat_text(n).drop_last()) * 10 + ((
        nat_text(n).last() as u32) - 48) as nat);
    }
}

/// `i64::from_str` reads back the decimal text of an `i64`, which is digits after an optional minus sign.
proof fn lemma_int_text(x: i64)
    ensures
        i64_from_text(int_text(x as int)) == Some(x),
        int_text(x as int).len() > 0,
        forall|i: int|
            0 <= i < int_text(x as int).len() ==> is_digit(#[trigger] int_text(x as int)[i]) || int_text(
                x as int,
            )[i] == '-',
        is_digit(int_text(x as int).last()),
{
    let t = int_text(x as int);
    if x < 0 {
        lemma_nat_text((-x) as nat);
        assert(t.drop_first() =~= nat_text((-x) as nat));
        assert(t[0] == '-');
        assert(t.last() == nat_text((-x) as nat).last());
    } else {
        lemma_nat_text(x as nat);
        assert(is_digit(t[0]));
        assert(t[0] != '+' && t[0] != '-');
    }
}

/* Records */

/// The text of a record line without its line feed.
pub open spec fn record_core(t: TransactionView, sep: char) -> Seq<char> {
    t.date + seq![sep] + t.category + seq![sep] + kind_text(t.kind) + seq![sep] + int_text(
        t.amount as int,
    )
}

/// The record lines of a list of records, without line feeds.
pub open spec fn record_cores(ts: Seq<TransactionView>, sep: char) -> Seq<Seq<char>> {
    ts.map_values(|t: TransactionView| record_core(t, sep))
}

/// A field that the text formats can carry: no separator and no line feed
/// in it, and no white space at its ends.
pub open spec fn plain_field(s: Seq<char>, sep: char) -> bool {
    &&& forall|i: int| 0 <= i < s.len() ==> s[i] != sep && s[i] != '\n'
    &&& trim(s) == s
}

/// The records can be carried by a text format with separator `sep`; when
/// `lower`, every record line is also unchanged by lower-casing.
pub open spec fn fits_text(ts: Seq<TransactionView>, sep: char, lower: bool) -> bool {
    forall|i: int|
        0 <= i < ts.len() ==> plain_field(#[trigger] ts[i].date, sep) && plain_field(
            ts[i].category,
            sep,
        ) && (lower ==> lowered(record_core(ts[i], sep)) == record_core(ts[i], sep))
}

/// The text of a list of records is its record lines joined.
proof fn lemma_records_text_joined(ts: Seq<TransactionView>, sep: char)
    ensures
        records_text(ts, sep) == joined_lines(record_cores(ts, sep)),
    decreases ts.len(),
{
    if ts.len() > 0 {
        lemma_records_text_joined(ts.drop_last(), sep);
        assert(record_cores(ts, sep).drop_last() =~= record_cores(ts.drop_last(), sep));
        assert(record_line(ts.last(), sep) =~= record_core(ts.last(), sep) + seq!['\n']);
        assert(records_text(ts, sep) =~= joined_lines(record_cores(ts, sep)));
    } else {
        assert(records_text(ts, sep) =~= joined_lines(record_cores(ts, sep)));
    }
}

/// The name of a kind reads back as the kind and is lower-case ASCII letters.
proof fn lemma_kind_text(k: TransactionKind)
    ensures
        kind_named(kind_text(k)) == Some(k),
        kind_text(k).len() > 0,
        forall|i: int|
            0 <= i < kind_text(k).len() ==> 97 <= (#[trigger] kind_text(k)[i] as u32) <= 122,
{
    reveal_strlit("income");
    reveal_strlit("expense");
    assert("income"@.len() == 6);
    assert("expense"@.len() == 7);
    assert("expense"@ != "income"@);
}

/// A separator of the text formats.
pub open spec fn is_format_sep(sep: char) -> bool {
    sep == ',' || sep == ';'
}

/// The fields of a record line are the record's four texts, and the line is clean.
proof fn lemma_fields_of_core(t: TransactionView, sep: char)
    requires
        is_format_sep(sep),
        plain_field(t.date, sep),
        plain_field(t.category, sep),
    ensures
        fields_of(record_core(t, sep), sep) == seq![
            t.date,
            t.category,
            kind_text(t.kind),
            int_text(t.amount as int),
        ],
        clean_line(record_core(t, sep)),
{
    let p = sep_pred(Separator::Char(sep));
    let d = t.date;
    let c = t.category;
    let k = kind_text(t.kind);
    let a = int_text(t.amount as int);
    lemma_kind_text(t.kind);
    lemma_int_text(t.amount);
    let e = Seq::<char>::empty();
    // the pieces between the separators
    assert forall|i: int| 0 <= i < k.len() implies !p(#[trigger] k[i]) && k[i] != '\n' by {}
    assert forall|i: int| 0 <= i < a.len() implies !p(#[trigger] a[i]) && a[i] != '\n' by {}
    assert forall|i: int| 0 <= i < d.len() implies !p(#[trigger] d[i]) by {}
    assert forall|i: int| 0 <= i < c.len() implies !p(#[trigger] c[i]) by {}
    assert(split_by(e, p) =~= seq![e]);
    lemma_split_no_sep(e, d, p);
    assert(e + d =~= d);
    assert(split_by(d, p) =~= seq![d]);
    lemma_split_sep(d, sep, p);
    assert(d.push(sep) =~= d + seq![sep]);
    lemma_split_no_sep(d + seq![sep], c, p);
    assert(split_by(d + seq![sep] + c, p) =~= seq![d, c]);
    lemma_split_sep(d + seq![sep] + c, sep, p);
    assert((d + seq![sep] + c).push(sep) =~= d + seq![sep] + c + seq![sep]);
    lemma_split_no_sep(d + seq![sep] + c + seq![sep], k, p);
    assert(split_by(d + seq![sep] + c + seq![sep] + k, p) =~= seq![d, c, k]);
    lemma_split_sep(d + seq![sep] + c + seq![sep] + k, sep, p);
    assert((d + seq![sep] + c + seq![sep] + k).push(sep) =~= d + seq![sep] + c + seq![sep] + k
        + seq![sep]);
    lemma_split_no_sep(d + seq![sep] + c + seq![sep] + k + seq![sep], a, p);
    let core = record_core(t, sep);
    assert(split_by(core, p) =~= seq![d, c, k, a]);
    // the core and its pieces are their own trimmed forms
    if d.len() > 0 {
        lemma_trimmed_ends(d);
        assert(core[0] == d[0]);
    } else {
        assert(core[0] == sep);
    }
    assert(core.last() == a.last());
    lemma_trim_id(core);
    lemma_trim_id(k);
    lemma_trim_id(a);
    assert(fields_of(core, sep) =~= seq![d, c, k, a]);
    assert forall|i: int| 0 <= i < core.len() implies core[i] != '\n' by {
        if i < d.len() {
            assert(core[i] == d[i]);
        } else if i == d.len() {
        } else if i < d.len() + 1 + c.len() {
            assert(core[i] == c[i - d.len() - 1]);
        } else if i == d.len() + 1 + c.len() {
        } else if i < d.len() + 2 + c.len() + k.len() {
            assert(core[i] == k[i - d.len() - 2 - c.len()]);
        } else if i == d.len() + 2 + c.len() + k.len() {
        } else {
            assert(core[i] == a[i - d.len() - 3 - c.len() - k.len()]);
        }
    }
}

/// A written record line reads back as its record.
proof fn lemma_record_back(t: TransactionView, no: nat, sep: char, lower: bool)
    requires
        is_format_sep(sep),
        plain_field(t.date, sep),
        plain_field(t.category, sep),
        lower ==> lowered(record_core(t, sep)) == record_core(t, sep),
    ensures
        record_result(encode_utf8(record_core(t, sep)), no, sep, lower) == Ok::<
            TransactionView,
            crate::error::LibraryErrorView,
        >(t),
{
    let core = record_core(t, sep);
    encode_utf8_valid_utf8(core);
    encode_utf8_decode_utf8(core);
    assert(line_text(encode_utf8(core), lower) == core);
    lemma_fields_of_core(t, sep);
    lemma_kind_text(t.kind);
    lemma_int_text(t.amount);
}

/// Written record lines read back as their records.
proof fn lemma_records_back(ts: Seq<TransactionView>, first_no: nat, sep: char, lower: bool)
    requires
        is_format_sep(sep),
        fits_text(ts, sep, lower),
    ensures
        records_result(encoded(record_cores(ts, sep)), first_no, sep, lower) == Ok::<
            Seq<TransactionView>,
            crate::error::LibraryErrorView,
        >(ts),
    decreases ts.len(),
{
    let lines = encoded(record_cores(ts, sep));
    if ts.len() == 0 {
        assert(lines =~= Seq::<Seq<u8>>::empty());
        assert(ts =~= Seq::<TransactionView>::empty());
    } else {
        let prev = ts.drop_last();
        assert forall|i: int| 0 <= i < prev.len() implies plain_field(#[trigger] prev[i].date, sep)
            && plain_field(prev[i].category, sep) && (lower ==> lowered(record_core(prev[i], sep))
            == record_core(prev[i], sep)) by {
            assert(prev[i] == ts[i]);
        }
        lemma_records_back(prev, first_no, sep, lower);
        assert(lines.drop_last() =~= encoded(record_cores(prev, sep)));
        assert(lines.last() == encode_utf8(record_core(ts.last(), sep)));
        let i = ts.len() - 1;
        assert(plain_field(ts[i].date, sep));
        lemma_record_back(ts.last(), (first_no + lines.len() - 1) as nat, sep, lower);
        assert(prev.push(ts.last()) =~= ts);
    }
}

/// The record lines of fitting records are clean lines.
proof fn lemma_cores_clean(ts: Seq<TransactionView>, sep: char, lower: bool)
    requires
        is_format_sep(sep),
        fits_text(ts, sep, lower),
    ensures
        forall|k: int| 0 <= k < ts.len() ==> clean_line(#[trigger] record_cores(ts, sep)[k]),
{
    assert forall|k: int| 0 <= k < ts.len() implies clean_line(#[trigger] record_cores(ts, sep)[k]) by {
        assert(plain_field(ts[k].date, sep));
        lemma_fields_of_core(ts[k], sep);
    }
}

/// Reading the text format gives back exactly the transactions that were
/// written, when every date and category holds no `;` and no line feed and
/// has no white space at its ends, and (for the reader that lower-cases
/// each line) every record line is already in lower case.
pub proof fn law_text_round_trip(ts: Seq<TransactionView>, lower: bool)
    requires
        fits_text(ts, ';', lower),
    ensures
        text_result(encode_utf8(plain_text(ts)), lower) == Ok::<
            Seq<TransactionView>,
            crate::error::LibraryErrorView,
        >(ts),
        lower ==> read_result(written_bytes(ts, Format::Text), Format::Text) == Ok::<
            Seq<TransactionView>,
            crate::error::LibraryErrorView,
        >(ts),
{
    lemma_records_text_joined(ts, ';');
    lemma_cores_clean(ts, ';', lower);
    let cores = record_cores(ts, ';');
    assert forall|k: int| 0 <= k < cores.len() implies clean_line(#[trigger] cores[k]) by {}
    lemma_lines_joined(cores);
    lemma_records_back(ts, 1, ';', lower);
}

/// Joining a line in front of others puts it and a line feed first.
proof fn lemma_joined_front(h: Seq<char>, cs: Seq<Seq<char>>)
    ensures
        joined_lines(seq![h] + cs) == h + seq!['\n'] + joined_lines(cs),
    decreases cs.len(),
{
    if cs.len() == 0 {
        assert(seq![h] + cs =~= seq![h]);
        assert(seq![h].drop_last() =~= Seq::<Seq<char>>::empty());
        assert(joined_lines(Seq::<Seq<char>>::empty()) =~= Seq::<char>::empty());
        assert(joined_lines(cs) =~= Seq::<char>::empty());
        assert(joined_lines(seq![h]) == joined_lines(seq![h].drop_last()) + h + seq!['\n']);
        assert(joined_lines(seq![h] + cs) =~= h + seq!['\n'] + joined_lines(cs));
    } else {
        lemma_joined_front(h, cs.drop_last());
        assert((seq![h] + cs).drop_last() =~= seq![h] + cs.drop_last());
        assert((seq![h] + cs).last() == cs.last());
        assert(joined_lines(seq![h] + cs) =~= h + seq!['\n'] + joined_lines(cs));
    }
}

/// The CSV header is a clean line that trimming and lower-casing keep.
proof fn lemma_csv_header()
    ensures
        clean_line(csv_header()),
        trim(csv_header()) == csv_header(),
        lowered(trim(csv_header())) == csv_header(),
{
    let h = csv_header();
    reveal_strlit("date,category,kind,amount");
    assert(h.len() == 25);
    assert(forall|i: int| 0 <= i < h.len() ==> (h[i] == ',' || 97 <= (#[trigger] h[i] as u32) <= 122));
    lemma_trim_id(h);
    assert(h.map_values(|c: char| ascii_lower_char(c)) =~= h);
}

/// Reading CSV gives back exactly the transactions that were written, when
/// every date and category holds no `,` and no line feed and has no white
/// space at its ends, and (for the reader that lower-cases each record
/// line) every record line is already in lower case.
pub proof fn law_csv_round_trip(ts: Seq<TransactionView>, lower: bool)
    requires
        fits_text(ts, ',', lower),
    ensures
        csv_result(encode_utf8(csv_text(ts)), lower) == Ok::<
            Seq<TransactionView>,
            crate::error::LibraryErrorView,
        >(ts),
        lower ==> read_result(written_bytes(ts, Format::Csv), Format::Csv) == Ok::<
            Seq<TransactionView>,
            crate::error::LibraryErrorView,
        >(ts),
{
    let h = csv_header();
    lemma_records_text_joined(ts, ',');
    lemma_cores_clean(ts, ',', lower);
    lemma_csv_header();
    let cores = seq![h] + record_cores(ts, ',');
    lemma_joined_front(h, record_cores(ts, ','));
    assert(csv_text(ts) == joined_lines(cores));
    assert forall|k: int| 0 <= k < cores.len() implies clean_line(#[trigger] cores[k]) by {
        if k > 0 {
            assert(cores[k] == record_cores(ts, ',')[k - 1]);
        }
    }
    lemma_lines_joined(cores);
    let ls = lines_of(encode_utf8(csv_text(ts)));
    assert(ls == encoded(cores));
    assert(ls[0] == encode_utf8(h));
    encode_utf8_valid_utf8(h);
    encode_utf8_decode_utf8(h);
    assert(ls.skip(1) =~= encoded(record_cores(ts, ',')));
    lemma_records_back(ts, 2, ',', lower);
}

/* Comparing */

/// What `first_difference` from index `i` reports, in terms of the lists.
proof fn lemma_first_difference_from(l: Seq<TransactionView>, r: Seq<TransactionView>, i: int)
    requires
        0 <= i,
    ensures
        match first_difference(l, r, i) {
            Some(DifferenceView::Field { position, field, left, right }) => {
                &&& i + 1 <= position <= l.len()
                &&& position <= r.len()
                &&& forall|j: int| i <= j < position - 1 ==> l[j] == r[j]
                &&& field_difference(l[position - 1], r[position - 1], position) == Some(
                    DifferenceView::Field { position, field, left, right },
                )
            },
            Some(DifferenceView::Length { left_len, right_len }) => {
                &&& left_len == l.len()
                &&& right_len == r.len()
                &&& l.len() != r.len()
                &&& forall|j: int| i <= j < l.len() && j < r.len() ==> l[j] == r[j]
            },
            None => l.len() == r.len() && forall|j: int| i <= j < l.len() ==> l[j] == r[j],
        },
    decreases l.len() - i,
{
    if i < l.len() && i < r.len() {
        lemma_first_difference_from(l, r, i + 1);
        if field_difference(l[i], r[i], (i + 1) as nat) is None {
            assert(l[i] == r[i]);
        }
    }
}

/// A reported difference speaks of the two lists as given: a field
/// mismatch at `position` (counted from 1) comes after records that agree,
/// names a field in which the two records at `position` differ, and carries
/// in `left` that field's text in the left list and in `right` its text in
/// the right list (dates and categories as they are, kinds by name, amounts
/// in decimal); earlier fields of that pair agree. A length mismatch carries
/// the left and right lengths, after a common part that agrees; and no
/// difference means equal lists.
pub proof fn law_compare_reports_each_side(l: Seq<TransactionView>, r: Seq<TransactionView>)
    ensures
        match first_difference(l, r, 0) {
            Some(DifferenceView::Field { position, field, left, right }) => {
                &&& 1 <= position <= l.len()
                &&& position <= r.len()
                &&& forall|j: int| 0 <= j < position - 1 ==> l[j] == r[j]
                &&& (field == "date"@ ==> left == l[position - 1].date && right == r[position
                    - 1].date && left != right)
                &&& (field == "category"@ ==> left == l[position - 1].category && right == r[position
                    - 1].category && left != right && l[position - 1].date == r[position - 1].date)
                &&& (field == "kind"@ ==> left == kind_text(l[position - 1].kind) && right
                    == kind_text(r[position - 1].kind) && l[position - 1].kind != r[position - 1].kind
                    && l[position - 1].date == r[position - 1].date && l[position - 1].category
                    == r[position - 1].category)
                &&& (field == "amount"@ ==> left == int_text(l[position - 1].amount as int) && right
                    == int_text(r[position - 1].amount as int) && l[position - 1].amount != r[position
                    - 1].amount && l[position - 1].date == r[position - 1].date && l[position
                    - 1].category == r[position - 1].category && l[position - 1].kind == r[position
                    - 1].kind)
                &&& (field == "date"@ || field == "category"@ || field == "kind"@ || field
                    == "amount"@)
            },
            Some(DifferenceView::Length { left_len, right_len }) => {
                &&& left_len == l.len()
                &&& right_len == r.len()
                &&& left_len != right_len
                &&& forall|j: int| 0 <= j < l.len() && j < r.len() ==> l[j] == r[j]
            },
            None => l == r,
        },
{
    reveal_strlit("date");
    reveal_strlit("category");
    reveal_strlit("kind");
    reveal_strlit("amount");
    assert("date"@ != "category"@ && "date"@ != "kind"@ && "date"@ != "amount"@) by {
        assert("date"@.len() != "category"@.len() && "date"@[0] != "kind"@[0] && "date"@.len()
            != "amount"@.len());
    }
    assert("category"@ != "kind"@ && "category"@ != "amount"@) by {
        assert("category"@.len() != "kind"@.len() && "category"@.len() != "amount"@.len());
    }
    assert("kind"@ != "amount"@) by {
        assert("kind"@.len() != "amount"@.len());
    }
    lemma_first_difference_from(l, r, 0);
    if first_difference(l, r, 0) is None {
        assert(l =~= r);
    }
}

/// Comparing the lists the other way round gives the mirror image: the
/// same position and field with the two texts exchanged, or the two lengths
/// exchanged, or again no difference.
pub proof fn law_compare_mirror(l: Seq<TransactionView>, r: Seq<TransactionView>)
    ensures
        first_difference(r, l, 0) == match first_difference(l, r, 0) {
            Some(DifferenceView::Field { position, field, left, right }) => Some(
                DifferenceView::Field { position, field, left: right, right: left },
            ),
            Some(DifferenceView::Length { left_len, right_len }) => Some(
                DifferenceView::Length { left_len: right_len, right_len: left_len },
            ),
            None => None,
        },
{
    lemma_mirror_from(l, r, 0);
}

proof fn lemma_mirror_from(l: Seq<TransactionView>, r: Seq<TransactionView>, i: int)
    requires
        0 <= i,
    ensures
        first_difference(r, l, i) == match first_difference(l, r, i) {
            Some(DifferenceView::Field { position, field, left, right }) => Some(
                DifferenceView::Field { position, field, left: right, right: left },
            ),
            Some(DifferenceView::Length { left_len, right_len }) => Some(
                DifferenceView::Length { left_len: right_len, right_len: left_len },
            ),
            None => None,
        },
    decreases l.len() - i,
{
    if i < l.len() && i < r.len() {
        lemma_mirror_from(l, r, i + 1);
    }
}

/* Letter case */

/// Two lines that read the same once lower-cased: both UTF-8 or neither,
/// and then equal after lower-casing.
pub open spec fn same_up_to_case(a: Seq<u8>, b: Seq<u8>) -> bool {
    &&& valid_utf8(a) == valid_utf8(b)
    &&& valid_utf8(a) ==> lowered(decode_utf8(a)) == lowered(decode_utf8(b))
}

/// The lower-casing readers read a record line as its lower-cased text:
/// lists of record lines that differ only in letter case read the same,
/// records and errors alike.
pub proof fn law_records_ignore_case(
    a: Seq<Seq<u8>>,
    b: Seq<Seq<u8>>,
    first_no: nat,
    sep: char,
)
    requires
        a.len() == b.len(),
        forall|k: int| 0 <= k < a.len() ==> same_up_to_case(#[trigger] a[k], b[k]),
    ensures
        records_result(a, first_no, sep, true) == records_result(b, first_no, sep, true),
    decreases a.len(),
{
    if a.len() > 0 {
        assert forall|k: int| 0 <= k < a.len() - 1 implies same_up_to_case(
            #[trigger] a.drop_last()[k],
            b.drop_last()[k],
        ) by {
            assert(same_up_to_case(a[k], b[k]));
        }
        law_records_ignore_case(a.drop_last(), b.drop_last(), first_no, sep);
        let k = a.len() - 1;
        assert(same_up_to_case(a[k], b[k]));
        assert(record_result(a.last(), (first_no + a.len() - 1) as nat, sep, true) == record_result(
            b.last(),
            (first_no + b.len() - 1) as nat,
            sep,
            true,
        ));
    }
}

/// The main CSV reader reads each record line as its lower-cased text: two
/// inputs with the same header line whose record lines differ only in
/// letter case read the same (a kind written `Income` or `INCOME` reads as
/// income).
pub proof fn law_csv_ignores_case(x: Seq<u8>, y: Seq<u8>)
    requires
        lines_of(x).len() == lines_of(y).len(),
        lines_of(x).len() > 0 ==> lines_of(x)[0] == lines_of(y)[0],
        forall|k: int| 1 <= k < lines_of(x).len() ==> same_up_to_case(#[trigger] lines_of(x)[k], lines_of(y)[k]),
    ensures
        csv_result(x, true) == csv_result(y, true),
        read_result(x, Format::Csv) == read_result(y, Format::Csv),
{
    let lx = lines_of(x);
    let ly = lines_of(y);
    if lx.len() > 0 {
        assert forall|k: int| 0 <= k < lx.skip(1).len() implies same_up_to_case(
            #[trigger] lx.skip(1)[k],
            ly.skip(1)[k],
        ) by {
            assert(same_up_to_case(lx[k + 1], ly[k + 1]));
        }
        law_records_ignore_case(lx.skip(1), ly.skip(1), 2, ',');
    }
}

/// The main text reader reads each line as its lower-cased text: inputs
/// whose lines differ only in letter case read the same.
pub proof fn law_text_ignores_case(x: Seq<u8>, y: Seq<u8>)
    requires
        lines_of(x).len() == lines_of(y).len(),
        forall|k: int| 0 <= k < lines_of(x).len() ==> same_up_to_case(#[trigger] lines_of(x)[k], lines_of(y)[k]),
    ensures
        text_result(x, true) == text_result(y, true),
        read_result(x, Format::Text) == read_result(y, Format::Text),
{
    law_records_ignore_case(lines_of(x), lines_of(y), 1, ';');
}

} // verus!

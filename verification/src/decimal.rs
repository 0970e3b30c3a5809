//! Decimal text of integers: what `to_string` writes and `str::parse` reads.
use crate::text::push_char;
use vstd::prelude::*;

verus! {

/// The character of a decimal digit.
pub open spec fn digit_char(d: nat) -> char {
    if d == 0 {
        '0'
    } else if d == 1 {
        '1'
    } else if d == 2 {
        '2'
    } else if d == 3 {
        '3'
    } else if d == 4 {
        '4'
    } else if d == 5 {
        '5'
    } else if d == 6 {
        '6'
    } else if d == 7 {
        '7'
    } else if d == 8 {
        '8'
    } else {
        '9'
    }
}

/// The decimal text of `n`, without sign or leading zeros.
pub open spec fn nat_text(n: nat) -> Seq<char>
    decreases n,
{
    if n < 10 {
        seq![digit_char(n)]
    } else {
        nat_text(n / 10).push(digit_char(n % 10))
    }
}

/// The decimal text of `x`, as `to_string` writes an integer: a minus sign
/// for negative values, then the digits of its magnitude.
pub open spec fn int_text(x: int) -> Seq<char> {
    if x < 0 {
        seq!['-'] + nat_text((-x) as nat)
    } else {
        nat_text(x as nat)
    }
}

/// An ASCII decimal digit.
pub open spec fn is_digit(c: char) -> bool {
    48 <= (c as u32) <= 57
}

/// Every character of `s` is an ASCII decimal digit.
pub open spec fn all_digits(s: Seq<char>) -> bool {
    forall|i: int| 0 <= i < s.len() ==> is_digit(#[trigger] s[i])
}

/// The number that a string of digits denotes.
pub open spec fn digits_value(s: Seq<char>) -> nat
    decreases s.len(),
{
    if s.len() == 0 {
        0
    } else {
        digits_value(s.drop_last()) * 10 + ((s.last() as u32) - 48) as nat
    }
}

/// What the integer parsers of the standard library read from `s`, before
/// they check the range of the target type: an optional `+` or `-` (the
/// latter when `signed`), then at least one ASCII digit and nothing else.
pub open spec fn decimal_value(s: Seq<char>, signed: bool) -> Option<int> {
    if s.len() > 0 && (s[0] == '+' || (signed && s[0] == '-')) {
        let d = s.drop_first();
        if d.len() > 0 && all_digits(d) {
            Some(
                if s[0] == '-' {
                    -digits_value(d)
                } else {
                    digits_value(d) as int
                },
            )
        } else {
            None
        }
    } else if s.len() > 0 && all_digits(s) {
        Some(digits_value(s) as int)
    } else {
        None
    }
}

/// The text that `ParseIntError` shows when `i64::from_str` refuses `s`.
pub uninterp spec fn i64_parse_error_text(s: Seq<char>) -> Seq<char>;

/// The text that `ParseIntError` shows when `u64::from_str` refuses `s`.
pub uninterp spec fn u64_parse_error_text(s: Seq<char>) -> Seq<char>;

/// The `i64` that `i64::from_str` reads from `s`, if any.
pub open spec fn i64_from_text(s: Seq<char>) -> Option<i64> {
    match decimal_value(s, true) {
        Some(v) => if i64::MIN <= v <= i64::MAX {
            Some(v as i64)
        } else {
            None
        },
        None => None,
    }
}

/// The `u64` that `u64::from_str` reads from `s`, if any.
pub open spec fn u64_from_text(s: Seq<char>) -> Option<u64> {
    match decimal_value(s, false) {
        Some(v) => if 0 <= v <= u64::MAX {
            Some(v as u64)
        } else {
            None
        },
        None => None,
    }
}

/// Reads an `i64` from `s`.
///
/// Trusted: `<i64 as FromStr>::from_str`. Its documentation says the text is
/// an optional sign followed by digits only, and that the value must fit;
/// the contract states exactly that through [`i64_from_text`]. The error's
/// display text is the named [`i64_parse_error_text`].
#[verifier::external_body]
pub fn parse_i64(s: &str) -> (r: Result<i64, String>)
    ensures
        match i64_from_text(s@) {
            Some(v) => r == Ok::<i64, String>(v),
            None => r matches Err(m) && m@ == i64_parse_error_text(s@),
        },
{
    match s.parse::<i64>() {
        Ok(v) => Ok(v),
        Err(e) => Err(e.to_string()),
    }
}

/// Reads a `u64` from `s`.
///
/// Trusted: `<u64 as FromStr>::from_str`, stated as for [`parse_i64`] but
/// with no minus sign allowed; the error's display text is the named
/// [`u64_parse_error_text`].
#[verifier::external_body]
pub fn parse_u64(s: &str) -> (r: Result<u64, String>)
    ensures
        match u64_from_text(s@) {
            Some(v) => r == Ok::<u64, String>(v),
            None => r matches Err(m) && m@ == u64_parse_error_text(s@),
        },
{
    match s.parse::<u64>() {
        Ok(v) => Ok(v),
        Err(e) => Err(e.to_string()),
    }
}

/// The character of the digit `d`.
fn digit_of(d: u128) -> (c: char)
    requires
        d < 10,
    ensures
        c == digit_char(d as nat),
{
    if d == 0 {
        '0'
    } else if d == 1 {
        '1'
    } else if d == 2 {
        '2'
    } else if d == 3 {
        '3'
    } else if d == 4 {
        '4'
    } else if d == 5 {
        '5'
    } else if d == 6 {
        '6'
    } else if d == 7 {
        '7'
    } else if d == 8 {
        '8'
    } else {
        '9'
    }
}

/// Appends the decimal text of `n` to `s`.
pub fn push_u128_text(s: &mut String, n: u128)
    ensures
        final(s)@ == old(s)@ + nat_text(n as nat),
{
    let mut rev: Vec<char> = Vec::new();
    let mut m = n;
    while m >= 10
        invariant
            nat_text(n as nat) == nat_text(m as nat) + rev@.reverse(),
        decreases m,
    {
        let d = digit_of(m % 10);
        proof {
            assert(nat_text(m as nat) == nat_text((m / 10) as nat).push(d));
            assert(rev@.push(d).reverse() =~= seq![d] + rev@.reverse());
            assert(nat_text(m as nat) + rev@.reverse() =~= nat_text((m / 10) as nat) + rev@.push(
                d,
            ).reverse());
        }
        rev.push(d);
        m = m / 10;
    }
    let first = digit_of(m);
    assert(nat_text(m as nat) == seq![first]);
    push_char(s, first);
    let ghost base = old(s)@;
    let mut i = rev.len();
    while i > 0
        invariant
            i <= rev@.len(),
            s@ == base + seq![first] + rev@.subrange(i as int, rev@.len() as int).reverse(),
        decreases i,
    {
        i = i - 1;
        push_char(s, rev[i]);
        assert(rev@.subrange(i as int, rev@.len() as int).reverse() =~= rev@.subrange(
            i + 1,
            rev@.len() as int,
        ).reverse().push(rev@[i as int]));
        assert(s@ =~= base + seq![first] + rev@.subrange(i as int, rev@.len() as int).reverse());
    }
    assert(rev@.subrange(0, rev@.len() as int) =~= rev@);
    assert(s@ =~= old(s)@ + nat_text(n as nat));
}

/// Appends the decimal text of `x` to `s`.
pub fn push_i64_text(s: &mut String, x: i64)
    ensures
        final(s)@ == old(s)@ + int_text(x as int),
{
    if x < 0 {
        push_char(s, '-');
        let mag: u64 = if x == i64::MIN {
            9223372036854775808u64
        } else {
            (-x) as u64
        };
        push_u128_text(s, mag as u128);
        assert(s@ =~= old(s)@ + int_text(x as int));
    } else {
        push_u128_text(s, x as u128);
    }
}

/// The decimal text of `x`, as `x.to_string()` writes it.
pub fn i64_to_string(x: i64) -> (s: String)
    ensures
        s@ == int_text(x as int),
{
    let mut s = String::new();
    push_i64_text(&mut s, x);
    assert(s@ =~= int_text(x as int));
    s
}

/// The decimal text of `n`, as `n.to_string()` writes it.
pub fn usize_to_string(n: usize) -> (s: String)
    ensures
        s@ == nat_text(n as nat),
{
    let mut s = String::new();
    push_u128_text(&mut s, n as u128);
    assert(s@ =~= nat_text(n as nat));
    s
}

} // verus!

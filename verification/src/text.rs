//! Character-level building blocks: whitespace, trimming, splitting.
use vstd::prelude::*;
use vstd::utf8::{decode_utf8, is_ascii_chars, valid_utf8};

verus! {

/// The Unicode `White_Space` property, the set that `char::is_whitespace` tests.
pub open spec fn is_white(c: char) -> bool {
    let v = c as u32;
    (0x9 <= v && v <= 0xd) || v == 0x20 || v == 0x85 || v == 0xa0 || v == 0x1680 || (0x2000 <= v
        && v <= 0x200a) || v == 0x2028 || v == 0x2029 || v == 0x202f || v == 0x205f || v == 0x3000
}

/// Tests whether `c` is white space in the sense of [`is_white`].
pub fn is_whitespace_char(c: char) -> (b: bool)
    ensures
        b == is_white(c),
{
    let v = c as u32;
    (0x9 <= v && v <= 0xd) || v == 0x20 || v == 0x85 || v == 0xa0 || v == 0x1680 || (0x2000 <= v
        && v <= 0x200a) || v == 0x2028 || v == 0x2029 || v == 0x202f || v == 0x205f || v == 0x3000
}

/// `s` without its leading white space.
pub open spec fn trim_start(s: Seq<char>) -> Seq<char>
    decreases s.len(),
{
    if s.len() > 0 && is_white(s[0]) {
        trim_start(s.drop_first())
    } else {
        s
    }
}

/// `s` without its trailing white space.
pub open spec fn trim_end(s: Seq<char>) -> Seq<char>
    decreases s.len(),
{
    if s.len() > 0 && is_white(s.last()) {
        trim_end(s.drop_last())
    } else {
        s
    }
}

/// `s` without leading and trailing white space, as `str::trim` gives it.
pub open spec fn trim(s: Seq<char>) -> Seq<char> {
    trim_end(trim_start(s))
}

/// The pieces of `s` between the elements that satisfy `is_sep`, in order:
/// one more piece than there are separators, empty pieces included.
pub open spec fn split_by<T>(s: Seq<T>, is_sep: spec_fn(T) -> bool) -> Seq<Seq<T>>
    decreases s.len(),
{
    if s.len() == 0 {
        seq![Seq::<T>::empty()]
    } else {
        let prev = split_by(s.drop_last(), is_sep);
        if is_sep(s.last()) {
            prev.push(Seq::<T>::empty())
        } else {
            prev.update(prev.len() - 1, prev.last().push(s.last()))
        }
    }
}

/// `split_by` never yields an empty list of pieces.
pub proof fn lemma_split_by_nonempty<T>(s: Seq<T>, is_sep: spec_fn(T) -> bool)
    ensures
        split_by(s, is_sep).len() >= 1,
    decreases s.len(),
{
    if s.len() > 0 {
        lemma_split_by_nonempty(s.drop_last(), is_sep);
    }
}

/// The separators that the text splitters understand.
#[derive(Clone, Copy)]
pub enum Separator {
    /// A single character, as in `str::split(c)`.
    Char(char),
    /// Any white space, as in `str::split_whitespace` before empty pieces are dropped.
    White,
}

/// The predicate on characters that a separator stands for.
pub open spec fn sep_pred(sep: Separator) -> spec_fn(char) -> bool {
    match sep {
        Separator::Char(c) => |x: char| x == c,
        Separator::White => |x: char| is_white(x),
    }
}

/// Tests whether `c` is a separator of kind `sep`.
pub fn is_separator(sep: Separator, c: char) -> (b: bool)
    ensures
        b == sep_pred(sep)(c),
{
    match sep {
        Separator::Char(x) => c == x,
        Separator::White => is_whitespace_char(c),
    }
}

/// The bounds, inside `v[from..to]`, of its trimmed part.
pub fn trim_bounds(v: &Vec<char>, from: usize, to: usize) -> (r: (usize, usize))
    requires
        from <= to <= v@.len(),
    ensures
        from <= r.0 <= r.1 <= to,
        v@.subrange(r.0 as int, r.1 as int) == trim(v@.subrange(from as int, to as int)),
{
    let mut i = from;
    while i < to && is_whitespace_char(v[i])
        invariant
            from <= i <= to <= v@.len(),
            trim_start(v@.subrange(from as int, to as int)) == trim_start(
                v@.subrange(i as int, to as int),
            ),
        decreases to - i,
    {
        assert(v@.subrange(i as int, to as int).drop_first() =~= v@.subrange(
            i + 1,
            to as int,
        ));
        i = i + 1;
    }
    assert(trim_start(v@.subrange(i as int, to as int)) == v@.subrange(i as int, to as int));
    let mut j = to;
    while j > i && is_whitespace_char(v[j - 1])
        invariant
            from <= i <= j <= to <= v@.len(),
            trim_end(v@.subrange(i as int, to as int)) == trim_end(v@.subrange(i as int, j as int)),
        decreases j - i,
    {
        assert(v@.subrange(i as int, j as int).drop_last() =~= v@.subrange(
            i as int,
            j - 1,
        ));
        j = j - 1;
    }
    assert(trim_end(v@.subrange(i as int, j as int)) == v@.subrange(i as int, j as int));
    (i, j)
}

/// The views of the pieces of `v` named by a list of bounds.
pub open spec fn pieces_of(v: Seq<char>, bounds: Seq<(usize, usize)>) -> Seq<Seq<char>> {
    bounds.map_values(|b: (usize, usize)| v.subrange(b.0 as int, b.1 as int))
}

/// Splits `v[from..to]` at the separators of kind `sep`; the result gives
/// each piece by its bounds in `v`.
pub fn split_bounds(v: &Vec<char>, from: usize, to: usize, sep: Separator) -> (r: Vec<(usize, usize)>)
    requires
        from <= to <= v@.len(),
    ensures
        pieces_of(v@, r@) == split_by(v@.subrange(from as int, to as int), sep_pred(sep)),
        forall|k: int| 0 <= k < r@.len() ==> from <= #[trigger] r@[k].0 <= r@[k].1 <= to,
{
    let mut bounds: Vec<(usize, usize)> = Vec::new();
    let mut start = from;
    let mut i = from;
    assert(pieces_of(v@, bounds@) =~= Seq::<Seq<char>>::empty());
    assert(v@.subrange(start as int, i as int) =~= Seq::<char>::empty());
    assert(v@.subrange(from as int, i as int) =~= Seq::<char>::empty());
    assert(pieces_of(v@, bounds@).push(v@.subrange(start as int, i as int)) =~= seq![
        Seq::<char>::empty(),
    ]);
    while i < to
        invariant
            from <= start <= i <= to <= v@.len(),
            forall|k: int| 0 <= k < bounds@.len() ==> from <= #[trigger] bounds@[k].0 <= bounds@[k].1 <= to,
            split_by(v@.subrange(from as int, i as int), sep_pred(sep)) == pieces_of(v@, bounds@).push(
                v@.subrange(start as int, i as int),
            ),
        decreases to - i,
    {
        let ghost prev = v@.subrange(from as int, i as int);
        let ghost next = v@.subrange(from as int, i + 1);
        assert(next.drop_last() =~= prev);
        assert(next.last() == v@[i as int]);
        if is_separator(sep, v[i]) {
            let ghost old_bounds = bounds@;
            bounds.push((start, i));
            assert(forall|k: int| 0 <= k < old_bounds.len() ==> bounds@[k] == old_bounds[k]);
            start = i + 1;
            assert(pieces_of(v@, bounds@) =~= pieces_of(v@, bounds@.drop_last()).push(
                v@.subrange(bounds@.last().0 as int, bounds@.last().1 as int),
            ));
            assert(v@.subrange(start as int, i + 1) =~= Seq::<char>::empty());
        } else {
            assert(v@.subrange(start as int, i + 1) =~= v@.subrange(start as int, i as int).push(
                v@[i as int],
            ));
        }
        i = i + 1;
        assert(split_by(v@.subrange(from as int, i as int), sep_pred(sep)) =~= pieces_of(
            v@,
            bounds@,
        ).push(v@.subrange(start as int, i as int)));
    }
    bounds.push((start, to));
    assert(pieces_of(v@, bounds@) =~= pieces_of(v@, bounds@.drop_last()).push(
        v@.subrange(start as int, to as int),
    ));
    bounds
}

/// The byte that ends a line.
pub open spec fn newline_pred() -> spec_fn(u8) -> bool {
    |b: u8| b == 10u8
}

/// A line without the carriage return that may precede its line feed.
pub open spec fn strip_cr(line: Seq<u8>) -> Seq<u8> {
    if line.len() > 0 && line.last() == 13u8 {
        line.drop_last()
    } else {
        line
    }
}

/// The lines of `bytes`, as `BufRead::lines` hands them out: split at each
/// line feed, a carriage return right before a line feed dropped, and no
/// empty line after a final line feed.
pub open spec fn lines_of(bytes: Seq<u8>) -> Seq<Seq<u8>> {
    let raw = split_by(bytes, newline_pred());
    let terminated = Seq::new((raw.len() - 1) as nat, |i: int| strip_cr(raw[i]));
    if raw.last().len() == 0 {
        terminated
    } else {
        terminated.push(raw.last())
    }
}

/// Splits `bytes` into its lines (see [`lines_of`]).
pub fn split_lines(bytes: &[u8]) -> (r: Vec<Vec<u8>>)
    ensures
        r@.len() == lines_of(bytes@).len(),
        forall|k: int| 0 <= k < r@.len() ==> (#[trigger] r@[k])@ == lines_of(bytes@)[k],
{
    let mut lines: Vec<Vec<u8>> = Vec::new();
    let mut start: usize = 0;
    let mut i: usize = 0;
    assert(bytes@.subrange(0, 0) =~= Seq::<u8>::empty());
    while i < bytes.len()
        invariant
            0 <= start <= i <= bytes@.len(),
            split_by(bytes@.subrange(0, i as int), newline_pred()).len() == lines@.len() + 1,
            forall|k: int|
                0 <= k < lines@.len() ==> (#[trigger] lines@[k])@ == strip_cr(
                    split_by(bytes@.subrange(0, i as int), newline_pred())[k],
                ),
            split_by(bytes@.subrange(0, i as int), newline_pred()).last() == bytes@.subrange(
                start as int,
                i as int,
            ),
        decreases bytes@.len() - i,
    {
        let ghost prev = split_by(bytes@.subrange(0, i as int), newline_pred());
        let ghost whole = bytes@.subrange(0, i + 1);
        assert(whole.drop_last() =~= bytes@.subrange(0, i as int));
        assert(whole.last() == bytes@[i as int]);
        if bytes[i] == 10u8 {
            let piece = vstd::slice::slice_subrange(bytes, start, i);
            let mut line = vstd::slice::slice_to_vec(piece);
            if line.len() > 0 && line[line.len() - 1] == 13u8 {
                line.pop();
            }
            assert(line@ == strip_cr(prev.last()));
            lines.push(line);
            start = i + 1;
            assert(bytes@.subrange(start as int, i + 1) =~= Seq::<u8>::empty());
        } else {
            assert(bytes@.subrange(start as int, i + 1) =~= bytes@.subrange(
                start as int,
                i as int,
            ).push(bytes@[i as int]));
        }
        i = i + 1;
    }
    assert(bytes@.subrange(0, i as int) =~= bytes@);
    if start < bytes.len() {
        let piece = vstd::slice::slice_subrange(bytes, start, bytes.len());
        lines.push(vstd::slice::slice_to_vec(piece));
    }
    let ghost raw = split_by(bytes@, newline_pred());
    assert(lines@.len() == lines_of(bytes@).len());
    assert forall|k: int| 0 <= k < lines@.len() implies (#[trigger] lines@[k])@ == lines_of(
        bytes@,
    )[k] by {}
    lines
}

/// Appends `c` to `s`.
///
/// Trusted: `String::push`, which the standard library documents as
/// appending the given `char` to the end of the string.
#[verifier::external_body]
pub fn push_char(s: &mut String, c: char)
    ensures
        final(s)@ == old(s)@.push(c),
{
    s.push(c);
}

/// A new `String` that holds `v[from..to]`.
pub fn string_from(v: &Vec<char>, from: usize, to: usize) -> (s: String)
    requires
        from <= to <= v@.len(),
    ensures
        s@ == v@.subrange(from as int, to as int),
{
    let mut s = String::new();
    let mut i = from;
    while i < to
        invariant
            from <= i <= to <= v@.len(),
            s@ == v@.subrange(from as int, i as int),
        decreases to - i,
    {
        push_char(&mut s, v[i]);
        assert(v@.subrange(from as int, i + 1) =~= v@.subrange(from as int, i as int).push(
            v@[i as int],
        ));
        i = i + 1;
    }
    s
}

/// The characters of `s`, in order.
pub fn chars_of(s: &str) -> (v: Vec<char>)
    ensures
        v@ == s@,
{
    broadcast use vstd::string::group_string_axioms;

    let mut v: Vec<char> = Vec::new();
    for c in iter: s.chars()
        invariant
            v@.len() == iter.index(),
            forall|i: int| 0 <= i < v@.len() ==> v@[i] == iter.seq()[i],
    {
        v.push(c);
    }
    assert(v@ =~= s@);
    v
}

/// Tests whether `v[from..to]` holds exactly the characters of `word`.
pub fn slice_equals(v: &Vec<char>, from: usize, to: usize, word: &[char]) -> (b: bool)
    requires
        from <= to <= v@.len(),
    ensures
        b == (v@.subrange(from as int, to as int) == word@),
{
    if to - from != word.len() {
        return false;
    }
    let mut i: usize = 0;
    while i < word.len()
        invariant
            to - from == word@.len(),
            from <= to <= v@.len(),
            i <= word@.len(),
            forall|k: int| 0 <= k < i ==> v@[from + k] == word@[k],
        decreases word@.len() - i,
    {
        if v[from + i] != word[i] {
            assert(v@.subrange(from as int, to as int)[i as int] != word@[i as int]);
            return false;
        }
        i = i + 1;
    }
    assert(v@.subrange(from as int, to as int) =~= word@);
    true
}

/// The text that `FromUtf8Error` shows for `bytes` when they are not UTF-8.
pub uninterp spec fn utf8_error_text(bytes: Seq<u8>) -> Seq<char>;

/// Decodes UTF-8 bytes into a `String`.
///
/// Trusted: `String::from_utf8`, which succeeds exactly on valid UTF-8 and
/// then holds the decoded characters; on failure the error's display text
/// is returned, named [`utf8_error_text`].
#[verifier::external_body]
pub fn decode_utf8_bytes(bytes: &[u8]) -> (r: Result<String, String>)
    ensures
        r is Ok <==> valid_utf8(bytes@),
        r matches Ok(s) ==> s@ == decode_utf8(bytes@),
        r matches Err(m) ==> m@ == utf8_error_text(bytes@),
{
    match String::from_utf8(bytes.to_vec()) {
        Ok(s) => Ok(s),
        Err(e) => Err(e.to_string()),
    }
}

/// The lower-case form of `s` that `str::to_lowercase` computes (Unicode
/// `Lowercase` mapping, with its context rules).
pub uninterp spec fn lowercase(s: Seq<char>) -> Seq<char>;

/// The ASCII lower-case form of a character; other characters stay.
pub open spec fn ascii_lower_char(c: char) -> char {
    if 65 <= (c as u32) <= 90 {
        ((c as u32) + 32) as char
    } else {
        c
    }
}

/// The ASCII upper-case form of a character; other characters stay.
pub open spec fn ascii_upper_char(c: char) -> char {
    if 97 <= (c as u32) <= 122 {
        ((c as u32) - 32) as char
    } else {
        c
    }
}

/// The lower-case form of `s`: on all-ASCII text, `A`..`Z` lower-cased and
/// every other character kept; otherwise the Unicode mapping [`lowercase`].
pub open spec fn lowered(s: Seq<char>) -> Seq<char> {
    if is_ascii_chars(s) {
        s.map_values(|c: char| ascii_lower_char(c))
    } else {
        lowercase(s)
    }
}

/// Lower-cases a string.
///
/// Trusted: `str::to_lowercase`. Its result is named [`lowercase`]; on
/// text that is all ASCII, the Unicode mapping lower-cases `A`..`Z` and
/// keeps every other character, which the second clause states.
#[verifier::external_body]
pub fn to_lowercase(s: &str) -> (r: String)
    ensures
        r@ == lowercase(s@),
        r@ == lowered(s@),
{
    s.to_lowercase()
}

/// The ASCII lower-case form of `c`, as `char::to_ascii_lowercase` gives it.
pub fn lower_ascii(c: char) -> (l: char)
    ensures
        l == ascii_lower_char(c),
{
    if 'A' <= c && c <= 'Z' {
        let b = (c as u32) + 32;
        let l = (b as u8) as char;
        assert(l == ascii_lower_char(c)) by {
            assert((b as u8) as u32 == b);
        }
        l
    } else {
        c
    }
}

/// The ASCII upper-case form of `c`, as `char::to_ascii_uppercase` gives it.
pub fn upper_ascii(c: char) -> (u: char)
    ensures
        u == ascii_upper_char(c),
{
    if 'a' <= c && c <= 'z' {
        let b = (c as u32) - 32;
        let u = (b as u8) as char;
        assert(u == ascii_upper_char(c)) by {
            assert((b as u8) as u32 == b);
        }
        u
    } else {
        c
    }
}

} // verus!

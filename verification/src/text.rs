//! Character-level text helpers shared by the parsers and formatters of the shell.
//!
//! Strings are modelled by their views, `Seq<char>`. Unicode case mapping and
//! character classes whose tables take pages are named results of the std
//! functions that compute them; the rest is specified here directly.

use vstd::prelude::*;
use vstd::string::*;

verus! {

/// `String::push` appends one character.
pub assume_specification[ String::push ](s: &mut String, ch: char)
    ensures
        final(s)@ == old(s)@.push(ch),
;

/// The characters of `s`, in order.
pub fn chars_of(s: &str) -> (v: Vec<char>)
    ensures
        v@ == s@,
{
    let mut v: Vec<char> = Vec::new();
    for c in it: s.chars()
        invariant
            v@ == it.seq().take(it.index() as int),
    {
        v.push(c);
    }
    v
}

/// The string made of the characters `v`.
pub fn string_of(v: &[char]) -> (s: String)
    ensures
        s@ == v@,
{
    let mut s = String::new();
    let mut i: usize = 0;
    while i < v.len()
        invariant
            i <= v.len(),
            s@ == v@.take(i as int),
        decreases v.len() - i,
    {
        s.push(v[i]);
        i += 1;
        assert(s@ == v@.take(i as int));
    }
    assert(v@.take(v.len() as int) == v@);
    s
}

/// An owned copy of `s`.
pub fn owned(s: &str) -> (r: String)
    ensures
        r@ == s@,
{
    s.to_owned()
}

/// Whether two texts hold the same characters.
pub fn text_eq(a: &str, b: &str) -> (r: bool)
    ensures
        r == (a@ == b@),
{
    let x = chars_of(a);
    let y = chars_of(b);
    if x.len() != y.len() {
        return false;
    }
    let mut i: usize = 0;
    while i < x.len()
        invariant
            x@ == a@,
            y@ == b@,
            x.len() == y.len(),
            i <= x.len(),
            forall|k: int| 0 <= k < i ==> x@[k] == y@[k],
        decreases x.len() - i,
    {
        if x[i] != y[i] {
            return false;
        }
        i += 1;
    }
    assert(x@ =~= y@);
    true
}

/// The Unicode `White_Space` property, which `char::is_whitespace` tests.
pub open spec fn is_white_space(c: char) -> bool {
    let v = c as u32;
    ||| 0x09 <= v <= 0x0d
    ||| v == 0x20
    ||| v == 0x85
    ||| v == 0xa0
    ||| v == 0x1680
    ||| 0x2000 <= v <= 0x200a
    ||| v == 0x2028
    ||| v == 0x2029
    ||| v == 0x202f
    ||| v == 0x205f
    ||| v == 0x3000
}

/// Executable test of [`is_white_space`].
pub fn white_space(c: char) -> (r: bool)
    ensures
        r == is_white_space(c),
{
    let v = c as u32;
    (0x09 <= v && v <= 0x0d) || v == 0x20 || v == 0x85 || v == 0xa0 || v == 0x1680 || (0x2000 <= v
        && v <= 0x200a) || v == 0x2028 || v == 0x2029 || v == 0x202f || v == 0x205f || v == 0x3000
}

/// Number of leading white-space characters of `s`.
pub open spec fn leading_space(s: Seq<char>) -> nat
    decreases s.len(),
{
    if s.len() > 0 && is_white_space(s[0]) {
        1 + leading_space(s.drop_first())
    } else {
        0
    }
}

/// Number of trailing white-space characters of `s`.
pub open spec fn trailing_space(s: Seq<char>) -> nat
    decreases s.len(),
{
    if s.len() > 0 && is_white_space(s.last()) {
        1 + trailing_space(s.drop_last())
    } else {
        0
    }
}

/// `s` without its leading and trailing white space, as `str::trim` leaves it.
pub open spec fn trimmed(s: Seq<char>) -> Seq<char> {
    let front = s.skip(leading_space(s) as int);
    front.take(front.len() - trailing_space(front))
}

pub proof fn lemma_leading_space(s: Seq<char>, i: int)
    requires
        0 <= i <= s.len(),
        forall|k: int| 0 <= k < i ==> is_white_space(s[k]),
        i == s.len() || !is_white_space(s[i]),
    ensures
        leading_space(s) == i,
    decreases i,
{
    if i > 0 {
        lemma_leading_space(s.drop_first(), i - 1);
    }
}

pub proof fn lemma_trailing_space(s: Seq<char>, i: int)
    requires
        0 <= i <= s.len(),
        forall|k: int| s.len() - i <= k < s.len() ==> is_white_space(s[k]),
        i == s.len() || !is_white_space(s[s.len() - i - 1]),
    ensures
        trailing_space(s) == i,
    decreases i,
{
    if i > 0 {
        lemma_trailing_space(s.drop_last(), i - 1);
    }
}

/// `s` with leading and trailing white space removed.
pub fn trim(s: &str) -> (r: String)
    ensures
        r@ == trimmed(s@),
{
    let v = chars_of(s);
    let mut start: usize = 0;
    while start < v.len() && white_space(v[start])
        invariant
            v@ == s@,
            start <= v.len(),
            forall|k: int| 0 <= k < start ==> is_white_space(v@[k]),
        decreases v.len() - start,
    {
        start += 1;
    }
    proof {
        lemma_leading_space(s@, start as int);
    }
    let mut end: usize = v.len();
    while end > start && white_space(v[end - 1])
        invariant
            v@ == s@,
            start <= end <= v.len(),
            forall|k: int| end <= k < v.len() ==> is_white_space(v@[k]),
        decreases end,
    {
        end -= 1;
    }
    let ghost front = s@.skip(start as int);
    proof {
        lemma_trailing_space(front, (v.len() - end) as int);
    }
    let r = string_of(&v.as_slice()[start..end]);
    assert(r@ =~= trimmed(s@));
    r
}

/// The lowercase form of a text, as `str::to_lowercase` computes it with
/// the Unicode case tables.
pub uninterp spec fn lowercase(s: Seq<char>) -> Seq<char>;

/// The uppercase form of a text, as `str::to_uppercase` computes it.
pub uninterp spec fn uppercase(s: Seq<char>) -> Seq<char>;

/// Whether `char::is_alphanumeric` holds of a character (Unicode
/// `Alphabetic` or `Numeric`).
pub uninterp spec fn alphanumeric(c: char) -> bool;

/// The text that `String::from_utf8_lossy` decodes from some bytes.
pub uninterp spec fn lossy_text(bytes: Seq<u8>) -> Seq<char>;

/// Whether every character of a text is ASCII.
pub open spec fn all_ascii(s: Seq<char>) -> bool {
    forall|i: int| 0 <= i < s.len() ==> (#[trigger] s[i] as u32) < 0x80
}

/// ASCII uppercase of one character, as `char::to_ascii_uppercase`.
pub open spec fn ascii_upper(c: char) -> char {
    if 'a' <= c && c <= 'z' {
        ((c as u32) - 32) as char
    } else {
        c
    }
}

/// Calls `str::to_lowercase`; the result is the named [`lowercase`] of the
/// argument. Of the Unicode mapping only its ASCII part is stated: an
/// ASCII text is lowercased letter by letter.
#[verifier::external_body]
pub(crate) fn to_lowercase(s: &str) -> (r: String)
    ensures
        r@ == lowercase(s@),
        all_ascii(s@) ==> r@ == s@.map_values(|c: char| ascii_lower(c)),
{
    s.to_lowercase()
}

/// Calls `str::to_uppercase`; the result is the named [`uppercase`] of the
/// argument. Of the Unicode mapping only its ASCII part is stated: an
/// ASCII text is uppercased letter by letter.
#[verifier::external_body]
pub(crate) fn to_uppercase(s: &str) -> (r: String)
    ensures
        r@ == uppercase(s@),
        all_ascii(s@) ==> r@ == s@.map_values(|c: char| ascii_upper(c)),
{
    s.to_uppercase()
}

/// Calls `char::is_alphanumeric`; the result is the named [`alphanumeric`].
/// Of the Unicode classes only the ASCII part is stated: an ASCII
/// character is alphanumeric exactly when it is a letter or a digit.
#[verifier::external_body]
pub(crate) fn is_alphanumeric(c: char) -> (r: bool)
    ensures
        r == alphanumeric(c),
        (c as u32) < 0x80 ==> r == (('a' <= c && c <= 'z') || ('A' <= c && c <= 'Z') || ('0' <= c
            && c <= '9')),
{
    c.is_alphanumeric()
}

/// Calls `String::from_utf8_lossy`; the result is the named
/// [`lossy_text`]. Of its decoding only this is stated: valid UTF-8 comes
/// back as the text it encodes (invalid sequences become U+FFFD).
#[verifier::external_body]
pub(crate) fn from_utf8_lossy(bytes: &[u8]) -> (r: String)
    ensures
        r@ == lossy_text(bytes@),
        vstd::utf8::valid_utf8(bytes@) ==> r@ == vstd::utf8::decode_utf8(bytes@),
{
    String::from_utf8_lossy(bytes).into_owned()
}

/// ASCII lowercase of one character, as `char::to_ascii_lowercase`.
pub open spec fn ascii_lower(c: char) -> char {
    if 'A' <= c && c <= 'Z' {
        ((c as u32) + 32) as char
    } else {
        c
    }
}

/// Executable [`ascii_lower`].
pub fn to_ascii_lower(c: char) -> (r: char)
    ensures
        r == ascii_lower(c),
{
    if 'A' <= c && c <= 'Z' {
        let v = (c as u8) + 32;
        (v as char)
    } else {
        c
    }
}

/// Equality up to ASCII case, as `str::eq_ignore_ascii_case` decides it.
pub open spec fn eq_ignore_ascii_case(a: Seq<char>, b: Seq<char>) -> bool {
    a.len() == b.len() && forall|k: int| 0 <= k < a.len() ==> ascii_lower(#[trigger] a[k])
        == ascii_lower(b[k])
}

/// Executable [`eq_ignore_ascii_case`].
pub fn equal_ignoring_ascii_case(a: &str, b: &str) -> (r: bool)
    ensures
        r == eq_ignore_ascii_case(a@, b@),
{
    let x = chars_of(a);
    let y = chars_of(b);
    if x.len() != y.len() {
        return false;
    }
    let mut i: usize = 0;
    while i < x.len()
        invariant
            x@ == a@,
            y@ == b@,
            x.len() == y.len(),
            i <= x.len(),
            forall|k: int| 0 <= k < i ==> ascii_lower(#[trigger] x@[k]) == ascii_lower(y@[k]),
        decreases x.len() - i,
    {
        if to_ascii_lower(x[i]) != to_ascii_lower(y[i]) {
            return false;
        }
        i += 1;
    }
    true
}

/// `s` with every `from` replaced by `to`.
pub open spec fn replaced(s: Seq<char>, from: char, to: char) -> Seq<char> {
    s.map_values(|c: char| if c == from { to } else { c })
}

/// Executable [`replaced`].
pub fn replace_char(s: &str, from: char, to: char) -> (r: String)
    ensures
        r@ == replaced(s@, from, to),
{
    let v = chars_of(s);
    let mut out: Vec<char> = Vec::new();
    let mut i: usize = 0;
    while i < v.len()
        invariant
            v@ == s@,
            i <= v.len(),
            out@ == replaced(v@.take(i as int), from, to),
        decreases v.len() - i,
    {
        out.push(if v[i] == from { to } else { v[i] });
        i += 1;
        assert(out@ =~= replaced(v@.take(i as int), from, to));
    }
    assert(v@.take(v.len() as int) =~= v@);
    string_of(out.as_slice())
}

/// Whether `c` occurs in `s`.
pub fn contains_char(s: &str, c: char) -> (r: bool)
    ensures
        r == s@.contains(c),
{
    let v = chars_of(s);
    let mut i: usize = 0;
    while i < v.len()
        invariant
            v@ == s@,
            i <= v.len(),
            forall|k: int| 0 <= k < i ==> v@[k] != c,
        decreases v.len() - i,
    {
        if v[i] == c {
            return true;
        }
        i += 1;
    }
    false
}

/// Pieces of `s` between the occurrences of `sep`, as `str::split` yields
/// them for a character separator.
pub open spec fn split_char(s: Seq<char>, sep: char) -> Seq<Seq<char>>
    decreases s.len(),
{
    if s.len() == 0 {
        seq![Seq::<char>::empty()]
    } else {
        let rest = split_char(s.drop_last(), sep);
        if s.last() == sep {
            rest.push(Seq::<char>::empty())
        } else {
            rest.update(rest.len() - 1, rest.last().push(s.last()))
        }
    }
}

pub proof fn lemma_split_char_len(s: Seq<char>, sep: char)
    ensures
        split_char(s, sep).len() >= 1,
    decreases s.len(),
{
    if s.len() > 0 {
        lemma_split_char_len(s.drop_last(), sep);
    }
}

/// The lines of `s`, as `str::lines` yields them: split at `\n`, a final
/// empty piece dropped, and a `\r` before each `\n` removed.
pub open spec fn lines_of(s: Seq<char>) -> Seq<Seq<char>> {
    let pieces = split_char(s, '\n');
    let kept = if pieces.last().len() == 0 {
        pieces.drop_last()
    } else {
        pieces
    };
    Seq::new(
        kept.len(),
        |i: int|
            if i < pieces.len() - 1 && kept[i].len() > 0 && kept[i].last() == '\r' {
                kept[i].drop_last()
            } else {
                kept[i]
            },
    )
}

/// Splitting a text that holds no separator gives the text alone.
pub proof fn lemma_split_without_sep(s: Seq<char>, sep: char)
    requires
        !s.contains(sep),
    ensures
        split_char(s, sep) == seq![s],
    decreases s.len(),
{
    if s.len() > 0 {
        let front = s.drop_last();
        assert forall|i: int| 0 <= i < front.len() implies front[i] != sep by {
            assert(front[i] == s[i]);
        }
        assert(s.last() == s[s.len() - 1]);
        lemma_split_without_sep(front, sep);
        assert(s.last() != sep);
        assert(front.push(s.last()) =~= s);
        assert(seq![front].update(0, front.push(s.last())) =~= seq![s]);
    } else {
        assert(s =~= Seq::<char>::empty());
    }
}

/// Splitting at a separator followed by a text without separators ends
/// with that text as the last piece.
pub proof fn lemma_split_after_sep(a: Seq<char>, b: Seq<char>, sep: char)
    requires
        !b.contains(sep),
    ensures
        split_char(a.push(sep) + b, sep) == split_char(a, sep).push(b),
    decreases b.len(),
{
    if b.len() == 0 {
        assert(a.push(sep) + b =~= a.push(sep));
        assert(a.push(sep).drop_last() =~= a);
        assert(b =~= Seq::<char>::empty());
    } else {
        let b1 = b.drop_last();
        assert forall|i: int| 0 <= i < b1.len() implies b1[i] != sep by {
            assert(b1[i] == b[i]);
        }
        assert(b.last() == b[b.len() - 1]);
        lemma_split_after_sep(a, b1, sep);
        let s = a.push(sep) + b;
        assert(s.drop_last() =~= a.push(sep) + b1);
        assert(s.last() == b.last());
        assert(b.last() != sep);
        assert(b1.push(b.last()) =~= b);
        let rest = split_char(a, sep).push(b1);
        assert(rest.update(rest.len() - 1, rest.last().push(s.last())) =~= split_char(a, sep).push(
            b,
        ));
    }
}

/// Splitting pieces joined by a separator gives back the pieces, when
/// none holds the separator.
pub proof fn lemma_split_joined(parts: Seq<Seq<char>>, sep: char)
    requires
        parts.len() > 0,
        forall|i: int| 0 <= i < parts.len() ==> !(#[trigger] parts[i]).contains(sep),
    ensures
        split_char(joined(parts, seq![sep]), sep) == parts,
    decreases parts.len(),
{
    if parts.len() == 1 {
        lemma_split_without_sep(parts[0], sep);
        assert(seq![parts[0]] =~= parts);
    } else {
        let front = parts.drop_last();
        assert forall|i: int| 0 <= i < front.len() implies !(#[trigger] front[i]).contains(sep) by {
            assert(front[i] == parts[i]);
        }
        lemma_split_joined(front, sep);
        let j = joined(front, seq![sep]);
        assert(j + seq![sep] + parts.last() =~= j.push(sep) + parts.last());
        assert(parts.last() == parts[parts.len() - 1]);
        lemma_split_after_sep(j, parts.last(), sep);
        assert(front.push(parts.last()) =~= parts);
    }
}

/// The lines of a text made of lines, each followed by a line break, are
/// those lines, when none holds a line break or ends in a carriage
/// return.
pub proof fn lemma_lines_of_joined(parts: Seq<Seq<char>>)
    requires
        parts.len() > 0,
        forall|i: int|
            0 <= i < parts.len() ==> !(#[trigger] parts[i]).contains('\n') && (parts[i].len() == 0
                || parts[i].last() != '\r'),
    ensures
        lines_of(joined(parts, "\n"@) + "\n"@) == parts,
{
    reveal_strlit("\n");
    assert("\n"@ =~= seq!['\n']);
    let j = joined(parts, "\n"@);
    lemma_split_joined(parts, '\n');
    assert(j + "\n"@ =~= j.push('\n') + Seq::<char>::empty());
    lemma_split_after_sep(j, Seq::<char>::empty(), '\n');
    let pieces = split_char(j + "\n"@, '\n');
    assert(pieces == parts.push(Seq::<char>::empty()));
    assert(pieces.drop_last() =~= parts);
    assert(lines_of(j + "\n"@) =~= parts);
}

/// The leading and trailing white space of a text lie within it.
pub proof fn lemma_space_bounds(s: Seq<char>)
    ensures
        leading_space(s) <= s.len(),
        trailing_space(s) <= s.len(),
    decreases s.len(),
{
    if s.len() > 0 {
        lemma_space_bounds(s.drop_first());
        lemma_space_bounds(s.drop_last());
    }
}

/// A non-empty text that trimming leaves unchanged neither starts nor
/// ends with white space.
pub proof fn lemma_trimmed_fixed(s: Seq<char>)
    requires
        trimmed(s) == s,
        s.len() > 0,
    ensures
        !is_white_space(s[0]),
        !is_white_space(s.last()),
{
    let front = s.skip(leading_space(s) as int);
    lemma_space_bounds(s);
    lemma_space_bounds(front);
    assert(trimmed(s).len() == s.len() - leading_space(s) - trailing_space(front));
    assert(leading_space(s) == 0);
    assert(front =~= s);
    assert(trailing_space(s) == 0);
}

/// Splits `s` at every `sep`.
pub fn split_at_char(s: &str, sep: char) -> (r: Vec<Vec<char>>)
    ensures
        r@.map_values(|p: Vec<char>| p@) == split_char(s@, sep),
        r@.len() >= 1,
{
    let v = chars_of(s);
    let mut done: Vec<Vec<char>> = Vec::new();
    let mut current: Vec<char> = Vec::new();
    let mut i: usize = 0;
    while i < v.len()
        invariant
            v@ == s@,
            i <= v.len(),
            done@.map_values(|p: Vec<char>| p@).push(current@) == split_char(
                v@.take(i as int),
                sep,
            ),
        decreases v.len() - i,
    {
        let ghost before = v@.take(i as int);
        assert(v@.take(i + 1).drop_last() =~= before);
        let c = v[i];
        if c == sep {
            let piece = current;
            done.push(piece);
            current = Vec::new();
            assert(done@.map_values(|p: Vec<char>| p@).push(current@) =~= split_char(
                before,
                sep,
            ).push(Seq::<char>::empty()));
        } else {
            current.push(c);
            assert(done@.map_values(|p: Vec<char>| p@).push(current@) =~= split_char(
                before,
                sep,
            ).update(
                split_char(before, sep).len() - 1,
                split_char(before, sep).last().push(c),
            ));
        }
        i += 1;
    }
    assert(v@.take(v.len() as int) =~= v@);
    done.push(current);
    assert(done@.map_values(|p: Vec<char>| p@) =~= split_char(s@, sep));
    done
}

/// The lines of `s`.
pub fn lines(s: &str) -> (r: Vec<String>)
    ensures
        r@.map_values(|l: String| l@) == lines_of(s@),
{
    let pieces = split_at_char(s, '\n');
    let ghost spec_pieces = split_char(s@, '\n');
    assert(pieces@.len() == spec_pieces.len());
    assert(forall|i: int| 0 <= i < pieces@.len() ==> #[trigger] pieces@[i]@ == spec_pieces[i]) by {
        assert forall|i: int| 0 <= i < pieces@.len() implies #[trigger] pieces@[i]@
            == spec_pieces[i] by {
            assert(pieces@.map_values(|p: Vec<char>| p@)[i] == pieces@[i]@);
        }
    }
    proof {
        lemma_split_char_len(s@, '\n');
    }
    let count = if pieces[pieces.len() - 1].len() == 0 {
        pieces.len() - 1
    } else {
        pieces.len()
    };
    let mut out: Vec<String> = Vec::new();
    let mut i: usize = 0;
    while i < count
        invariant
            count <= pieces@.len(),
            forall|j: int| 0 <= j < pieces@.len() ==> #[trigger] pieces@[j]@ == spec_pieces[j],
            spec_pieces.len() == pieces@.len(),
            spec_pieces == split_char(s@, '\n'),
            spec_pieces.len() >= 1,
            count == lines_of(s@).len(),
            i <= count,
            out@.len() == i,
            forall|j: int| 0 <= j < i ==> #[trigger] out@[j]@ == lines_of(s@)[j],
        decreases count - i,
    {
        let piece = &pieces[i];
        let n = piece.len();
        let strip = i + 1 < pieces.len() && n > 0 && piece[n - 1] == '\r';
        let line = if strip {
            string_of(&piece.as_slice()[0..n - 1])
        } else {
            string_of(piece.as_slice())
        };
        proof {
            assert(pieces@[i as int]@ == spec_pieces[i as int]);
            let kept = if spec_pieces.last().len() == 0 {
                spec_pieces.drop_last()
            } else {
                spec_pieces
            };
            assert(kept[i as int] == spec_pieces[i as int]);
            assert(lines_of(s@)[i as int] == (if i < spec_pieces.len() - 1 && kept[i as int].len() > 0
                && kept[i as int].last() == '\r' {
                kept[i as int].drop_last()
            } else {
                kept[i as int]
            }));
            if strip {
                assert(line@ =~= lines_of(s@)[i as int]);
            } else {
                assert(line@ =~= lines_of(s@)[i as int]);
            }
        }
        out.push(line);
        i += 1;
    }
    assert(out@.map_values(|l: String| l@) =~= lines_of(s@));
    out
}

/// The decimal digits of `n`, as `Display` writes an unsigned integer.
pub open spec fn decimal(n: nat) -> Seq<char>
    decreases n,
{
    if n < 10 {
        seq![digit_char((n % 10) as nat)]
    } else {
        decimal(n / 10).push(digit_char((n % 10) as nat))
    }
}

/// The ASCII digit for `d < 10`.
pub open spec fn digit_char(d: nat) -> char {
    (0x30 + d) as char
}

proof fn lemma_decimal_nonempty(n: nat)
    ensures
        decimal(n).len() >= 1,
    decreases n,
{
    if n >= 10 {
        lemma_decimal_nonempty(n / 10);
    }
}

/// The decimal text of `n`.
pub fn decimal_string(n: u128) -> (r: String)
    ensures
        r@ == decimal(n as nat),
{
    let mut digits: Vec<char> = Vec::new();
    let mut m: u128 = n;
    // digits holds the low digits of n, least significant first
    loop
        invariant_except_break
            m <= n,
            decimal(n as nat) == decimal(m as nat) + digits@.reverse(),
        ensures
            decimal(n as nat) == digits@.reverse(),
        decreases m,
    {
        let d = (m % 10) as u8;
        let c = (0x30 + d) as char;
        assert(c == digit_char((m % 10) as nat));
        let ghost before = digits@;
        digits.push(c);
        assert(digits@.reverse() =~= seq![c] + before.reverse());
        if m < 10 {
            assert(decimal(m as nat) =~= seq![c]);
            assert(decimal(n as nat) =~= digits@.reverse());
            break;
        }
        let ghost old_m = m;
        m = m / 10;
        assert(decimal(old_m as nat) =~= decimal(m as nat).push(c));
        assert(decimal(n as nat) =~= decimal(m as nat) + digits@.reverse());
    }
    let mut out: Vec<char> = Vec::new();
    let mut i: usize = digits.len();
    while i > 0
        invariant
            i <= digits.len(),
            out@ == digits@.reverse().take((digits.len() - i) as int),
        decreases i,
    {
        i -= 1;
        out.push(digits[i]);
        assert(out@ =~= digits@.reverse().take((digits.len() - i) as int));
    }
    assert(out@ =~= digits@.reverse());
    string_of(out.as_slice())
}

/// Whether `c` is an ASCII digit.
pub open spec fn is_digit(c: char) -> bool {
    '0' <= c && c <= '9'
}

/// The value of a string of ASCII digits.
pub open spec fn digits_value(s: Seq<char>) -> nat
    decreases s.len(),
{
    if s.len() == 0 {
        0
    } else {
        digits_value(s.drop_last()) * 10 + ((s.last() as u32) - 0x30) as nat
    }
}

/// Whether every character of `s` is an ASCII digit.
pub open spec fn all_digits(s: Seq<char>) -> bool {
    forall|k: int| 0 <= k < s.len() ==> is_digit(#[trigger] s[k])
}

/// The digits part of an unsigned-integer text: `s` without a leading `+`.
pub open spec fn unsigned_body(s: Seq<char>) -> Seq<char> {
    if s.len() > 0 && s[0] == '+' {
        s.drop_first()
    } else {
        s
    }
}

/// What `str::parse` gives for an unsigned integer type whose largest
/// value is `max`: an optional `+`, then at least one ASCII digit, and a
/// value that fits.
pub open spec fn parsed_unsigned(s: Seq<char>, max: nat) -> Option<nat> {
    let body = unsigned_body(s);
    if body.len() > 0 && all_digits(body) && digits_value(body) <= max {
        Some(digits_value(body))
    } else {
        None
    }
}

proof fn lemma_digits_value_monotone(s: Seq<char>, k: int)
    requires
        0 <= k <= s.len(),
        all_digits(s),
    ensures
        digits_value(s.take(k)) <= digits_value(s),
    decreases s.len() - k,
{
    if k == s.len() {
        assert(s.take(k) =~= s);
    } else {
        lemma_digits_value_monotone(s, k + 1);
        assert(s.take(k + 1).drop_last() =~= s.take(k));
        assert(s.take(k + 1).last() == s[k]);
        assert(is_digit(s[k]));
        assert(digits_value(s.take(k + 1)) >= digits_value(s.take(k)));
    }
}

/// Parses `s` as an unsigned integer no larger than `max`.
pub fn parse_unsigned(s: &str, max: u64) -> (r: Option<u64>)
    ensures
        r matches Some(v) ==> parsed_unsigned(s@, max as nat) == Some(v as nat),
        r is None ==> parsed_unsigned(s@, max as nat) is None,
{
    let v = chars_of(s);
    let start: usize = if v.len() > 0 && v[0] == '+' {
        1
    } else {
        0
    };
    let ghost body = s@.skip(start as int);
    assert(body =~= unsigned_body(s@));
    if start >= v.len() {
        return None;
    }
    let mut value: u64 = 0;
    let mut i: usize = start;
    while i < v.len()
        invariant
            v@ == s@,
            start <= i <= v.len(),
            body == s@.skip(start as int),
            body == unsigned_body(s@),
            body.len() > 0,
            forall|k: int| start <= k < i ==> is_digit(#[trigger] v@[k]),
            value as nat == digits_value(body.take(i - start)),
            value <= max,
        decreases v.len() - i,
    {
        let c = v[i];
        if !('0' <= c && c <= '9') {
            proof {
                assert(body[i - start] == v@[i as int]);
                assert(!is_digit(body[i - start]));
                assert(!all_digits(body));
            }
            return None;
        }
        let d = (c as u32 - 0x30) as u64;
        assert(body.take(i + 1 - start).drop_last() =~= body.take(i - start));
        assert(digits_value(body.take(i + 1 - start)) == value * 10 + d);
        if d > max || value > (max - d) / 10 {
            proof {
                assert(value * 10 + d > max) by (nonlinear_arith)
                    requires
                        d > max || value > (max - d) / 10,
                ;
                if all_digits(body) {
                    lemma_digits_value_monotone(body, i + 1 - start);
                }
            }
            return None;
        }
        value = value * 10 + d;
        i += 1;
    }
    assert(body.take(v.len() - start) =~= body);
    Some(value)
}

/// The value of a signed 64-bit integer text, as `i64::from_str` reads
/// it: an optional `-` or `+` sign, then ASCII digits, within the range
/// of `i64`.
pub open spec fn parsed_signed(s: Seq<char>) -> Option<int> {
    if s.len() > 0 && s[0] == '-' {
        let body = s.drop_first();
        if body.len() > 0 && all_digits(body) && digits_value(body) <= 0x8000_0000_0000_0000 {
            Some(-digits_value(body))
        } else {
            None
        }
    } else {
        match parsed_unsigned(s, 0x7fff_ffff_ffff_ffff) {
            Some(n) => Some(n as int),
            None => None,
        }
    }
}

/// Parses a signed integer text (see [`parsed_signed`]).
pub fn parse_signed(s: &str) -> (r: Option<i64>)
    ensures
        r matches Some(v) ==> parsed_signed(s@) == Some(v as int),
        r is None ==> parsed_signed(s@) is None,
{
    let v = chars_of(s);
    if v.len() > 0 && v[0] == '-' {
        let rest = string_of(&v.as_slice()[1..v.len()]);
        assert(rest@ =~= s@.drop_first());
        let w = chars_of(rest.as_str());
        if w.len() > 0 && w[0] == '+' {
            assert(!is_digit(rest@[0]));
            return None;
        }
        assert(unsigned_body(rest@) == rest@);
        match parse_unsigned(rest.as_str(), 0x8000_0000_0000_0000) {
            Some(n) => if n == 0x8000_0000_0000_0000 {
                Some(i64::MIN)
            } else {
                Some(-(n as i64))
            },
            None => None,
        }
    } else {
        match parse_unsigned(s, 0x7fff_ffff_ffff_ffff) {
            Some(n) => Some(n as i64),
            None => None,
        }
    }
}

/// The text of an optional string.
pub open spec fn opt_view(o: Option<String>) -> Option<Seq<char>> {
    match o {
        Some(s) => Some(s@),
        None => None,
    }
}

/// The text of an optional string slice.
pub open spec fn opt_str(o: Option<&str>) -> Option<Seq<char>> {
    match o {
        Some(s) => Some(s@),
        None => None,
    }
}

/// The parts written one after another with `sep` between them.
pub open spec fn joined(parts: Seq<Seq<char>>, sep: Seq<char>) -> Seq<char>
    decreases parts.len(),
{
    if parts.len() == 0 {
        Seq::empty()
    } else if parts.len() == 1 {
        parts[0]
    } else {
        joined(parts.drop_last(), sep) + sep + parts.last()
    }
}

/// Executable [`joined`].
pub fn join(parts: &Vec<String>, sep: &str) -> (r: String)
    ensures
        r@ == joined(parts@.map_values(|p: String| p@), sep@),
{
    let ghost pv = parts@.map_values(|p: String| p@);
    let mut out = String::new();
    let mut i: usize = 0;
    while i < parts.len()
        invariant
            pv == parts@.map_values(|p: String| p@),
            i <= parts@.len(),
            out@ == joined(pv.take(i as int), sep@),
        decreases parts@.len() - i,
    {
        assert(pv.take(i + 1).drop_last() =~= pv.take(i as int));
        assert(pv.take(i + 1).last() == parts@[i as int]@);
        if i > 0 {
            out.append(sep);
        } else {
            assert(out@ =~= Seq::<char>::empty());
        }
        out.append(parts[i].as_str());
        i += 1;
        proof {
            if i == 1 {
                assert(out@ =~= pv.take(1)[0]);
            }
        }
    }
    assert(pv.take(parts@.len() as int) =~= pv);
    out
}

/// Whether two byte strings are equal.
pub fn bytes_eq(a: &[u8], b: &[u8]) -> (r: bool)
    ensures
        r == (a@ == b@),
{
    if a.len() != b.len() {
        return false;
    }
    let mut i: usize = 0;
    while i < a.len()
        invariant
            a@.len() == b@.len(),
            i <= a@.len(),
            forall|k: int| 0 <= k < i ==> a@[k] == b@[k],
        decreases a@.len() - i,
    {
        if a[i] != b[i] {
            return false;
        }
        i += 1;
    }
    assert(a@ =~= b@);
    true
}

/// The position of the first element of `s` that satisfies `p`.
pub open spec fn first_where<T>(s: Seq<T>, p: spec_fn(T) -> bool) -> Option<int>
    decreases s.len(),
{
    if s.len() == 0 {
        None
    } else if p(s[0]) {
        Some(0)
    } else {
        match first_where(s.drop_first(), p) {
            Some(i) => Some(i + 1),
            None => None,
        }
    }
}

/// A scan that found no match before `i` and a match at `i` (or reached
/// the end) has found [`first_where`].
pub proof fn lemma_first_where<T>(s: Seq<T>, p: spec_fn(T) -> bool, i: int)
    requires
        0 <= i <= s.len(),
        forall|k: int| 0 <= k < i ==> !p(#[trigger] s[k]),
        i < s.len() ==> p(s[i]),
    ensures
        first_where(s, p) == (if i < s.len() {
            Some(i)
        } else {
            None::<int>
        }),
    decreases i,
{
    if i > 0 {
        assert(!p(s[0]));
        let t = s.drop_first();
        assert forall|k: int| 0 <= k < i - 1 implies !p(#[trigger] t[k]) by {
            assert(t[k] == s[k + 1]);
        }
        if i < s.len() {
            assert(t[i - 1] == s[i]);
        }
        lemma_first_where(t, p, i - 1);
    }
}

/// What [`first_where`] finds satisfies the test, and nothing before it
/// does; without a find, nothing does.
pub proof fn lemma_first_where_found<T>(s: Seq<T>, p: spec_fn(T) -> bool)
    ensures
        match first_where(s, p) {
            Some(i) => 0 <= i < s.len() && p(s[i]) && forall|k: int| 0 <= k < i ==> !p(#[trigger] s[k]),
            None => forall|k: int| 0 <= k < s.len() ==> !p(#[trigger] s[k]),
        },
    decreases s.len(),
{
    if s.len() > 0 && !p(s[0]) {
        let t = s.drop_first();
        lemma_first_where_found(t, p);
        assert forall|k: int| 0 <= k < s.len() && k > 0 implies s[k] == #[trigger] t[k - 1] by {}
        match first_where(t, p) {
            Some(i) => {
                assert forall|k: int| 0 <= k < i + 1 implies !p(#[trigger] s[k]) by {
                    if k > 0 {
                        assert(s[k] == t[k - 1]);
                    }
                }
            },
            None => {
                assert forall|k: int| 0 <= k < s.len() implies !p(#[trigger] s[k]) by {
                    if k > 0 {
                        assert(s[k] == t[k - 1]);
                    }
                }
            },
        }
    }
}

/// Bytes of the UTF-8 encoding of `c`, as `char::len_utf8` counts them.
pub open spec fn char_width(c: char) -> nat {
    let v = c as u32;
    if v < 0x80 {
        1
    } else if v < 0x800 {
        2
    } else if v < 0x10000 {
        3
    } else {
        4
    }
}

/// Bytes of the UTF-8 encoding of `s`.
pub open spec fn utf8_len(s: Seq<char>) -> nat
    decreases s.len(),
{
    if s.len() == 0 {
        0
    } else {
        utf8_len(s.drop_last()) + char_width(s.last())
    }
}

pub proof fn lemma_utf8_len_prefix(s: Seq<char>, n: int)
    requires
        0 <= n <= s.len(),
    ensures
        utf8_len(s.take(n)) <= utf8_len(s),
    decreases s.len() - n,
{
    if n < s.len() {
        lemma_utf8_len_prefix(s, n + 1);
        assert(s.take(n + 1).drop_last() =~= s.take(n));
    } else {
        assert(s.take(n) =~= s);
    }
}

/// Whether the UTF-8 encoding of `s` has at most `max` bytes.
pub fn fits_bytes(s: &str, max: usize) -> (r: bool)
    ensures
        r == (utf8_len(s@) <= max),
{
    let v = chars_of(s);
    let mut n: usize = 0;
    let mut total: usize = 0;
    while n < v.len()
        invariant
            v@ == s@,
            n <= v.len(),
            total == utf8_len(v@.take(n as int)),
            total <= max,
        decreases v.len() - n,
    {
        let c = v[n] as u32;
        let w: usize = if c < 0x80 {
            1
        } else if c < 0x800 {
            2
        } else if c < 0x10000 {
            3
        } else {
            4
        };
        assert(v@.take(n + 1).drop_last() =~= v@.take(n as int));
        if w > max - total {
            proof {
                lemma_utf8_len_prefix(v@, n + 1);
            }
            return false;
        }
        total = total + w;
        n += 1;
    }
    assert(v@.take(v.len() as int) =~= v@);
    true
}

/// Whether `needle` occurs in `hay` at position `i`.
pub open spec fn occurs_at(hay: Seq<char>, needle: Seq<char>, i: int) -> bool {
    0 <= i && i + needle.len() <= hay.len() && hay.subrange(i, i + needle.len()) == needle
}

/// Whether `needle` occurs in `hay`, as `str::contains` decides it.
pub open spec fn contains_text(hay: Seq<char>, needle: Seq<char>) -> bool {
    exists|i: int| #[trigger] occurs_at(hay, needle, i)
}

fn occurs_at_exec(hay: &Vec<char>, needle: &Vec<char>, i: usize) -> (r: bool)
    requires
        i + needle@.len() <= hay@.len(),
    ensures
        r == occurs_at(hay@, needle@, i as int),
{
    let hl = hay.len();
    let mut k: usize = 0;
    while k < needle.len()
        invariant
            hl == hay@.len(),
            i + needle@.len() <= hay@.len(),
            k <= needle@.len(),
            forall|j: int| 0 <= j < k ==> hay@[i + j] == needle@[j],
        decreases needle@.len() - k,
    {
        if hay[i + k] != needle[k] {
            assert(hay@.subrange(i as int, i + needle@.len())[k as int] != needle@[k as int]);
            return false;
        }
        k += 1;
    }
    assert(hay@.subrange(i as int, i + needle@.len()) =~= needle@);
    true
}

/// Executable [`contains_text`].
pub fn contains_str(hay: &str, needle: &str) -> (r: bool)
    ensures
        r == contains_text(hay@, needle@),
{
    let h = chars_of(hay);
    let n = chars_of(needle);
    if n.len() > h.len() {
        assert forall|i: int| !#[trigger] occurs_at(hay@, needle@, i) by {}
        return false;
    }
    let last = h.len() - n.len();
    let mut i: usize = 0;
    loop
        invariant
            h@ == hay@,
            n@ == needle@,
            n@.len() <= h@.len(),
            last == h@.len() - n@.len(),
            i <= last,
            forall|j: int| 0 <= j < i ==> !#[trigger] occurs_at(hay@, needle@, j),
        ensures
            forall|j: int| 0 <= j <= last ==> !#[trigger] occurs_at(hay@, needle@, j),
        decreases last - i,
    {
        if occurs_at_exec(&h, &n, i) {
            return true;
        }
        if i == last {
            break;
        }
        i += 1;
    }
    assert forall|j: int| !#[trigger] occurs_at(hay@, needle@, j) by {
        if 0 <= j && j <= last {
        }
    }
    false
}

/// The white-space separated words of `s`, as `str::split_whitespace`
/// yields them.
pub open spec fn words(s: Seq<char>) -> Seq<Seq<char>> {
    words_scan(s, 0, Seq::empty(), Seq::empty())
}

/// Scans `s` from `i` with the words `done` and the word being read
/// `current`.
pub open spec fn words_scan(s: Seq<char>, i: int, done: Seq<Seq<char>>, current: Seq<char>) -> Seq<
    Seq<char>,
>
    decreases s.len() - i,
{
    if i < 0 || i >= s.len() {
        if current.len() > 0 {
            done.push(current)
        } else {
            done
        }
    } else if is_white_space(s[i]) {
        words_scan(
            s,
            i + 1,
            if current.len() > 0 {
                done.push(current)
            } else {
                done
            },
            Seq::empty(),
        )
    } else {
        words_scan(s, i + 1, done, current.push(s[i]))
    }
}

/// Executable [`words`].
pub fn split_words(s: &str) -> (r: Vec<String>)
    ensures
        r@.map_values(|w: String| w@) == words(s@),
{
    let v = chars_of(s);
    let mut done: Vec<String> = Vec::new();
    let mut current: Vec<char> = Vec::new();
    let mut i: usize = 0;
    assert(done@.map_values(|w: String| w@) =~= Seq::<Seq<char>>::empty());
    assert(current@ =~= Seq::<char>::empty());
    while i < v.len()
        invariant
            v@ == s@,
            i <= v@.len(),
            words(s@) == words_scan(s@, i as int, done@.map_values(|w: String| w@), current@),
        decreases v@.len() - i,
    {
        if white_space(v[i]) {
            if current.len() > 0 {
                let ghost before = done@.map_values(|w: String| w@);
                let w = string_of(current.as_slice());
                done.push(w);
                assert(done@.map_values(|w: String| w@) =~= before.push(current@));
            }
            current = Vec::new();
            assert(current@ =~= Seq::<char>::empty());
        } else {
            current.push(v[i]);
        }
        i += 1;
    }
    if current.len() > 0 {
        let ghost before = done@.map_values(|w: String| w@);
        let w = string_of(current.as_slice());
        done.push(w);
        assert(done@.map_values(|w: String| w@) =~= before.push(current@));
    }
    done
}

/// The last position at or before `i` where `needle` occurs in `hay`.
pub open spec fn last_occurrence(hay: Seq<char>, needle: Seq<char>, i: int) -> Option<int>
    decreases i + 1,
{
    if i < 0 {
        None
    } else if occurs_at(hay, needle, i) {
        Some(i)
    } else {
        last_occurrence(hay, needle, i - 1)
    }
}

/// What [`last_occurrence`] finds is an occurrence, at or before `i`.
pub proof fn lemma_last_occurrence(hay: Seq<char>, needle: Seq<char>, i: int)
    ensures
        match last_occurrence(hay, needle, i) {
            Some(j) => occurs_at(hay, needle, j) && j <= i,
            None => true,
        },
    decreases i + 1,
{
    if i >= 0 && !occurs_at(hay, needle, i) {
        lemma_last_occurrence(hay, needle, i - 1);
    }
}

/// The last position of `needle` in `hay`, as `str::rfind` finds it.
pub fn last_index_of(hay: &str, needle: &str) -> (r: Option<usize>)
    ensures
        match r {
            Some(i) => last_occurrence(hay@, needle@, hay@.len() - needle@.len()) == Some(i as int),
            None => last_occurrence(hay@, needle@, hay@.len() - needle@.len()) is None,
        },
{
    let h = chars_of(hay);
    let n = chars_of(needle);
    if n.len() > h.len() {
        return None;
    }
    let mut i: usize = h.len() - n.len();
    loop
        invariant
            h@ == hay@,
            n@ == needle@,
            n@.len() <= h@.len(),
            i <= h@.len() - n@.len(),
            last_occurrence(hay@, needle@, hay@.len() - needle@.len()) == last_occurrence(
                hay@,
                needle@,
                i as int,
            ),
        decreases i,
    {
        if occurs_at_exec(&h, &n, i) {
            return Some(i);
        }
        if i == 0 {
            assert(last_occurrence(hay@, needle@, -1) is None);
            return None;
        }
        i -= 1;
    }
}

/// `s` without one trailing `suffix`, as `str::strip_suffix` leaves it
/// (unchanged when it does not end so).
pub open spec fn strip_once(s: Seq<char>, suffix: Seq<char>) -> Seq<char> {
    if s.len() >= suffix.len() && s.subrange(s.len() - suffix.len(), s.len() as int) == suffix {
        s.subrange(0, s.len() - suffix.len())
    } else {
        s
    }
}

/// Executable [`strip_once`].
pub fn strip_suffix_once(s: &str, suffix: &str) -> (r: String)
    ensures
        r@ == strip_once(s@, suffix@),
{
    let v = chars_of(s);
    let x = chars_of(suffix);
    if x.len() > v.len() {
        return owned(s);
    }
    let start = v.len() - x.len();
    if occurs_at_exec(&v, &x, start) {
        string_of(&v.as_slice()[0..start])
    } else {
        owned(s)
    }
}

/// Whether `s` starts with `prefix`.
pub fn starts_with_text(s: &str, prefix: &str) -> (r: bool)
    ensures
        r == (prefix@.len() <= s@.len() && s@.subrange(0, prefix@.len() as int) == prefix@),
{
    let v = chars_of(s);
    let x = chars_of(prefix);
    if x.len() > v.len() {
        return false;
    }
    let r = occurs_at_exec(&v, &x, 0);
    r
}

} // verus!

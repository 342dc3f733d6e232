//! Character-level helpers shared by the rest of the library: conversion
//! between strings and character vectors, decimal rendering, padding,
//! substring search, whitespace trimming, and the two small text transforms
//! used by the reports (`csv_field` and `truncate_end`).

use vstd::prelude::*;
use vstd::string::*;

verus! {

// ---------------------------------------------------------------------------
// Building strings
// ---------------------------------------------------------------------------

/// Appends one character to a string.
///
/// Trusted: `String::push` adds `c` at the end of the string and changes
/// nothing else.
#[verifier::external_body]
pub(crate) fn push_char(s: &mut String, c: char)
    ensures
        final(s)@ == old(s)@.push(c),
{
    s.push(c);
}

/// The characters of `s`, in order.
pub fn chars_of(s: &str) -> (res: Vec<char>)
    ensures
        res@ == s@,
{
    let mut out: Vec<char> = Vec::new();
    for c in it: s.chars()
        invariant
            out@ == it.seq().take(it.index()),
    {
        out.push(c);
    }
    out
}

/// Appends every character of `chars` to `s`.
pub fn push_chars(s: &mut String, chars: &Vec<char>)
    ensures
        final(s)@ == old(s)@ + chars@,
{
    let mut i: usize = 0;
    while i < chars.len()
        invariant
            i <= chars.len(),
            s@ == old(s)@ + chars@.take(i as int),
        decreases chars.len() - i,
    {
        push_char(s, chars[i]);
        i += 1;
        assert(chars@.take(i as int) =~= chars@.take(i - 1).push(chars@[i - 1]));
    }
    assert(chars@.take(chars.len() as int) =~= chars@);
}

/// The string whose characters are `chars`.
pub fn string_of(chars: &Vec<char>) -> (res: String)
    ensures
        res@ == chars@,
{
    let mut s = String::new();
    push_chars(&mut s, chars);
    assert(Seq::<char>::empty() + chars@ =~= chars@);
    s
}

/// Appends `n` copies of `c` to `s`.
pub fn push_repeat(s: &mut String, c: char, n: usize)
    ensures
        final(s)@ == old(s)@ + repeat(c, n as nat),
{
    let mut i: usize = 0;
    while i < n
        invariant
            i <= n,
            s@ == old(s)@ + repeat(c, i as nat),
        decreases n - i,
    {
        push_char(s, c);
        i += 1;
        assert(repeat(c, i as nat) =~= repeat(c, (i - 1) as nat).push(c));
    }
}

/// `n` copies of `c`.
pub open spec fn repeat(c: char, n: nat) -> Seq<char> {
    Seq::new(n, |_i: int| c)
}

/// The views of a list of strings.
pub open spec fn views(v: Seq<String>) -> Seq<Seq<char>> {
    v.map_values(|s: String| s@)
}

// ---------------------------------------------------------------------------
// Decimal rendering
// ---------------------------------------------------------------------------

/// The decimal digit character for `d` (`0 <= d < 10`).
pub open spec fn digit_char(d: nat) -> char {
    (48 + d) as char
}

/// Decimal representation of a natural number, without leading zeros.
pub open spec fn dec(n: nat) -> Seq<char>
    decreases n,
{
    if n < 10 {
        seq![digit_char(n)]
    } else {
        dec(n / 10).push(digit_char(n % 10))
    }
}

/// Decimal representation of an integer, with a leading `-` when negative.
pub open spec fn dec_int(i: int) -> Seq<char> {
    if i < 0 {
        seq!['-'] + dec((-i) as nat)
    } else {
        dec(i as nat)
    }
}

fn digit(d: u64) -> (r: char)
    requires
        d < 10,
    ensures
        r == digit_char(d as nat),
{
    ((d as u8) + 48u8) as char
}

/// Appends the decimal representation of `n` to `s`.
pub fn push_dec(s: &mut String, n: u64)
    ensures
        final(s)@ == old(s)@ + dec(n as nat),
    decreases n,
{
    if n >= 10 {
        push_dec(s, n / 10);
    }
    let d = digit(n % 10);
    push_char(s, d);
    proof {
        if n >= 10 {
            assert(final(s)@ =~= old(s)@ + dec(n as nat)) by {
                assert(dec(n as nat) == dec((n / 10) as nat).push(digit_char((n % 10) as nat)));
            }
        } else {
            assert(dec(n as nat) == seq![digit_char(n as nat)]);
            assert(final(s)@ =~= old(s)@ + dec(n as nat));
        }
    }
}

/// Decimal representation of an unsigned number, as `u64::to_string` gives it.
pub fn dec_u64(n: u64) -> (res: String)
    ensures
        res@ == dec(n as nat),
{
    let mut s = String::new();
    push_dec(&mut s, n);
    assert(Seq::<char>::empty() + dec(n as nat) =~= dec(n as nat));
    s
}

/// Appends the decimal representation of a signed number to `s`.
pub fn push_dec_i64(s: &mut String, n: i64)
    ensures
        final(s)@ == old(s)@ + dec_int(n as int),
{
    if n < 0 {
        push_char(s, '-');
        let m: u64 = (0i128 - (n as i128)) as u64;
        push_dec(s, m);
        assert(final(s)@ =~= old(s)@ + dec_int(n as int));
    } else {
        push_dec(s, n as u64);
    }
}

/// Decimal representation of a signed number, as `i64::to_string` gives it.
pub fn dec_i64(n: i64) -> (res: String)
    ensures
        res@ == dec_int(n as int),
{
    let mut s = String::new();
    push_dec_i64(&mut s, n);
    assert(Seq::<char>::empty() + dec_int(n as int) =~= dec_int(n as int));
    s
}

// ---------------------------------------------------------------------------
// Padding
// ---------------------------------------------------------------------------

/// `s` followed by spaces up to `width` characters (`{:<width}`).
pub open spec fn pad_right(s: Seq<char>, width: nat) -> Seq<char> {
    if s.len() < width {
        s + repeat(' ', (width - s.len()) as nat)
    } else {
        s
    }
}

/// `s` preceded by spaces up to `width` characters (`{:>width}`).
pub open spec fn pad_left(s: Seq<char>, width: nat) -> Seq<char> {
    if s.len() < width {
        repeat(' ', (width - s.len()) as nat) + s
    } else {
        s
    }
}

/// Appends `chars` padded on the right with spaces to `width` characters.
pub fn push_padded_right(s: &mut String, chars: &Vec<char>, width: usize)
    ensures
        final(s)@ == old(s)@ + pad_right(chars@, width as nat),
{
    push_chars(s, chars);
    if chars.len() < width {
        push_repeat(s, ' ', width - chars.len());
    }
    assert(final(s)@ =~= old(s)@ + pad_right(chars@, width as nat));
}

/// Appends `chars` padded on the left with spaces to `width` characters.
pub fn push_padded_left(s: &mut String, chars: &Vec<char>, width: usize)
    ensures
        final(s)@ == old(s)@ + pad_left(chars@, width as nat),
{
    if chars.len() < width {
        push_repeat(s, ' ', width - chars.len());
    }
    push_chars(s, chars);
    assert(final(s)@ =~= old(s)@ + pad_left(chars@, width as nat));
}

// ---------------------------------------------------------------------------
// Searching
// ---------------------------------------------------------------------------

/// `needle` occurs in `hay` starting at position `i`.
pub open spec fn occurs_at(hay: Seq<char>, needle: Seq<char>, i: int) -> bool {
    0 <= i && i + needle.len() <= hay.len() && hay.subrange(i, i + needle.len()) == needle
}

/// `needle` occurs somewhere in `hay` (`str::contains`).
pub open spec fn contains(hay: Seq<char>, needle: Seq<char>) -> bool {
    exists|i: int| occurs_at(hay, needle, i)
}

/// Whether `needle` occurs in `hay`.
pub fn seq_contains(hay: &Vec<char>, needle: &Vec<char>) -> (res: bool)
    ensures
        res == contains(hay@, needle@),
{
    let n = needle.len();
    let h = hay.len();
    if n > h {
        assert forall|j: int| !occurs_at(hay@, needle@, j) by {}
        return false;
    }
    let mut i: usize = 0;
    while i <= h - n
        invariant
            n == needle.len(),
            h == hay.len(),
            n <= h,
            i <= h - n + 1,
            forall|j: int| 0 <= j < i ==> !occurs_at(hay@, needle@, j),
        decreases h - n + 1 - i,
    {
        let mut k: usize = 0;
        let mut ok = true;
        while k < n
            invariant_except_break
                ok,
                forall|t: int| 0 <= t < k ==> hay@[i + t] == needle@[t],
            invariant
                n == needle.len(),
                h == hay.len(),
                i + n <= h,
                k <= n,
            ensures
                ok ==> forall|t: int| 0 <= t < n ==> hay@[i + t] == needle@[t],
                !ok ==> exists|t: int| 0 <= t < n && hay@[i + t] != needle@[t],
            decreases n - k,
        {
            if hay[i + k] != needle[k] {
                ok = false;
                break;
            }
            k += 1;
        }
        if ok {
            assert(hay@.subrange(i as int, i + n) =~= needle@);
            assert(occurs_at(hay@, needle@, i as int));
            return true;
        }
        assert(!occurs_at(hay@, needle@, i as int)) by {
            let t = choose|t: int| 0 <= t < n && hay@[i + t] != needle@[t];
            if hay@.subrange(i as int, i + n) == needle@ {
                assert(hay@.subrange(i as int, i + n)[t] == hay@[i + t]);
            }
        }
        i += 1;
    }
    assert forall|j: int| !occurs_at(hay@, needle@, j) by {
        if 0 <= j < i {
        }
    }
    false
}

/// Whether the string `needle` occurs in `hay`.
pub fn str_contains(hay: &Vec<char>, needle: &str) -> (res: bool)
    ensures
        res == contains(hay@, needle@),
{
    let n = chars_of(needle);
    seq_contains(hay, &n)
}

// ---------------------------------------------------------------------------
// Case mapping
// ---------------------------------------------------------------------------

/// ASCII upper-casing of one character (`char::to_ascii_uppercase`).
pub open spec fn ascii_upper(c: char) -> char {
    if 'a' <= c && c <= 'z' {
        ((c as u32) - 32) as char
    } else {
        c
    }
}

/// ASCII upper-casing of a string (`str::to_ascii_uppercase`).
pub open spec fn ascii_upper_seq(s: Seq<char>) -> Seq<char> {
    s.map_values(|c: char| ascii_upper(c))
}

/// ASCII lower-casing of one character (`char::to_ascii_lowercase`).
pub open spec fn ascii_lower(c: char) -> char {
    if 'A' <= c && c <= 'Z' {
        ((c as u32) + 32) as char
    } else {
        c
    }
}

fn upper_char(c: char) -> (r: char)
    ensures
        r == ascii_upper(c),
{
    if c >= 'a' && c <= 'z' {
        ((c as u8) - 32) as char
    } else {
        c
    }
}

fn lower_char(c: char) -> (r: char)
    ensures
        r == ascii_lower(c),
{
    if c >= 'A' && c <= 'Z' {
        ((c as u8) + 32) as char
    } else {
        c
    }
}

/// The characters of `s` with ASCII letters upper-cased.
pub fn to_ascii_upper(s: &str) -> (res: Vec<char>)
    ensures
        res@ == ascii_upper_seq(s@),
{
    let cs = chars_of(s);
    let mut out: Vec<char> = Vec::new();
    let mut i: usize = 0;
    while i < cs.len()
        invariant
            i <= cs.len(),
            cs@ == s@,
            out@ == ascii_upper_seq(cs@.take(i as int)),
        decreases cs.len() - i,
    {
        out.push(upper_char(cs[i]));
        i += 1;
        assert(ascii_upper_seq(cs@.take(i as int)) =~= ascii_upper_seq(cs@.take(i - 1)).push(
            ascii_upper(cs@[i - 1]),
        ));
    }
    assert(cs@.take(cs.len() as int) =~= cs@);
    out
}

/// Case-insensitive ASCII equality of two character sequences
/// (`str::eq_ignore_ascii_case`).
pub open spec fn eq_ignore_ascii_case(a: Seq<char>, b: Seq<char>) -> bool {
    a.len() == b.len() && forall|i: int|
        0 <= i < a.len() ==> ascii_lower(#[trigger] a[i]) == ascii_lower(b[i])
}

/// Whether `a` and `b` are equal ignoring ASCII case.
pub fn seq_eq_ignore_ascii_case(a: &Vec<char>, b: &Vec<char>) -> (res: bool)
    ensures
        res == eq_ignore_ascii_case(a@, b@),
{
    if a.len() != b.len() {
        return false;
    }
    let mut i: usize = 0;
    while i < a.len()
        invariant
            a.len() == b.len(),
            i <= a.len(),
            forall|j: int| 0 <= j < i ==> ascii_lower(#[trigger] a@[j]) == ascii_lower(b@[j]),
        decreases a.len() - i,
    {
        if lower_char(a[i]) != lower_char(b[i]) {
            return false;
        }
        i += 1;
    }
    true
}

/// Exact equality of two character vectors.
pub fn seq_eq(a: &Vec<char>, b: &Vec<char>) -> (res: bool)
    ensures
        res == (a@ == b@),
{
    if a.len() != b.len() {
        return false;
    }
    let mut i: usize = 0;
    while i < a.len()
        invariant
            a.len() == b.len(),
            i <= a.len(),
            forall|j: int| 0 <= j < i ==> a@[j] == b@[j],
        decreases a.len() - i,
    {
        if a[i] != b[i] {
            return false;
        }
        i += 1;
    }
    assert(a@ =~= b@);
    true
}

// ---------------------------------------------------------------------------
// Whitespace
// ---------------------------------------------------------------------------

/// The Unicode `White_Space` property, which `char::is_whitespace` tests.
pub open spec fn is_white_space(c: char) -> bool {
    let u = c as u32;
    ||| 0x09 <= u <= 0x0d
    ||| u == 0x20
    ||| u == 0x85
    ||| u == 0xa0
    ||| u == 0x1680
    ||| 0x2000 <= u <= 0x200a
    ||| u == 0x2028
    ||| u == 0x2029
    ||| u == 0x202f
    ||| u == 0x205f
    ||| u == 0x3000
}

/// Whether `c` has the Unicode `White_Space` property.
pub fn white_space(c: char) -> (res: bool)
    ensures
        res == is_white_space(c),
{
    let u = c as u32;
    (0x09 <= u && u <= 0x0d) || u == 0x20 || u == 0x85 || u == 0xa0 || u == 0x1680 || (0x2000
        <= u && u <= 0x200a) || u == 0x2028 || u == 0x2029 || u == 0x202f || u == 0x205f || u
        == 0x3000
}

/// Number of leading white-space characters of `s`.
pub open spec fn leading_ws(s: Seq<char>) -> nat
    decreases s.len(),
{
    if s.len() > 0 && is_white_space(s[0]) {
        1 + leading_ws(s.drop_first())
    } else {
        0
    }
}

/// Number of trailing white-space characters of `s`.
pub open spec fn trailing_ws(s: Seq<char>) -> nat
    decreases s.len(),
{
    if s.len() > 0 && is_white_space(s.last()) {
        1 + trailing_ws(s.drop_last())
    } else {
        0
    }
}

/// `s` without trailing white space (`str::trim_end`).
pub open spec fn trim_end(s: Seq<char>) -> Seq<char> {
    s.take(s.len() - trailing_ws(s))
}

/// `s` without leading white space (`str::trim_start`).
pub open spec fn trim_start(s: Seq<char>) -> Seq<char> {
    s.skip(leading_ws(s) as int)
}

/// `s` without leading and trailing white space (`str::trim`).
pub open spec fn trim(s: Seq<char>) -> Seq<char> {
    trim_start(trim_end(s))
}

proof fn lemma_leading_ws(s: Seq<char>, i: int)
    requires
        0 <= i <= s.len(),
        forall|j: int| 0 <= j < i ==> is_white_space(#[trigger] s[j]),
        i == s.len() || !is_white_space(s[i]),
    ensures
        leading_ws(s) == i,
    decreases s.len(),
{
    if i > 0 {
        assert(is_white_space(s[0]));
        let t = s.drop_first();
        assert forall|j: int| 0 <= j < i - 1 implies is_white_space(#[trigger] t[j]) by {
            assert(t[j] == s[j + 1]);
        }
        if i - 1 < t.len() {
            assert(t[i - 1] == s[i]);
        }
        lemma_leading_ws(t, i - 1);
    }
}

proof fn lemma_trailing_ws(s: Seq<char>, k: int)
    requires
        0 <= k <= s.len(),
        forall|j: int| k <= j < s.len() ==> is_white_space(#[trigger] s[j]),
        k == 0 || !is_white_space(s[k - 1]),
    ensures
        trailing_ws(s) == s.len() - k,
    decreases s.len(),
{
    if k < s.len() {
        assert(is_white_space(s.last()));
        let t = s.drop_last();
        assert forall|j: int| k <= j < t.len() implies is_white_space(#[trigger] t[j]) by {
            assert(t[j] == s[j]);
        }
        if k > 0 {
            assert(t[k - 1] == s[k - 1]);
        }
        lemma_trailing_ws(t, k);
    }
}

/// Position of the first character of `s` that is not white space.
fn first_non_ws(s: &Vec<char>) -> (res: usize)
    ensures
        res == leading_ws(s@),
        res <= s.len(),
{
    let mut i: usize = 0;
    while i < s.len() && white_space(s[i])
        invariant
            i <= s.len(),
            forall|j: int| 0 <= j < i ==> is_white_space(#[trigger] s@[j]),
        decreases s.len() - i,
    {
        i += 1;
    }
    proof {
        lemma_leading_ws(s@, i as int);
    }
    i
}

/// Position just past the last character of `s` that is not white space.
fn end_non_ws(s: &Vec<char>) -> (res: usize)
    ensures
        res == s.len() - trailing_ws(s@),
        res <= s.len(),
{
    let mut k: usize = s.len();
    while k > 0 && white_space(s[k - 1])
        invariant
            k <= s.len(),
            forall|j: int| k <= j < s.len() ==> is_white_space(#[trigger] s@[j]),
        decreases k,
    {
        k -= 1;
    }
    proof {
        lemma_trailing_ws(s@, k as int);
    }
    k
}

/// The characters of `s[from..to]`.
pub fn slice_chars(s: &Vec<char>, from: usize, to: usize) -> (res: Vec<char>)
    requires
        from <= to <= s.len(),
    ensures
        res@ == s@.subrange(from as int, to as int),
{
    let mut out: Vec<char> = Vec::new();
    let mut i = from;
    while i < to
        invariant
            from <= i <= to <= s.len(),
            out@ == s@.subrange(from as int, i as int),
        decreases to - i,
    {
        out.push(s[i]);
        i += 1;
        assert(out@ =~= s@.subrange(from as int, i as int));
    }
    out
}

/// `s` without trailing white space.
pub fn trim_end_chars(s: &Vec<char>) -> (res: Vec<char>)
    ensures
        res@ == trim_end(s@),
{
    let k = end_non_ws(s);
    let r = slice_chars(s, 0, k);
    assert(r@ =~= trim_end(s@));
    r
}

/// `s` without leading white space.
pub fn trim_start_chars(s: &Vec<char>) -> (res: Vec<char>)
    ensures
        res@ == trim_start(s@),
{
    let i = first_non_ws(s);
    let r = slice_chars(s, i, s.len());
    assert(r@ =~= trim_start(s@));
    r
}

/// `s` without leading and trailing white space.
pub fn trim_chars(s: &Vec<char>) -> (res: Vec<char>)
    ensures
        res@ == trim(s@),
{
    let e = trim_end_chars(s);
    trim_start_chars(&e)
}

// ---------------------------------------------------------------------------
// Report field helpers
// ---------------------------------------------------------------------------

/// Whether a CSV field must be quoted: it holds a comma, a quote, a newline
/// or a carriage return.
pub open spec fn csv_needs_quotes(s: Seq<char>) -> bool {
    exists|i: int| 0 <= i < s.len() && (s[i] == ',' || s[i] == '"' || s[i] == '\n' || s[i] == '\r')
}

/// Every `"` of `s` doubled.
pub open spec fn double_quotes(s: Seq<char>) -> Seq<char>
    decreases s.len(),
{
    if s.len() == 0 {
        s
    } else if s.last() == '"' {
        double_quotes(s.drop_last()) + seq!['"', '"']
    } else {
        double_quotes(s.drop_last()).push(s.last())
    }
}

/// A CSV field as RFC 4180 writes it: quoted, with inner quotes doubled,
/// when it holds a comma, quote or line break; unchanged otherwise.
pub open spec fn csv_field_spec(s: Seq<char>) -> Seq<char> {
    if csv_needs_quotes(s) {
        seq!['"'] + double_quotes(s) + seq!['"']
    } else {
        s
    }
}

/// Quote a CSV field if it contains a comma, quote, or newline (RFC 4180).
pub fn csv_field(value: &str) -> (res: String)
    ensures
        res@ == csv_field_spec(value@),
{
    let cs = chars_of(value);
    let mut needs = false;
    let mut i: usize = 0;
    while i < cs.len()
        invariant
            i <= cs.len(),
            cs@ == value@,
            needs <==> exists|j: int|
                0 <= j < i && (cs@[j] == ',' || cs@[j] == '"' || cs@[j] == '\n' || cs@[j] == '\r'),
        decreases cs.len() - i,
    {
        let c = cs[i];
        if c == ',' || c == '"' || c == '\n' || c == '\r' {
            needs = true;
        }
        i += 1;
    }
    if !needs {
        return string_of(&cs);
    }
    let mut out = String::new();
    push_char(&mut out, '"');
    let mut k: usize = 0;
    while k < cs.len()
        invariant
            k <= cs.len(),
            cs@ == value@,
            out@ == seq!['"'] + double_quotes(cs@.take(k as int)),
        decreases cs.len() - k,
    {
        let c = cs[k];
        if c == '"' {
            push_char(&mut out, '"');
            push_char(&mut out, '"');
        } else {
            push_char(&mut out, c);
        }
        k += 1;
        assert(cs@.take(k as int).drop_last() =~= cs@.take(k - 1));
        assert(out@ =~= seq!['"'] + double_quotes(cs@.take(k as int)));
    }
    push_char(&mut out, '"');
    assert(cs@.take(cs.len() as int) =~= cs@);
    assert(out@ =~= csv_field_spec(value@));
    out
}

/// `s` cut to its last `max - 1` characters behind a leading `…` when it is
/// longer than `max` characters; unchanged otherwise.
pub open spec fn truncate_end_spec(s: Seq<char>, max: nat) -> Seq<char> {
    if s.len() <= max {
        s
    } else {
        seq!['\u{2026}'] + s.skip(s.len() - (max - 1))
    }
}

/// Trim a string to `max` characters, marking the cut with a leading `…` so
/// the distinctive tail of a path stays visible.
pub fn truncate_end(value: &str, max: usize) -> (res: String)
    requires
        value@.len() > max ==> max >= 1,
    ensures
        res@ == truncate_end_spec(value@, max as nat),
{
    let cs = chars_of(value);
    if cs.len() <= max {
        return string_of(&cs);
    }
    let tail = slice_chars(&cs, cs.len() - (max - 1), cs.len());
    let mut out = String::new();
    push_char(&mut out, '\u{2026}');
    push_chars(&mut out, &tail);
    assert(out@ =~= truncate_end_spec(value@, max as nat));
    out
}

/// Truncation keeps the end: a text that fits is kept whole; a longer one
/// becomes exactly `max` characters, a leading `…` and then its last
/// `max - 1` characters.
pub proof fn law_truncate_keeps_the_tail(s: Seq<char>, max: nat)
    requires
        max >= 1,
    ensures
        s.len() <= max ==> truncate_end_spec(s, max) == s,
        s.len() > max ==> truncate_end_spec(s, max).len() == max,
        s.len() > max ==> truncate_end_spec(s, max)[0] == '\u{2026}',
        s.len() > max ==> forall|i: int|
            1 <= i < max ==> #[trigger] truncate_end_spec(s, max)[i] == s[s.len() - max + i],
{
}

} // verus!

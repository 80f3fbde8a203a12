//! Small text utilities shared by the codec: conversion between strings and
//! character vectors, whitespace, trimming and line counting.

use vstd::prelude::*;
use vstd::string::StrSliceExecFns;

verus! {

/// `String::push` appends exactly one character to the end of the string.
pub assume_specification[ String::push ](s: &mut String, c: char)
    ensures
        final(s)@ == old(s)@.push(c),
;

/// The characters of `s`, in order.
pub fn chars_of(s: &str) -> (v: Vec<char>)
    ensures
        v@ == s@,
{
    let mut v: Vec<char> = Vec::new();
    for c in it: s.chars()
        invariant
            v@ == s@.take(it.index() as int),
            it.seq() == s@,
    {
        v.push(c);
        assert(s@.take(it.index() + 1) == s@.take(it.index() as int).push(c));
    }
    v
}

/// The string made of the characters `v[from..to]`.
pub fn string_of(v: &Vec<char>, from: usize, to: usize) -> (s: String)
    requires
        from <= to <= v.len(),
    ensures
        s@ == v@.subrange(from as int, to as int),
{
    let mut s = String::new();
    let mut i: usize = from;
    while i < to
        invariant
            from <= i <= to <= v.len(),
            s@ == v@.subrange(from as int, i as int),
        decreases to - i,
    {
        s.push(v[i]);
        assert(v@.subrange(from as int, i + 1) == v@.subrange(from as int, i as int).push(v@[i as int]));
        i += 1;
    }
    s
}

/// Whether `c` is white space: a character with the Unicode property
/// `White_Space`.
pub open spec fn is_space(c: char) -> bool {
    ('\u{9}' <= c && c <= '\u{D}') || c == ' ' || c == '\u{85}' || c == '\u{A0}' || c == '\u{1680}'
        || ('\u{2000}' <= c && c <= '\u{200A}') || c == '\u{2028}' || c == '\u{2029}' || c
        == '\u{202F}' || c == '\u{205F}' || c == '\u{3000}'
}

/// Executable test for [`is_space`].
pub fn space(c: char) -> (r: bool)
    ensures
        r == is_space(c),
{
    ('\u{9}' <= c && c <= '\u{D}') || c == ' ' || c == '\u{85}' || c == '\u{A0}' || c == '\u{1680}'
        || ('\u{2000}' <= c && c <= '\u{200A}') || c == '\u{2028}' || c == '\u{2029}' || c
        == '\u{202F}' || c == '\u{205F}' || c == '\u{3000}'
}

/// Whether `a` and `b` hold the same characters.
pub fn str_equals(a: &str, b: &str) -> (r: bool)
    ensures
        r == (a@ == b@),
{
    let va = chars_of(a);
    let vb = chars_of(b);
    if va.len() != vb.len() {
        return false;
    }
    let mut i: usize = 0;
    while i < va.len()
        invariant
            va.len() == vb.len(),
            va@ == a@,
            vb@ == b@,
            i <= va.len(),
            va@.take(i as int) == vb@.take(i as int),
        decreases va.len() - i,
    {
        if va[i] != vb[i] {
            return false;
        }
        assert(va@.take(i + 1) == va@.take(i as int).push(va@[i as int]));
        assert(vb@.take(i + 1) == vb@.take(i as int).push(vb@[i as int]));
        i += 1;
    }
    assert(va@ == va@.take(va.len() as int));
    assert(vb@ == vb@.take(vb.len() as int));
    true
}

/// `s` without the white space at its front.
pub open spec fn trim_start(s: Seq<char>) -> Seq<char>
    decreases s.len(),
{
    if s.len() > 0 && is_space(s.first()) {
        trim_start(s.drop_first())
    } else {
        s
    }
}

/// `s` without the white space at its end.
pub open spec fn trim_end(s: Seq<char>) -> Seq<char>
    decreases s.len(),
{
    if s.len() > 0 && is_space(s.last()) {
        trim_end(s.drop_last())
    } else {
        s
    }
}

/// `s` without the white space at its front and at its end.
pub open spec fn trimmed(s: Seq<char>) -> Seq<char> {
    trim_end(trim_start(s))
}

/// [`trim_start`] cuts at the first character that is no white space.
pub proof fn lemma_trim_start(s: Seq<char>, a: int)
    requires
        0 <= a <= s.len(),
        forall|j: int| 0 <= j < a ==> is_space(#[trigger] s[j]),
        a < s.len() ==> !is_space(s[a]),
    ensures
        trim_start(s) == s.subrange(a, s.len() as int),
    decreases a,
{
    if a > 0 {
        assert(is_space(s[0]));
        let rest = s.drop_first();
        assert forall|j: int| 0 <= j < a - 1 implies is_space(#[trigger] rest[j]) by {
            assert(rest[j] == s[j + 1]);
        }
        lemma_trim_start(rest, a - 1);
        assert(rest.subrange(a - 1, rest.len() as int) == s.subrange(a, s.len() as int));
    } else {
        assert(s.subrange(0, s.len() as int) == s);
    }
}

/// [`trim_end`] cuts behind the last character that is no white space.
pub proof fn lemma_trim_end(s: Seq<char>, b: int)
    requires
        0 <= b <= s.len(),
        forall|j: int| b <= j < s.len() ==> is_space(#[trigger] s[j]),
        b > 0 ==> !is_space(s[b - 1]),
    ensures
        trim_end(s) == s.subrange(0, b),
    decreases s.len() - b,
{
    if b < s.len() {
        assert(is_space(s[s.len() - 1]));
        let rest = s.drop_last();
        assert forall|j: int| b <= j < rest.len() implies is_space(#[trigger] rest[j]) by {
            assert(rest[j] == s[j]);
        }
        lemma_trim_end(rest, b);
        assert(rest.subrange(0, b) == s.subrange(0, b));
    } else {
        assert(s.subrange(0, s.len() as int) == s);
    }
}

/// The bounds of `v` without the white space at its front and at its end.
pub fn trim_bounds(v: &Vec<char>) -> (r: (usize, usize))
    ensures
        r.0 <= r.1 <= v.len(),
        v@.subrange(r.0 as int, r.1 as int) == trimmed(v@),
{
    let n = v.len();
    let mut a: usize = 0;
    while a < n && space(v[a])
        invariant
            a <= n,
            n == v.len(),
            forall|j: int| 0 <= j < a ==> is_space(#[trigger] v@[j]),
        decreases n - a,
    {
        a += 1;
    }
    let mut b: usize = n;
    while b > a && space(v[b - 1])
        invariant
            a <= b <= n,
            n == v.len(),
            forall|j: int| b <= j < n ==> is_space(#[trigger] v@[j]),
        decreases b,
    {
        b -= 1;
    }
    proof {
        lemma_trim_start(v@, a as int);
        let front = v@.subrange(a as int, n as int);
        assert forall|j: int| b - a <= j < front.len() implies is_space(#[trigger] front[j]) by {
            assert(front[j] == v@[j + a]);
        }
        lemma_trim_end(front, b - a);
        assert(front.subrange(0, b - a) == v@.subrange(a as int, b as int));
    }
    (a, b)
}

/// The test for a character that is no carriage return.
pub open spec fn is_not_cr() -> spec_fn(char) -> bool {
    |c: char| c != '\r'
}

/// `s` without its carriage returns.
pub open spec fn without_cr(s: Seq<char>) -> Seq<char> {
    s.filter(is_not_cr())
}

/// The characters of `s` but for its carriage returns.
pub fn strip_cr(s: &str) -> (v: Vec<char>)
    ensures
        v@ == without_cr(s@),
        v@.len() <= s@.len(),
{
    let chars = chars_of(s);
    let mut v: Vec<char> = Vec::new();
    let mut i: usize = 0;
    proof {
        reveal(Seq::filter);
    }
    while i < chars.len()
        invariant
            chars@ == s@,
            i <= chars.len(),
            v@ == without_cr(chars@.take(i as int)),
            v@.len() <= i,
        decreases chars.len() - i,
    {
        proof {
            reveal(Seq::filter);
            assert(chars@.take(i + 1).drop_last() == chars@.take(i as int));
            assert(chars@.take(i + 1).last() == chars@[i as int]);
        }
        if chars[i] != '\r' {
            v.push(chars[i]);
        }
        i += 1;
    }
    assert(chars@.take(chars.len() as int) == chars@);
    v
}

/// The digit for a value below sixteen: `0` to `9`, then `A` to `F`.
pub open spec fn digit_of(d: nat) -> char {
    if d < 10 {
        (48 + d) as char
    } else {
        (55 + d) as char
    }
}

/// The decimal numeral of `n`, without leading zeros.
pub open spec fn decimal(n: nat) -> Seq<char>
    decreases n,
{
    if n < 10 {
        seq![digit_of(n)]
    } else {
        decimal(n / 10).push(digit_of(n % 10))
    }
}

/// The hexadecimal numeral of `n` in capital letters, without leading zeros.
pub open spec fn hexadecimal(n: nat) -> Seq<char>
    decreases n,
{
    if n < 16 {
        seq![digit_of(n)]
    } else {
        hexadecimal(n / 16).push(digit_of(n % 16))
    }
}

/// The hexadecimal numeral of `n`, filled up with zeros to four digits.
pub open spec fn hexadecimal4(n: nat) -> Seq<char> {
    let h = hexadecimal(n);
    if h.len() < 4 {
        Seq::new((4 - h.len()) as nat, |i: int| '0') + h
    } else {
        h
    }
}

/// Executable form of [`digit_of`].
fn digit_for(d: u8) -> (c: char)
    requires
        d < 16,
    ensures
        c == digit_of(d as nat),
{
    if d < 10 {
        (48 + d) as char
    } else {
        (55 + d) as char
    }
}

/// Appends the decimal numeral of `n` to `out`.
pub fn push_decimal(out: &mut String, n: usize)
    ensures
        final(out)@ == old(out)@ + decimal(n as nat),
    decreases n,
{
    if n >= 10 {
        push_decimal(out, n / 10);
    }
    out.push(digit_for((n % 10) as u8));
}

/// Appends the hexadecimal numeral of `n` to `out`.
fn push_hexadecimal(out: &mut String, n: u32)
    ensures
        final(out)@ == old(out)@ + hexadecimal(n as nat),
    decreases n,
{
    if n >= 16 {
        push_hexadecimal(out, n / 16);
    }
    out.push(digit_for((n % 16) as u8));
}

/// A numeral has one digit more than that of its sixteenth part.
proof fn lemma_hexadecimal_len(n: nat)
    ensures
        hexadecimal(n).len() >= 1,
        n < 16 <==> hexadecimal(n).len() == 1,
        n < 256 <==> hexadecimal(n).len() <= 2,
        n < 4096 <==> hexadecimal(n).len() <= 3,
{
    reveal_with_fuel(hexadecimal, 4);
}

/// Appends the hexadecimal numeral of `n`, filled up with zeros to four
/// digits, to `out`.
pub fn push_hexadecimal4(out: &mut String, n: u32)
    ensures
        final(out)@ == old(out)@ + hexadecimal4(n as nat),
{
    proof {
        lemma_hexadecimal_len(n as nat);
    }
    let ghost before = out@;
    if n < 4096 {
        out.push('0');
    }
    if n < 256 {
        out.push('0');
    }
    if n < 16 {
        out.push('0');
    }
    let ghost zeros = out@;
    push_hexadecimal(out, n);
    proof {
        let h = hexadecimal(n as nat);
        if h.len() < 4 {
            let fill = Seq::new((4 - h.len()) as nat, |i: int| '0');
            assert(zeros == before + fill);
            assert(before + fill + h == before + (fill + h));
        }
    }
}

/// Whether a text is short enough to be held in memory: no string is longer
/// than `isize::MAX` bytes, so none has more characters than that. Counts of
/// lines and guesses over a short text fit in a `usize`.
pub open spec fn is_short(s: Seq<char>) -> bool {
    s.len() <= isize::MAX
}

/// Executable test for [`is_short`].
pub fn short(s: &str) -> (r: bool)
    ensures
        r == is_short(s@),
{
    s.unicode_len() <= usize::MAX / 2
}

/// The pieces of `s` between the occurrences of `sep`. A text without `sep`
/// is one piece, and a text that ends in `sep` ends in an empty piece.
pub open spec fn pieces_of(s: Seq<char>, sep: char) -> Seq<Seq<char>>
    decreases s.len(),
{
    if s.len() == 0 {
        seq![Seq::empty()]
    } else {
        let before = pieces_of(s.drop_last(), sep);
        if s.last() == sep {
            before.push(Seq::empty())
        } else {
            before.drop_last().push(before.last().push(s.last()))
        }
    }
}

/// The lines of `s`: the pieces between its line feeds.
pub open spec fn lines_of(s: Seq<char>) -> Seq<Seq<char>> {
    pieces_of(s, '\n')
}

/// The number of lines of `s`.
pub open spec fn line_count(s: Seq<char>) -> nat {
    lines_of(s).len()
}

/// A text has one line more than it has line feeds; so it has at least one
/// line and at most one more than it has characters. No line holds a line feed.
pub proof fn law_lines_of(s: Seq<char>)
    ensures
        1 <= line_count(s) <= s.len() + 1,
        line_count(s) == s.filter(|c: char| c == '\n').len() + 1,
        forall|i: int, j: int|
            0 <= i < lines_of(s).len() && 0 <= j < lines_of(s)[i].len() ==> #[trigger] lines_of(
                s,
            )[i][j] != '\n',
    decreases s.len(),
{
    reveal(Seq::filter);
    if s.len() > 0 {
        law_lines_of(s.drop_last());
    }
}

/// Texts over plain values.
pub open spec fn texts_view(texts: Seq<String>) -> Seq<Seq<char>> {
    Seq::new(texts.len(), |i: int| texts[i]@)
}

/// The pieces of `v[from..to]` between the occurrences of `sep`.
pub fn split_pieces(v: &Vec<char>, from: usize, to: usize, sep: char) -> (lines: Vec<String>)
    requires
        from <= to <= v.len(),
    ensures
        texts_view(lines@) == pieces_of(v@.subrange(from as int, to as int), sep),
        lines@.len() >= 1,
{
    let ghost part = v@.subrange(from as int, to as int);
    let mut lines: Vec<String> = Vec::new();
    let mut start: usize = from;
    let mut i: usize = from;
    proof {
        assert(part.take(0) == Seq::<char>::empty());
        assert(v@.subrange(from as int, from as int) == Seq::<char>::empty());
    }
    while i < to
        invariant
            from <= start <= i <= to <= v.len(),
            part == v@.subrange(from as int, to as int),
            pieces_of(part.take(i - from), sep).len() == lines@.len() + 1,
            forall|k: int|
                0 <= k < lines@.len() ==> (#[trigger] lines@[k])@ == pieces_of(part.take(i - from), sep)[k],
            pieces_of(part.take(i - from), sep).last() == v@.subrange(start as int, i as int),
        decreases to - i,
    {
        let ghost before = pieces_of(part.take(i - from), sep);
        proof {
            assert(part.take(i - from + 1).drop_last() == part.take(i - from));
            assert(part.take(i - from + 1).last() == v@[i as int]);
        }
        if v[i] == sep {
            lines.push(string_of(v, start, i));
            start = i + 1;
            proof {
                assert(v@.subrange(start as int, start as int) == Seq::<char>::empty());
            }
        } else {
            proof {
                assert(v@.subrange(start as int, i as int).push(v@[i as int]) == v@.subrange(
                    start as int,
                    i + 1,
                ));
            }
        }
        i += 1;
    }
    lines.push(string_of(v, start, to));
    proof {
        assert(part.take(to - from) == part);
        assert(texts_view(lines@) == pieces_of(part, sep));
    }
    lines
}

/// The lines of `v[from..to]`.
pub fn split_lines(v: &Vec<char>, from: usize, to: usize) -> (lines: Vec<String>)
    requires
        from <= to <= v.len(),
    ensures
        texts_view(lines@) == lines_of(v@.subrange(from as int, to as int)),
        lines@.len() >= 1,
{
    split_pieces(v, from, to, '\n')
}

/// The number of lines of `v[from..to]`.
pub fn count_lines(v: &Vec<char>, from: usize, to: usize) -> (n: usize)
    requires
        from <= to <= v.len(),
        is_short(v@),
    ensures
        n == line_count(v@.subrange(from as int, to as int)),
        1 <= n <= to - from + 1,
{
    let mut n: usize = 1;
    let mut i: usize = from;
    proof {
        assert(v@.subrange(from as int, from as int) == Seq::<char>::empty());
    }
    while i < to
        invariant
            from <= i <= to <= v.len(),
            is_short(v@),
            n == line_count(v@.subrange(from as int, i as int)),
            n <= i - from + 1,
        decreases to - i,
    {
        proof {
            let next = v@.subrange(from as int, i + 1);
            assert(next.drop_last() == v@.subrange(from as int, i as int));
            assert(next.last() == v@[i as int]);
        }
        if v[i] == '\n' {
            n += 1;
        }
        i += 1;
    }
    n
}

} // verus!

//! The shapes of result blocks, one grammar per family, and what it means for
//! a stretch of text to be the block that a scan has to find.
//!
//! Four of the grammars are chains: a block starts with a square, ends with a
//! glyph that may close it, and every glyph in between may follow the one
//! before it. The fifth is a grid of rows of four groups.

use vstd::prelude::*;
use crate::glyph::{is_arrow, is_digit, is_square, Variant, KEYCAP, RED, SELECTOR};
use crate::text::is_space;

verus! {

/// Whether a block of the chain family `variant` may end with `c`.
///
/// * Standard: with a square.
/// * Geo: with a direction glyph or the selector behind it.
/// * Audio: with a square or the selector behind it.
/// * Globle, Globlec: with a square or white space behind it.
pub open spec fn may_end(variant: Variant, c: char) -> bool {
    match variant {
        Variant::Standard => is_square(c),
        Variant::Geo => is_arrow(c) || c == SELECTOR,
        Variant::Audio => is_square(c) || c == SELECTOR,
        Variant::Globle | Variant::Globlec => is_square(c) || is_space(c),
        Variant::Wordle32 => false,
    }
}

/// Whether, inside a block of the chain family `variant`, `b` may stand
/// directly behind `a`.
///
/// * Standard: squares follow one another; a line feed, with or without a
///   carriage return before it, stands between two squares.
/// * Geo: as standard, but a direction glyph, with or without a selector behind
///   it, stands between the last square of a line and the line break.
/// * Audio: squares follow one another, each with or without a selector behind it.
/// * Globle, Globlec: squares and white space follow one another freely.
pub open spec fn may_follow(variant: Variant, a: char, b: char) -> bool {
    match variant {
        Variant::Standard => {
            ||| is_square(a) && (is_square(b) || b == '\r' || b == '\n')
            ||| a == '\r' && b == '\n'
            ||| a == '\n' && is_square(b)
        },
        Variant::Geo => {
            ||| is_square(a) && (is_square(b) || is_arrow(b))
            ||| is_arrow(a) && (b == SELECTOR || b == '\r' || b == '\n')
            ||| a == SELECTOR && (b == '\r' || b == '\n')
            ||| a == '\r' && b == '\n'
            ||| a == '\n' && is_square(b)
        },
        Variant::Audio => {
            ||| is_square(a) && (is_square(b) || b == SELECTOR)
            ||| a == SELECTOR && is_square(b)
        },
        Variant::Globle | Variant::Globlec => {
            (is_square(a) || is_space(a)) && (is_square(b) || is_space(b))
        },
        Variant::Wordle32 => false,
    }
}

/// Whether `text[start..end]` is a block of the chain family `variant`.
pub open spec fn is_chain_match(text: Seq<char>, variant: Variant, start: int, end: int) -> bool {
    &&& 0 <= start < end <= text.len()
    &&& is_square(text[start])
    &&& may_end(variant, text[end - 1])
    &&& forall|i: int| start <= i < end - 1 ==> may_follow(variant, #[trigger] text[i], text[i + 1])
}

/// The length of the group that starts at `text[i]`, or 0 where none does. A
/// group is two red squares, or two keycap digits: each a digit, the selector
/// and the keycap mark.
pub open spec fn group_len(text: Seq<char>, i: int) -> int {
    if 0 <= i && i + 2 <= text.len() && text[i] == RED && text[i + 1] == RED {
        2
    } else if 0 <= i && i + 6 <= text.len() && is_digit(text[i]) && text[i + 1] == SELECTOR
        && text[i + 2] == KEYCAP && is_digit(text[i + 3]) && text[i + 4] == SELECTOR && text[i + 5]
        == KEYCAP {
        6
    } else {
        0
    }
}

/// The length of the row that starts at `text[i]`, or 0 where none does. A row
/// is four groups with one space between neighbours.
pub open spec fn row_len(text: Seq<char>, i: int) -> int {
    let a = group_len(text, i);
    let b = group_len(text, i + a + 1);
    let c = group_len(text, i + a + b + 2);
    let d = group_len(text, i + a + b + c + 3);
    if a > 0 && b > 0 && c > 0 && d > 0 && text[i + a] == ' ' && text[i + a + b + 1] == ' '
        && text[i + a + b + c + 2] == ' ' {
        a + b + c + d + 3
    } else {
        0
    }
}

/// The length of the line break that starts at `text[i]`, or 0 where none
/// does: a line feed, with or without a carriage return before it.
pub open spec fn break_len(text: Seq<char>, i: int) -> int {
    if 0 <= i < text.len() && text[i] == '\n' {
        1
    } else if 0 <= i && i + 1 < text.len() && text[i] == '\r' && text[i + 1] == '\n' {
        2
    } else {
        0
    }
}

/// Whether `text[start..end]` is a grid: one or more rows with a line break
/// between neighbours.
pub open spec fn is_grid_match(text: Seq<char>, start: int, end: int) -> bool
    decreases end - start,
{
    let n = row_len(text, start);
    let k = break_len(text, start + n);
    if 0 <= start && n > 0 && start + n <= end <= text.len() {
        if start + n == end {
            true
        } else if k > 0 && start + n + k <= end {
            is_grid_match(text, start + n + k, end)
        } else {
            false
        }
    } else {
        false
    }
}

/// Whether `text[start..end]` is a block of the family `variant`.
pub open spec fn is_match(text: Seq<char>, variant: Variant, start: int, end: int) -> bool {
    match variant {
        Variant::Wordle32 => is_grid_match(text, start, end),
        _ => is_chain_match(text, variant, start, end),
    }
}

/// Whether the whole of `block` is a block of the family `variant`.
pub open spec fn is_block(variant: Variant, block: Seq<char>) -> bool {
    is_match(block, variant, 0, block.len() as int)
}

/// Whether `text[start..end]` is the block that a scan from `from` finds: of
/// all blocks that begin at or behind `from` the one that begins first, and of
/// those that begin there the longest.
pub open spec fn is_first_match(
    text: Seq<char>,
    variant: Variant,
    from: int,
    start: int,
    end: int,
) -> bool {
    &&& from <= start
    &&& is_match(text, variant, start, end)
    &&& forall|s: int, e: int| from <= s < start ==> !#[trigger] is_match(text, variant, s, e)
    &&& forall|e: int| end < e ==> !#[trigger] is_match(text, variant, start, e)
}

/// Whether no block begins at or behind `from`.
pub open spec fn no_match_from(text: Seq<char>, variant: Variant, from: int) -> bool {
    forall|s: int, e: int| from <= s ==> !#[trigger] is_match(text, variant, s, e)
}

/// The block that a scan from `from` finds, as its two bounds, or `None`
/// where no block begins at or behind `from`.
pub open spec fn first_match(text: Seq<char>, variant: Variant, from: int) -> Option<(int, int)> {
    if exists|p: (int, int)| is_first_match(text, variant, from, p.0, p.1) {
        Some(choose|p: (int, int)| is_first_match(text, variant, from, p.0, p.1))
    } else {
        None
    }
}

/// The bounds of the blocks that follow one another at or behind `from`: the
/// first block, then the first behind its end, and so on. No two overlap.
pub open spec fn all_matches(text: Seq<char>, variant: Variant, from: int) -> Seq<(int, int)>
    decreases text.len() - from,
{
    match first_match(text, variant, from) {
        Some((start, end)) => if from <= start < end <= text.len() {
            seq![(start, end)] + all_matches(text, variant, end)
        } else {
            Seq::empty()
        },
        None => Seq::empty(),
    }
}

/// The bounds of the blocks of a submission: every block of a standard text,
/// one after the other, and the first block only in the other families.
pub open spec fn block_bounds(text: Seq<char>, variant: Variant) -> Seq<(int, int)> {
    match variant {
        Variant::Standard => all_matches(text, variant, 0),
        _ => match first_match(text, variant, 0) {
            Some(p) => seq![p],
            None => Seq::empty(),
        },
    }
}

/// A scan finds at most one block: the first and longest is unique.
pub proof fn lemma_first_match_unique(
    text: Seq<char>,
    variant: Variant,
    from: int,
    s1: int,
    e1: int,
    s2: int,
    e2: int,
)
    requires
        is_first_match(text, variant, from, s1, e1),
        is_first_match(text, variant, from, s2, e2),
    ensures
        s1 == s2,
        e1 == e2,
{
}

/// What [`first_match`] is where a first block is known.
pub proof fn lemma_first_match_is(text: Seq<char>, variant: Variant, from: int, start: int, end: int)
    requires
        is_first_match(text, variant, from, start, end),
    ensures
        first_match(text, variant, from) == Some((start, end)),
{
    let p = (start, end);
    assert(is_first_match(text, variant, from, p.0, p.1));
    let q = choose|q: (int, int)| is_first_match(text, variant, from, q.0, q.1);
    lemma_first_match_unique(text, variant, from, start, end, q.0, q.1);
}

/// What [`first_match`] is where no block begins at or behind `from`.
pub proof fn lemma_first_match_none(text: Seq<char>, variant: Variant, from: int)
    requires
        no_match_from(text, variant, from),
    ensures
        first_match(text, variant, from) is None,
{
}

} // verus!

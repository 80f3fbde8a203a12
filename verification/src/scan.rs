//! The block scanner: finds the result blocks in free text and cuts the text
//! into what stands before, inside and behind each.

use vstd::prelude::*;
use crate::glyph::{arrow, digit, square, Variant, KEYCAP, RED, SELECTOR};
use crate::grammar::{
    all_matches, block_bounds, break_len, first_match, group_len, is_chain_match, is_first_match, is_grid_match, is_match,
    lemma_first_match_is, lemma_first_match_none, may_end, may_follow, no_match_from, row_len,
};
use crate::rejection::Rejection;
use crate::text::{chars_of, space, string_of};

verus! {

/// Executable test for [`may_end`].
fn ends(variant: Variant, c: char) -> (r: bool)
    ensures
        r == may_end(variant, c),
{
    match variant {
        Variant::Standard => square(c),
        Variant::Geo => arrow(c) || c == SELECTOR,
        Variant::Audio => square(c) || c == SELECTOR,
        Variant::Globle | Variant::Globlec => square(c) || space(c),
        Variant::Wordle32 => false,
    }
}

/// Executable test for [`may_follow`].
fn follows(variant: Variant, a: char, b: char) -> (r: bool)
    ensures
        r == may_follow(variant, a, b),
{
    match variant {
        Variant::Standard => {
            (square(a) && (square(b) || b == '\r' || b == '\n')) || (a == '\r' && b == '\n') || (a
                == '\n' && square(b))
        },
        Variant::Geo => {
            (square(a) && (square(b) || arrow(b))) || (arrow(a) && (b == SELECTOR || b == '\r' || b
                == '\n')) || (a == SELECTOR && (b == '\r' || b == '\n')) || (a == '\r' && b == '\n')
                || (a == '\n' && square(b))
        },
        Variant::Audio => {
            (square(a) && (square(b) || b == SELECTOR)) || (a == SELECTOR && square(b))
        },
        Variant::Globle | Variant::Globlec => {
            (square(a) || space(a)) && (square(b) || space(b))
        },
        Variant::Wordle32 => false,
    }
}

/// Finds the first and longest block of a chain family at or behind `from`.
fn find_chain(text: &Vec<char>, variant: Variant, from: usize) -> (r: Option<(usize, usize)>)
    requires
        from <= text.len(),
        variant != Variant::Wordle32,
    ensures
        match r {
            Some((start, end)) => is_first_match(
                text@,
                variant,
                from as int,
                start as int,
                end as int,
            ),
            None => no_match_from(text@, variant, from as int),
        },
{
    let n = text.len();
    let mut i: usize = from;
    while i < n
        invariant
            from <= i <= n,
            n == text.len(),
            variant != Variant::Wordle32,
            forall|s: int, e: int| from <= s < i ==> !#[trigger] is_match(text@, variant, s, e),
        decreases n - i,
    {
        if !square(text[i]) {
            i += 1;
        } else {
            let start = i;
            let mut j: usize = i;
            let mut accept: usize = if ends(variant, text[j]) {
                j + 1
            } else {
                start
            };
            while j + 1 < n && follows(variant, text[j], text[j + 1])
                invariant
                    start <= j < n,
                    n == text.len(),
                    forall|k: int| start <= k < j ==> may_follow(variant, #[trigger] text@[k], text@[k + 1]),
                    accept == start || (start < accept <= j + 1 && may_end(
                        variant,
                        text@[accept - 1],
                    )),
                    forall|e: int| accept < e <= j + 1 && start < e ==> !may_end(variant, #[trigger] text@[e - 1]),
                decreases n - j,
            {
                j += 1;
                if ends(variant, text[j]) {
                    accept = j + 1;
                }
            }
            if accept > start {
                assert(is_chain_match(text@, variant, start as int, accept as int));
                assert forall|e: int| accept < e implies !#[trigger] is_match(
                    text@,
                    variant,
                    start as int,
                    e,
                ) by {
                    if is_chain_match(text@, variant, start as int, e) {
                        if e - 1 > j {
                            assert(may_follow(variant, text@[j as int], text@[j + 1]));
                        }
                    }
                }
                return Some((start, accept));
            }
            assert forall|s: int, e: int| from <= s < j + 1 implies !#[trigger] is_match(
                text@,
                variant,
                s,
                e,
            ) by {
                if start <= s && is_chain_match(text@, variant, s, e) {
                    if e - 1 > j {
                        assert(may_follow(variant, text@[j as int], text@[j + 1]));
                    }
                }
            }
            i = j + 1;
        }
    }
    None
}

/// The length of the group that starts at `text[i]`, or 0.
fn group_at(text: &Vec<char>, i: usize) -> (r: usize)
    ensures
        r == group_len(text@, i as int),
        r > 0 ==> i + r <= text.len(),
{
    let n = text.len();
    if i <= n && n - i >= 2 && text[i] == RED && text[i + 1] == RED {
        2
    } else if i <= n && n - i >= 6 && digit(text[i]) && text[i + 1] == SELECTOR && text[i + 2]
        == KEYCAP && digit(text[i + 3]) && text[i + 4] == SELECTOR && text[i + 5] == KEYCAP {
        6
    } else {
        0
    }
}

/// Whether a space stands at `text[i]` with a group behind it; the group's
/// length, or 0.
fn spaced_group_at(text: &Vec<char>, i: usize) -> (r: usize)
    ensures
        r == if i < text.len() && text@[i as int] == ' ' {
            group_len(text@, i + 1)
        } else {
            0
        },
        r > 0 ==> i + 1 + r <= text.len(),
{
    if i < text.len() && text[i] == ' ' {
        group_at(text, i + 1)
    } else {
        0
    }
}

/// The length of the row that starts at `text[i]`, or 0.
fn row_at(text: &Vec<char>, i: usize) -> (r: usize)
    ensures
        r == row_len(text@, i as int),
        r > 0 ==> i + r <= text.len(),
{
    let a = group_at(text, i);
    if a == 0 {
        return 0;
    }
    let b = spaced_group_at(text, i + a);
    if b == 0 {
        return 0;
    }
    let c = spaced_group_at(text, i + a + 1 + b);
    if c == 0 {
        return 0;
    }
    let d = spaced_group_at(text, i + a + 1 + b + 1 + c);
    if d == 0 {
        return 0;
    }
    a + b + c + d + 3
}

/// The length of the line break that starts at `text[i]`, or 0.
fn break_at(text: &Vec<char>, i: usize) -> (r: usize)
    ensures
        r == break_len(text@, i as int),
        r > 0 ==> i + r <= text.len(),
{
    let n = text.len();
    if i < n && text[i] == '\n' {
        1
    } else if i < n && n - i >= 2 && text[i] == '\r' && text[i + 1] == '\n' {
        2
    } else {
        0
    }
}

/// A grid that ends where a line break and a further row follow goes on to
/// the end of that row.
proof fn lemma_grid_extend(text: Seq<char>, start: int, end: int)
    requires
        is_grid_match(text, start, end),
        break_len(text, end) > 0,
        row_len(text, end + break_len(text, end)) > 0,
    ensures
        is_grid_match(
            text,
            start,
            end + break_len(text, end) + row_len(text, end + break_len(text, end)),
        ),
    decreases end - start,
{
    let n = row_len(text, start);
    let next = end + break_len(text, end);
    let far = next + row_len(text, next);
    assert(is_grid_match(text, next, far));
    if start + n != end {
        lemma_grid_extend(text, start + n + break_len(text, start + n), end);
    }
}

/// Finds the first and longest grid at or behind `from`.
fn find_grid(text: &Vec<char>, from: usize) -> (r: Option<(usize, usize)>)
    requires
        from <= text.len(),
    ensures
        match r {
            Some((start, end)) => is_first_match(
                text@,
                Variant::Wordle32,
                from as int,
                start as int,
                end as int,
            ),
            None => no_match_from(text@, Variant::Wordle32, from as int),
        },
{
    let n = text.len();
    let mut i: usize = from;
    while i < n
        invariant
            from <= i <= n,
            n == text.len(),
            forall|s: int, e: int|
                from <= s < i ==> !#[trigger] is_match(text@, Variant::Wordle32, s, e),
        decreases n - i,
    {
        let first = row_at(text, i);
        if first == 0 {
            i += 1;
        } else {
            let start = i;
            let mut end: usize = i + first;
            let mut more = true;
            while more
                invariant
                    start < end <= n,
                    n == text.len(),
                    is_grid_match(text@, start as int, end as int),
                    forall|e: int|
                        end < e && #[trigger] is_grid_match(text@, start as int, e) ==> break_len(
                            text@,
                            end as int,
                        ) > 0 && is_grid_match(text@, end + break_len(text@, end as int), e),
                    !more ==> break_len(text@, end as int) == 0 || row_len(
                        text@,
                        end + break_len(text@, end as int),
                    ) == 0,
                decreases
                        n - end + if more {
                            1int
                        } else {
                            0int
                        },
            {
                let k = break_at(text, end);
                let next = if k == 0 {
                    0
                } else {
                    row_at(text, end + k)
                };
                if next == 0 {
                    more = false;
                } else {
                    proof {
                        lemma_grid_extend(text@, start as int, end as int);
                        assert forall|e: int|
                            end + k + next < e && #[trigger] is_grid_match(
                                text@,
                                start as int,
                                e,
                            ) implies break_len(text@, end + k + next) > 0 && is_grid_match(
                            text@,
                            end + k + next + break_len(text@, end + k + next),
                            e,
                        ) by {
                            assert(is_grid_match(text@, end + k, e));
                        }
                    }
                    end = end + k + next;
                }
            }
            assert forall|e: int| end < e implies !#[trigger] is_match(
                text@,
                Variant::Wordle32,
                start as int,
                e,
            ) by {
                if is_grid_match(text@, start as int, e) {
                    assert(is_grid_match(text@, end + break_len(text@, end as int), e));
                }
            }
            return Some((start, end));
        }
    }
    None
}

/// Finds the first and longest block of the family `variant` that begins at
/// or behind `from`.
pub fn find_block(text: &Vec<char>, variant: Variant, from: usize) -> (r: Option<(usize, usize)>)
    requires
        from <= text.len(),
    ensures
        match r {
            Some((start, end)) => is_first_match(
                text@,
                variant,
                from as int,
                start as int,
                end as int,
            ),
            None => no_match_from(text@, variant, from as int),
        },
        r == match first_match(text@, variant, from as int) {
            Some((start, end)) => Some((start as usize, end as usize)),
            None => None,
        },
{
    let r = match variant {
        Variant::Wordle32 => find_grid(text, from),
        _ => find_chain(text, variant, from),
    };
    proof {
        match r {
            Some((start, end)) => {
                lemma_first_match_is(text@, variant, from as int, start as int, end as int);
            },
            None => {
                lemma_first_match_none(text@, variant, from as int);
            },
        }
    }
    r
}

/// A result block with the text around it, over plain values.
pub struct Block {
    /// What stands before the block.
    pub head: Seq<char>,
    /// The block itself.
    pub matched: Seq<char>,
    /// What stands behind the block.
    pub tail: Seq<char>,
}

/// One result block with the text around it. `head` and `tail` are kept as
/// they were written: they may hold the submitter's own words.
#[derive(Clone, Debug, PartialEq, Eq)]
pub struct ResultBlock {
    /// What stands before the block.
    pub head: String,
    /// The block itself.
    pub matched: String,
    /// What stands behind the block.
    pub tail: String,
}

impl View for ResultBlock {
    type V = Block;

    open spec fn view(&self) -> Block {
        Block { head: self.head@, matched: self.matched@, tail: self.tail@ }
    }
}

/// `text`, cut at `start` and `end`.
pub open spec fn cut_at(text: Seq<char>, start: int, end: int) -> Block {
    Block {
        head: text.subrange(0, start),
        matched: text.subrange(start, end),
        tail: text.subrange(end, text.len() as int),
    }
}

impl ResultBlock {
    /// Cuts `text` at the positions `start` and `end`.
    pub fn cut(text: &Vec<char>, start: usize, end: usize) -> (block: ResultBlock)
        requires
            start <= end <= text.len(),
        ensures
            block@ == cut_at(text@, start as int, end as int),
    {
        ResultBlock {
            head: string_of(text, 0, start),
            matched: string_of(text, start, end),
            tail: string_of(text, end, text.len()),
        }
    }
}

/// The blocks of `text` in the family `variant`, in the order in which they
/// stand in the text, each with all that is around it.
pub open spec fn blocks_of(text: Seq<char>, variant: Variant) -> Seq<Block> {
    let bounds = block_bounds(text, variant);
    Seq::new(bounds.len(), |k: int| cut_at(text, bounds[k].0, bounds[k].1))
}

/// The views of blocks.
pub open spec fn blocks_view(blocks: Seq<ResultBlock>) -> Seq<Block> {
    Seq::new(blocks.len(), |k: int| blocks[k]@)
}

/// Scans `text` for the result blocks of the family `variant`.
///
/// A standard text yields every block in it, the other families the first
/// block only. A text without a block is rejected.
pub fn scan(text: &str, variant: Variant) -> (r: Result<Vec<ResultBlock>, Rejection>)
    ensures
        match r {
            Ok(blocks) => 0 < blocks@.len() <= text@.len() && blocks_view(blocks@) == blocks_of(
                text@,
                variant,
            ) && forall|k: int|
                0 <= k < blocks@.len() ==> (#[trigger] blocks@[k]).matched@.len() <= text@.len(),
            Err(e) => e is NoBlock && no_match_from(text@, variant, 0) && blocks_of(
                text@,
                variant,
            ).len() == 0,
        },
{
    let chars = chars_of(text);
    scan_chars(&chars, variant)
}

/// Scans the characters `chars` for the result blocks of the family `variant`.
pub fn scan_chars(chars: &Vec<char>, variant: Variant) -> (r: Result<Vec<ResultBlock>, Rejection>)
    ensures
        match r {
            Ok(blocks) => 0 < blocks@.len() <= chars@.len() && blocks_view(blocks@) == blocks_of(
                chars@,
                variant,
            ) && forall|k: int|
                0 <= k < blocks@.len() ==> (#[trigger] blocks@[k]).matched@.len() <= chars@.len(),
            Err(e) => e is NoBlock && no_match_from(chars@, variant, 0) && blocks_of(
                chars@,
                variant,
            ).len() == 0,
        },
{
    let ghost text = chars;
    let repeat = match variant {
        Variant::Standard => true,
        _ => false,
    };
    let mut blocks: Vec<ResultBlock> = Vec::new();
    let mut pos: usize = 0;
    let mut more = true;
    let ghost mut found: Seq<(int, int)> = Seq::empty();
    while more
        invariant
            chars@ == text@,
            pos <= chars.len(),
            blocks@.len() <= pos,
            forall|k: int|
                0 <= k < blocks@.len() ==> (#[trigger] blocks@[k]).matched@.len() <= chars@.len(),
            repeat == (variant == Variant::Standard),
            found.len() == blocks@.len(),
            forall|k: int|
                0 <= k < blocks@.len() ==> (#[trigger] blocks@[k])@ == cut_at(
                    text@,
                    found[k].0,
                    found[k].1,
                ),
            more && repeat ==> found + all_matches(text@, variant, pos as int) == all_matches(
                text@,
                variant,
                0,
            ),
            more && !repeat ==> pos == 0 && found.len() == 0,
            !more ==> found == block_bounds(text@, variant),
            found.len() == 0 ==> pos == 0,
            !more && found.len() == 0 ==> no_match_from(text@, variant, 0),
        decreases
                chars.len() - pos + if more {
                    1int
                } else {
                    0int
                },
    {
        match find_block(chars, variant, pos) {
            None => {
                more = false;
                assert(found + Seq::<(int, int)>::empty() == found);
            },
            Some((start, end)) => {
                let block = ResultBlock::cut(chars, start, end);
                blocks.push(block);
                proof {
                    let rest = all_matches(text@, variant, end as int);
                    assert((found + seq![(start as int, end as int)]) + rest == found + (seq![
                        (start as int, end as int),
                    ] + rest));
                    found = found.push((start as int, end as int));
                }
                pos = end;
                if !repeat {
                    more = false;
                }
            },
        }
    }
    if blocks.len() == 0 {
        Err(Rejection::NoBlock)
    } else {
        assert(blocks_view(blocks@) == blocks_of(text@, variant));
        Ok(blocks)
    }
}

} // verus!

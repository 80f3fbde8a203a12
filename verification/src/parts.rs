//! A stored record taken apart for display: the patterns of its blocks, line
//! by line, side by side with the lines of the solution transcript.

use vstd::prelude::*;
use crate::assemble::{has_miss, is_miss};
use crate::text::{chars_of, lines_of, split_lines, texts_view};

verus! {

/// The pieces of `text` from `start` on, cut at every empty line at or behind
/// `i`: two line feeds in a row make a cut, and no line feed serves in two
/// cuts.
pub open spec fn gaps_from(text: Seq<char>, start: int, i: int) -> Seq<Seq<char>>
    decreases text.len() - i,
{
    if start < 0 || i < start || i + 1 >= text.len() {
        seq![text.subrange(start, text.len() as int)]
    } else if text[i] == '\n' && text[i + 1] == '\n' {
        seq![text.subrange(start, i)] + gaps_from(text, i + 2, i + 2)
    } else {
        gaps_from(text, start, i + 1)
    }
}

/// The patterns of the blocks of a stored pattern: its pieces between empty
/// lines.
pub open spec fn split_blocks(pattern: Seq<char>) -> Seq<Seq<char>> {
    gaps_from(pattern, 0, 0)
}

/// The first lines of `left` and of `right`, side by side: as many pairs as
/// the shorter of the two has lines.
pub open spec fn side_by_side(left: Seq<Seq<char>>, right: Seq<Seq<char>>) -> Seq<
    (Seq<char>, Seq<char>),
> {
    Seq::new(
        if left.len() <= right.len() {
            left.len()
        } else {
            right.len()
        },
        |i: int| (left[i], right[i]),
    )
}

/// Whether one of the lines holds no verdict that falls short.
pub open spec fn has_clean_line(lines: Seq<Seq<char>>) -> bool {
    exists|i: int| 0 <= i < lines.len() && !has_miss(#[trigger] lines[i])
}

/// Pairs of texts over plain values.
pub open spec fn pairs_view(pairs: Seq<(String, String)>) -> Seq<(Seq<char>, Seq<char>)> {
    Seq::new(pairs.len(), |i: int| (pairs[i].0@, pairs[i].1@))
}

/// One block of a stored record, prepared for display.
#[derive(Clone, Debug, PartialEq, Eq)]
pub struct SubPuzzle {
    /// The lines of the block's pattern.
    pub pattern_lines: Vec<String>,
    /// The lines of the solution transcript of the whole record.
    pub solution_lines: Vec<String>,
    /// The guesses: each line of the pattern with the solution line beside it.
    pub guess_lines: Vec<(String, String)>,
    /// The answer of this block: the blocks' answers are the last lines of
    /// the transcript, in the order of the blocks.
    pub solution: String,
    /// Whether the block was won: one of its lines holds no verdict that
    /// falls short.
    pub victory: bool,
}

impl SubPuzzle {
    /// Whether this is block number `index` of `count`, with the pattern
    /// `block`, of a record with the solution transcript `solution`.
    pub open spec fn is_part(&self, block: Seq<char>, solution: Seq<char>, index: int, count: int) -> bool {
        let lines = lines_of(solution);
        &&& texts_view(self.pattern_lines@) == lines_of(block)
        &&& texts_view(self.solution_lines@) == lines
        &&& pairs_view(self.guess_lines@) == side_by_side(lines_of(block), lines)
        &&& self.solution@ == lines[lines.len() - count + index]
        &&& self.victory == has_clean_line(lines_of(block))
    }
}

/// Where the blocks of a stored pattern begin and end.
fn block_ranges(pattern: &Vec<char>) -> (ranges: Vec<(usize, usize)>)
    ensures
        ranges@.len() == split_blocks(pattern@).len(),
        ranges@.len() >= 1,
        forall|k: int|
            0 <= k < ranges@.len() ==> (#[trigger] ranges@[k]).0 <= ranges@[k].1 <= pattern@.len()
                && pattern@.subrange(ranges@[k].0 as int, ranges@[k].1 as int) == split_blocks(
                pattern@,
            )[k],
{
    let n = pattern.len();
    let mut ranges: Vec<(usize, usize)> = Vec::new();
    let mut start: usize = 0;
    let mut i: usize = 0;
    let ghost mut done: Seq<Seq<char>> = Seq::empty();
    proof {
        assert(done + gaps_from(pattern@, 0, 0) == gaps_from(pattern@, 0, 0));
    }
    while i < n && n - i >= 2
        invariant
            start <= i,
            start <= n,
            n == pattern.len(),
            done.len() == ranges@.len(),
            done + gaps_from(pattern@, start as int, i as int) == split_blocks(pattern@),
            forall|k: int|
                0 <= k < ranges@.len() ==> (#[trigger] ranges@[k]).0 <= ranges@[k].1 <= n
                    && pattern@.subrange(ranges@[k].0 as int, ranges@[k].1 as int) == done[k],
        decreases n - i,
    {
        if pattern[i] == '\n' && pattern[i + 1] == '\n' {
            proof {
                let piece = pattern@.subrange(start as int, i as int);
                let rest = gaps_from(pattern@, i + 2, i + 2);
                assert(done + (seq![piece] + rest) == done.push(piece) + rest);
                done = done.push(piece);
            }
            ranges.push((start, i));
            start = i + 2;
            i = i + 2;
        } else {
            i += 1;
        }
    }
    proof {
        let piece = pattern@.subrange(start as int, n as int);
        assert(gaps_from(pattern@, start as int, i as int) == seq![piece]);
        assert(done + seq![piece] == done.push(piece));
        done = done.push(piece);
    }
    ranges.push((start, n));
    ranges
}

/// Whether a line holds no verdict that falls short.
fn clean(line: &Vec<char>) -> (r: bool)
    ensures
        r == !has_miss(line@),
{
    let mut i: usize = 0;
    while i < line.len()
        invariant
            i <= line.len(),
            forall|j: int| 0 <= j < i ==> !is_miss(#[trigger] line@[j]),
        decreases line.len() - i,
    {
        let c = line[i];
        if c == 'M' || c == 'W' || ('1' <= c && c <= '5') {
            assert(is_miss(line@[i as int]));
            return false;
        }
        i += 1;
    }
    true
}

/// Whether one of the lines holds no verdict that falls short.
fn any_clean(lines: &Vec<String>) -> (r: bool)
    ensures
        r == has_clean_line(texts_view(lines@)),
{
    let ghost all = texts_view(lines@);
    let mut i: usize = 0;
    while i < lines.len()
        invariant
            i <= lines.len(),
            all == texts_view(lines@),
            forall|k: int| 0 <= k < i ==> has_miss(#[trigger] all[k]),
        decreases lines.len() - i,
    {
        let line = chars_of(lines[i].as_str());
        if clean(&line) {
            assert(!has_miss(all[i as int]));
            return true;
        }
        i += 1;
    }
    false
}

/// The first lines of `left` and of `right`, side by side.
fn pair_up(left: &Vec<String>, right: &Vec<String>) -> (pairs: Vec<(String, String)>)
    ensures
        pairs_view(pairs@) == side_by_side(texts_view(left@), texts_view(right@)),
{
    let n = if left.len() <= right.len() {
        left.len()
    } else {
        right.len()
    };
    let mut pairs: Vec<(String, String)> = Vec::new();
    let mut i: usize = 0;
    while i < n
        invariant
            i <= n,
            n <= left.len(),
            n <= right.len(),
            pairs@.len() == i,
            forall|k: int|
                0 <= k < i ==> (#[trigger] pairs@[k]).0@ == left@[k]@ && pairs@[k].1@ == right@[k]@,
        decreases n - i,
    {
        pairs.push((left[i].clone(), right[i].clone()));
        i += 1;
    }
    assert(pairs_view(pairs@) == side_by_side(texts_view(left@), texts_view(right@)));
    pairs
}

/// A copy of `texts`.
fn copy_texts(texts: &Vec<String>) -> (copy: Vec<String>)
    ensures
        texts_view(copy@) == texts_view(texts@),
{
    let mut copy: Vec<String> = Vec::new();
    let mut i: usize = 0;
    while i < texts.len()
        invariant
            i <= texts.len(),
            copy@.len() == i,
            forall|k: int| 0 <= k < i ==> (#[trigger] copy@[k])@ == texts@[k]@,
        decreases texts.len() - i,
    {
        copy.push(texts[i].clone());
        i += 1;
    }
    assert(texts_view(copy@) == texts_view(texts@));
    copy
}

/// Takes a stored record apart for display: one part for each block of its
/// pattern, each with the whole solution transcript and its own answer.
///
/// The transcript must have a line for the answer of every block.
pub fn sub_puzzles_of(pattern: &str, solution: &str) -> (parts: Vec<SubPuzzle>)
    requires
        split_blocks(pattern@).len() <= lines_of(solution@).len(),
    ensures
        parts@.len() == split_blocks(pattern@).len(),
        forall|k: int|
            0 <= k < parts@.len() ==> (#[trigger] parts@[k]).is_part(
                split_blocks(pattern@)[k],
                solution@,
                k,
                parts@.len() as int,
            ),
{
    let pattern_chars = chars_of(pattern);
    let solution_chars = chars_of(solution);
    let solution_lines = split_lines(&solution_chars, 0, solution_chars.len());
    assert(solution_chars@.subrange(0, solution_chars@.len() as int) == solution@);
    let ranges = block_ranges(&pattern_chars);
    let count = ranges.len();
    let mut parts: Vec<SubPuzzle> = Vec::new();
    let mut i: usize = 0;
    while i < count
        invariant
            i <= count,
            count == ranges@.len(),
            count == split_blocks(pattern@).len(),
            pattern_chars@ == pattern@,
            count <= solution_lines@.len(),
            texts_view(solution_lines@) == lines_of(solution@),
            forall|k: int|
                0 <= k < ranges@.len() ==> (#[trigger] ranges@[k]).0 <= ranges@[k].1
                    <= pattern_chars@.len() && pattern_chars@.subrange(
                    ranges@[k].0 as int,
                    ranges@[k].1 as int,
                ) == split_blocks(pattern@)[k],
            parts@.len() == i,
            forall|k: int|
                0 <= k < i ==> (#[trigger] parts@[k]).is_part(
                    split_blocks(pattern@)[k],
                    solution@,
                    k,
                    count as int,
                ),
        decreases count - i,
    {
        let (from, to) = ranges[i];
        let pattern_lines = split_lines(&pattern_chars, from, to);
        let guess_lines = pair_up(&pattern_lines, &solution_lines);
        let answer = solution_lines[solution_lines.len() - count + i].clone();
        let victory = any_clean(&pattern_lines);
        let part = SubPuzzle {
            pattern_lines,
            solution_lines: copy_texts(&solution_lines),
            guess_lines,
            solution: answer,
            victory,
        };
        proof {
            let lines = lines_of(solution@);
            assert(texts_view(solution_lines@)[lines.len() - count + i] == lines[lines.len() - count
                + i]);
        }
        parts.push(part);
        i += 1;
    }
    parts
}

} // verus!

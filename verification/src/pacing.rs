//! Pacing of the display of a grid puzzle: which lines of the solution
//! transcript are guesses that found a board, and which were added behind
//! them for the boards that were lost.

use vstd::prelude::*;
use std::ops::Range;
use crate::text::{chars_of, pieces_of, texts_view};

verus! {

/// Hands out the positions of the solution lines of a puzzle: first the
/// guesses, then, one at a time, the lines behind them.
pub struct WrongSolutionManager {
    base_guesses: usize,
    current_index: usize,
}

impl WrongSolutionManager {
    /// The number of lines that are guesses.
    pub closed spec fn base_guesses(&self) -> nat {
        self.base_guesses as nat
    }

    /// The position that `advance` hands out next.
    pub closed spec fn next_index(&self) -> nat {
        self.current_index as nat
    }

    /// A manager for a transcript whose first `base_guesses` lines are
    /// guesses. The first position it hands out is the one behind them.
    pub fn new(base_guesses: usize) -> (manager: WrongSolutionManager)
        ensures
            manager.base_guesses() == base_guesses,
            manager.next_index() == base_guesses,
    {
        WrongSolutionManager { base_guesses, current_index: base_guesses }
    }

    /// The positions of the guesses.
    pub fn correct_indexes(&self) -> (indexes: Range<usize>)
        ensures
            indexes.start == 0,
            indexes.end == self.base_guesses(),
    {
        0..self.base_guesses
    }

    /// The position that `advance` hands out next.
    pub fn peek(&self) -> (index: usize)
        ensures
            index == self.next_index(),
    {
        self.current_index
    }

    /// Hands out the next position behind the guesses.
    pub fn advance(&mut self) -> (index: usize)
        requires
            old(self).next_index() < usize::MAX,
        ensures
            index == old(self).next_index(),
            final(self).next_index() == old(self).next_index() + 1,
            final(self).base_guesses() == old(self).base_guesses(),
    {
        let index = self.current_index;
        self.current_index = index + 1;
        index
    }
}

/// The chunk that marks a lost board in a line of a grid pattern.
pub open spec fn marker() -> Seq<char> {
    seq!['X', 'X']
}

/// Whether a line of a pattern holds the marker: one of the chunks between
/// its spaces is the marker.
pub open spec fn is_marked(line: Seq<char>) -> bool {
    pieces_of(line, ' ').contains(marker())
}

/// The number of lines that hold the marker.
pub open spec fn marked_lines(lines: Seq<Seq<char>>) -> nat
    decreases lines.len(),
{
    if lines.len() == 0 {
        0
    } else if is_marked(lines.last()) {
        marked_lines(lines.drop_last()) + 1
    } else {
        marked_lines(lines.drop_last())
    }
}

/// Whether one of the chunks before the last is the marker.
spec fn marked_before_last(chunks: Seq<Seq<char>>) -> bool {
    exists|k: int| 0 <= k < chunks.len() - 1 && #[trigger] chunks[k] == marker()
}

/// Executable test for [`is_marked`].
fn marked(line: &Vec<char>) -> (r: bool)
    ensures
        r == is_marked(line@),
{
    let n = line.len();
    let mut found = false;
    let mut pure = true;
    let mut length: usize = 0;
    let mut i: usize = 0;
    proof {
        assert(line@.take(0) == Seq::<char>::empty());
    }
    while i < n
        invariant
            i <= n,
            n == line.len(),
            length <= i,
            pieces_of(line@.take(i as int), ' ').len() >= 1,
            found == marked_before_last(pieces_of(line@.take(i as int), ' ')),
            length == pieces_of(line@.take(i as int), ' ').last().len(),
            pure == (forall|j: int|
                0 <= j < pieces_of(line@.take(i as int), ' ').last().len() ==> pieces_of(
                    line@.take(i as int),
                    ' ',
                ).last()[j] == 'X'),
        decreases n - i,
    {
        let ghost before = pieces_of(line@.take(i as int), ' ');
        let ghost after = pieces_of(line@.take(i + 1), ' ');
        let c = line[i];
        proof {
            assert(line@.take(i + 1).drop_last() == line@.take(i as int));
            assert(line@.take(i + 1).last() == c);
        }
        if c == ' ' {
            proof {
                let closed = before.last();
                let was = pure && length == 2;
                if was {
                    assert(closed == marker());
                    assert(after[before.len() - 1] == marker());
                }
                if marked_before_last(before) {
                    let k = choose|k: int| 0 <= k < before.len() - 1 && before[k] == marker();
                    assert(after[k] == marker());
                }
                if marked_before_last(after) {
                    let k = choose|k: int| 0 <= k < after.len() - 1 && after[k] == marker();
                    if k < before.len() - 1 {
                        assert(before[k] == marker());
                    } else {
                        assert(closed == marker());
                        assert(closed[0] == 'X' && closed[1] == 'X');
                    }
                }
            }
            found = found || (pure && length == 2);
            pure = true;
            length = 0;
        } else {
            proof {
                let open = before.last();
                if marked_before_last(before) {
                    let k = choose|k: int| 0 <= k < before.len() - 1 && before[k] == marker();
                    assert(after[k] == marker());
                }
                if marked_before_last(after) {
                    let k = choose|k: int| 0 <= k < after.len() - 1 && after[k] == marker();
                    assert(before[k] == marker());
                }
                assert(after.last() == open.push(c));
                if pure && c == 'X' {
                    assert forall|j: int| 0 <= j < after.last().len() implies after.last()[j]
                        == 'X' by {
                        if j < open.len() {
                            assert(after.last()[j] == open[j]);
                        }
                    }
                } else if !pure {
                    let j = choose|j: int| 0 <= j < open.len() && open[j] != 'X';
                    assert(after.last()[j] == open[j]);
                } else {
                    assert(after.last()[open.len() as int] == c);
                }
            }
            pure = pure && c == 'X';
            length += 1;
        }
        i += 1;
    }
    proof {
        assert(line@.take(n as int) == line@);
        let chunks = pieces_of(line@, ' ');
        let last = chunks.last();
        if pure && length == 2 {
            assert(last == marker());
            assert(chunks[chunks.len() - 1] == marker());
        }
        if marked_before_last(chunks) {
            let k = choose|k: int| 0 <= k < chunks.len() - 1 && chunks[k] == marker();
            assert(chunks[k] == marker());
        }
        if chunks.contains(marker()) {
            let k = choose|k: int| 0 <= k < chunks.len() && chunks[k] == marker();
            if k == chunks.len() - 1 {
                assert(last[0] == 'X' && last[1] == 'X');
            }
        }
    }
    found || (pure && length == 2)
}

/// Counts the lines that hold the marker.
pub fn count_marked(pattern_lines: &Vec<String>) -> (count: usize)
    ensures
        count == marked_lines(texts_view(pattern_lines@)),
        count <= pattern_lines@.len(),
{
    let ghost all = texts_view(pattern_lines@);
    let mut count: usize = 0;
    let mut i: usize = 0;
    proof {
        assert(all.take(0) == Seq::<Seq<char>>::empty());
    }
    while i < pattern_lines.len()
        invariant
            i <= pattern_lines.len(),
            all == texts_view(pattern_lines@),
            count == marked_lines(all.take(i as int)),
            count <= i,
        decreases pattern_lines.len() - i,
    {
        proof {
            assert(all.take(i + 1).drop_last() == all.take(i as int));
            assert(all.take(i + 1).last() == pattern_lines@[i as int]@);
        }
        let line = chars_of(pattern_lines[i].as_str());
        if marked(&line) {
            count += 1;
        }
        i += 1;
    }
    proof {
        assert(all.take(pattern_lines.len() as int) == all);
    }
    count
}

/// The manager for a puzzle with the pattern lines `pattern_lines` and
/// `solution_lines` lines of solution: every pattern line that holds the
/// marker stands for a solution line that is no guess.
pub fn make_wrong_solution_manager(pattern_lines: &Vec<String>, solution_lines: usize) -> (manager:
    WrongSolutionManager)
    requires
        marked_lines(texts_view(pattern_lines@)) <= solution_lines,
    ensures
        manager.base_guesses() == solution_lines - marked_lines(texts_view(pattern_lines@)),
        manager.next_index() == manager.base_guesses(),
{
    let wrong_guesses = count_marked(pattern_lines);
    WrongSolutionManager::new(solution_lines - wrong_guesses)
}

} // verus!

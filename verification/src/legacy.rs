//! Attempts for records that were stored before attempts were counted.
//!
//! Such records hold standard patterns of a single block, played to the end:
//! whether the puzzle was won shows in the last line.

use vstd::prelude::*;
use crate::assemble::{is_won_line, lemma_won_push};
use crate::text::{chars_of, is_short, line_count, lines_of};

verus! {

/// Whether a stored pattern is that of a won puzzle: its last line is a
/// winning line of the standard family.
pub open spec fn legacy_won(pattern: Seq<char>) -> bool {
    is_won_line(lines_of(pattern).last())
}

/// The attempts of a stored pattern: the number of its lines if the puzzle
/// was won, and none if it was lost.
pub open spec fn legacy_attempts_of(pattern: Seq<char>) -> Option<int> {
    if legacy_won(pattern) {
        Some(line_count(pattern) as int)
    } else {
        None
    }
}

/// Works out the attempts of a stored pattern.
pub fn legacy_attempts(pattern: &str) -> (attempts: Option<usize>)
    requires
        is_short(pattern@),
    ensures
        crate::assemble::count_view(attempts) == legacy_attempts_of(pattern@),
{
    let chars = chars_of(pattern);
    let n = chars.len();
    let mut lines: usize = 1;
    let mut all_c = true;
    let mut i: usize = 0;
    proof {
        assert(chars@.take(0) == Seq::<char>::empty());
    }
    while i < n
        invariant
            i <= n,
            n == chars.len(),
            is_short(chars@),
            lines <= i + 1,
            lines == line_count(chars@.take(i as int)),
            all_c == is_won_line(lines_of(chars@.take(i as int)).last()),
        decreases n - i,
    {
        proof {
            assert(chars@.take(i + 1).drop_last() == chars@.take(i as int));
            assert(chars@.take(i + 1).last() == chars@[i as int]);
            lemma_won_push(lines_of(chars@.take(i as int)).last(), chars@[i as int]);
        }
        if chars[i] == '\n' {
            lines += 1;
            all_c = true;
        } else {
            all_c = all_c && chars[i] == 'C';
        }
        i += 1;
    }
    proof {
        assert(chars@.take(n as int) == chars@);
    }
    if all_c {
        Some(lines)
    } else {
        None
    }
}

/// Works out whether a stored pattern is that of a won puzzle.
pub fn legacy_victory(pattern: &str) -> (won: bool)
    requires
        is_short(pattern@),
    ensures
        won == legacy_won(pattern@),
{
    legacy_attempts(pattern).is_some()
}

} // verus!

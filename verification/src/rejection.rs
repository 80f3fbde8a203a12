//! Why a submission is turned down, and how that is told to the submitter.

use vstd::prelude::*;
use vstd::string::StringExecFns;
use crate::text::{decimal, hexadecimal4, push_decimal, push_hexadecimal4};

verus! {

/// The reason of a rejection, over plain values.
pub enum Reason {
    /// The result text holds no block of the site's family.
    NoBlock,
    /// The solution transcript does not have the number of lines that the
    /// guesses call for.
    LineCount { expected: nat, obtained: nat, per_block: Seq<nat> },
    /// A glyph that the closed grammar of the grid family does not admit.
    UnknownGlyph { glyph: char },
}

/// The reason for which a submission is rejected. Every rejection concerns
/// one submission only; none of them is worth a retry with the same input.
#[derive(Clone, Debug, PartialEq, Eq)]
pub enum Rejection {
    /// The result text holds no block of the site's family.
    NoBlock,
    /// The solution transcript does not have the number of lines that the
    /// guesses call for.
    LineCount {
        /// The number of solution lines that the guesses call for.
        expected: usize,
        /// The number of lines of the solution transcript.
        obtained: usize,
        /// For a submission of several blocks, the number of lines that the
        /// guesses of each block account for; empty for a single block.
        per_block: Vec<usize>,
    },
    /// A glyph that the closed grammar of the grid family does not admit.
    UnknownGlyph {
        /// The offending glyph.
        glyph: char,
    },
}

/// Counts as plain numbers.
pub open spec fn counts_view(counts: Seq<usize>) -> Seq<nat> {
    Seq::new(counts.len(), |i: int| counts[i] as nat)
}

impl View for Rejection {
    type V = Reason;

    open spec fn view(&self) -> Reason {
        match *self {
            Rejection::NoBlock => Reason::NoBlock,
            Rejection::LineCount { expected, obtained, per_block } => Reason::LineCount {
                expected: expected as nat,
                obtained: obtained as nat,
                per_block: counts_view(per_block@),
            },
            Rejection::UnknownGlyph { glyph } => Reason::UnknownGlyph { glyph },
        }
    }
}

/// A list of counts as text: decimal numerals with a comma and a space
/// between neighbours.
pub open spec fn list_text(counts: Seq<nat>) -> Seq<char>
    decreases counts.len(),
{
    if counts.len() == 0 {
        Seq::empty()
    } else if counts.len() == 1 {
        decimal(counts[0])
    } else {
        list_text(counts.drop_last()) + ", "@ + decimal(counts.last())
    }
}

/// The sentence that tells the submitter why the submission was rejected. A
/// wrong number of lines is told with both counts, so that the paste can be
/// corrected, and an unknown glyph with its code point.
pub open spec fn reason_text(reason: Reason) -> Seq<char> {
    match reason {
        Reason::NoBlock => "failed to decode guesses"@,
        Reason::LineCount { expected, obtained, per_block } => {
            let counts = "expected "@ + decimal(expected) + ", obtained "@ + decimal(obtained)
                + " solution lines"@;
            if per_block.len() > 0 {
                counts + "; guess lines per puzzle: "@ + list_text(per_block)
            } else {
                counts
            }
        },
        Reason::UnknownGlyph { glyph } => "unknown result character "@ + seq![glyph] + " (U+"@
            + hexadecimal4(glyph as nat) + ")"@,
    }
}

/// Appends a list of counts to `out`.
fn push_list(out: &mut String, counts: &Vec<usize>)
    ensures
        final(out)@ == old(out)@ + list_text(counts_view(counts@)),
{
    let ghost start = out@;
    let ghost all = counts_view(counts@);
    let mut i: usize = 0;
    proof {
        assert(all.take(0) == Seq::<nat>::empty());
        assert(start + Seq::<char>::empty() == start);
    }
    while i < counts.len()
        invariant
            i <= counts.len(),
            all == counts_view(counts@),
            out@ == start + list_text(all.take(i as int)),
        decreases counts.len() - i,
    {
        let ghost before = list_text(all.take(i as int));
        proof {
            assert(all.take(i + 1).drop_last() == all.take(i as int));
            assert(all.take(i + 1).last() == counts@[i as int] as nat);
        }
        if i > 0 {
            out.append(", ");
        }
        push_decimal(out, counts[i]);
        proof {
            let number = decimal(counts@[i as int] as nat);
            if i > 0 {
                assert(start + before + ", "@ + number == start + (before + ", "@ + number));
            } else {
                assert(before == Seq::<char>::empty());
                assert(start + before + number == start + number);
            }
        }
        i += 1;
    }
    proof {
        assert(all.take(counts.len() as int) == all);
    }
}

impl Rejection {
    /// The sentence that tells the submitter why the submission was rejected.
    pub fn reason(&self) -> (text: String)
        ensures
            text@ == reason_text(self@),
    {
        let mut text = String::new();
        match self {
            Rejection::NoBlock => {
                text.append("failed to decode guesses");
                assert(Seq::<char>::empty() + "failed to decode guesses"@
                    == "failed to decode guesses"@);
            },
            Rejection::LineCount { expected, obtained, per_block } => {
                text.append("expected ");
                push_decimal(&mut text, *expected);
                text.append(", obtained ");
                push_decimal(&mut text, *obtained);
                text.append(" solution lines");
                let ghost counts = text@;
                assert(counts == "expected "@ + decimal(*expected as nat) + ", obtained "@
                    + decimal(*obtained as nat) + " solution lines"@);
                if per_block.len() > 0 {
                    text.append("; guess lines per puzzle: ");
                    push_list(&mut text, per_block);
                }
            },
            Rejection::UnknownGlyph { glyph } => {
                text.append("unknown result character ");
                text.push(*glyph);
                text.append(" (U+");
                push_hexadecimal4(&mut text, *glyph as u32);
                text.append(")");
                assert(text@ == "unknown result character "@ + seq![*glyph] + " (U+"@
                    + hexadecimal4(*glyph as nat) + ")"@);
            },
        }
        text
    }
}

} // verus!

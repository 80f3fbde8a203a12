//! The cross-validator: holds what the guesses call for against the solution
//! transcript and, where the two agree, makes the record that is stored.

use vstd::prelude::*;
use vstd::string::StringExecFns;
use crate::assemble::{
    assemble, join_blocks, lemma_counts_grow, lines_accounted, lost_count, merge, merged,
    most_lines, outcome_of, outcomes_view, own_lines, DecodedOutcome, Outcome,
};
use crate::glyph::Variant;
use crate::rejection::{counts_view, Reason, Rejection};
use crate::scan::{blocks_of, blocks_view, scan_chars, Block, ResultBlock};
use crate::text::{
    chars_of, count_lines, is_short, line_count, short, string_of, strip_cr, trim_bounds,
    trimmed, without_cr,
};

verus! {

/// The record of a submission, over plain values.
pub struct Record {
    /// What the submitter wrote before the first block.
    pub head: Seq<char>,
    /// The blocks as they were submitted.
    pub raw_pattern: Seq<char>,
    /// What the submitter wrote behind the last block.
    pub tail: Seq<char>,
    /// The canonical pattern.
    pub pattern: Seq<char>,
    /// The solution transcript.
    pub solution: Seq<char>,
    /// The guess with which the puzzle was won.
    pub attempts: Option<int>,
    /// The number of lines that the transcript had to have.
    pub expected_solution_line_count: Option<int>,
}

/// The record of a submission, as it is stored. It is made once, when the
/// submission is accepted, and not changed afterwards.
#[derive(Clone, Debug, PartialEq, Eq)]
pub struct PuzzleData {
    /// What the submitter wrote before the first block.
    pub head: String,
    /// The blocks as they were submitted, with an empty line between neighbours.
    pub raw_pattern: String,
    /// What the submitter wrote behind the last block.
    pub tail: String,
    /// The canonical pattern, with an empty line between the patterns of
    /// neighbouring blocks.
    pub pattern: String,
    /// The solution transcript, without white space around it.
    pub solution: String,
    /// The guess with which the puzzle was won; absent for a lost puzzle.
    pub attempts: Option<usize>,
    /// The number of lines that the transcript had to have.
    pub expected_solution_line_count: Option<usize>,
}

impl View for PuzzleData {
    type V = Record;

    open spec fn view(&self) -> Record {
        Record {
            head: self.head@,
            raw_pattern: self.raw_pattern@,
            tail: self.tail@,
            pattern: self.pattern@,
            solution: self.solution@,
            attempts: crate::assemble::count_view(self.attempts),
            expected_solution_line_count: crate::assemble::count_view(
                self.expected_solution_line_count,
            ),
        }
    }
}

impl PuzzleData {
    /// Makes a record of its parts.
    pub fn new(
        head: String,
        raw_pattern: String,
        tail: String,
        pattern: String,
        solution: String,
        attempts: Option<usize>,
        expected_solution_line_count: Option<usize>,
    ) -> (data: PuzzleData)
        ensures
            data.head == head,
            data.raw_pattern == raw_pattern,
            data.tail == tail,
            data.pattern == pattern,
            data.solution == solution,
            data.attempts == attempts,
            data.expected_solution_line_count == expected_solution_line_count,
    {
        PuzzleData {
            head,
            raw_pattern,
            tail,
            pattern,
            solution,
            attempts,
            expected_solution_line_count,
        }
    }
}

/// The blocks themselves, without what is around them.
pub open spec fn matched_of(blocks: Seq<Block>) -> Seq<Seq<char>> {
    Seq::new(blocks.len(), |i: int| blocks[i].matched)
}

/// For a submission of several blocks, the number of solution lines that the
/// guesses of each account for; empty for a single block.
pub open spec fn breakdown(outcomes: Seq<Outcome>) -> Seq<nat> {
    if outcomes.len() > 1 {
        Seq::new(outcomes.len(), |i: int| own_lines(outcomes[i]) as nat)
    } else {
        Seq::empty()
    }
}

/// What becomes of a decoded submission when it is held against its
/// solution transcript.
///
/// The transcript is taken without the white space around it. Where the
/// outcome calls for a number of lines and the transcript has another, the
/// submission is rejected with both numbers. Else it is accepted: the record
/// has the head of the first block and the tail of the last, the blocks and
/// the patterns joined with an empty line between neighbours, and the
/// attempts of the merged outcome.
pub open spec fn validated(blocks: Seq<Block>, outcomes: Seq<Outcome>, solution: Seq<char>) -> Result<
    Record,
    Reason,
> {
    let whole = merged(outcomes);
    let transcript = trimmed(solution);
    let obtained = line_count(transcript);
    if blocks.len() == 0 {
        Err(Reason::NoBlock)
    } else if whole.expected_line_count is Some && whole.expected_line_count->0 != obtained {
        Err(
            Reason::LineCount {
                expected: whole.expected_line_count->0 as nat,
                obtained,
                per_block: breakdown(outcomes),
            },
        )
    } else {
        Ok(
            Record {
                head: blocks.first().head,
                raw_pattern: join_blocks(matched_of(blocks)),
                tail: blocks.last().tail,
                pattern: whole.pattern,
                solution: transcript,
                attempts: whole.attempts,
                expected_solution_line_count: whole.expected_line_count,
            },
        )
    }
}

/// The blocks as they were submitted, joined with an empty line between
/// neighbours.
fn join_matched(blocks: &Vec<ResultBlock>) -> (raw: String)
    ensures
        raw@ == join_blocks(matched_of(blocks_view(blocks@))),
{
    let ghost all = matched_of(blocks_view(blocks@));
    let mut raw = String::new();
    let mut i: usize = 0;
    proof {
        assert(all.take(0) == Seq::<Seq<char>>::empty());
    }
    while i < blocks.len()
        invariant
            i <= blocks.len(),
            all == matched_of(blocks_view(blocks@)),
            raw@ == join_blocks(all.take(i as int)),
        decreases blocks.len() - i,
    {
        let ghost before = join_blocks(all.take(i as int));
        proof {
            assert(all.take(i + 1).drop_last() == all.take(i as int));
            assert(all.take(i + 1).last() == blocks@[i as int].matched@);
        }
        if i > 0 {
            raw.push('\n');
            raw.push('\n');
        }
        raw.append(blocks[i].matched.as_str());
        proof {
            if i > 0 {
                assert(before.push('\n').push('\n') == before + seq!['\n', '\n']);
            } else {
                assert(before + blocks@[i as int].matched@ == blocks@[i as int].matched@);
            }
        }
        i += 1;
    }
    proof {
        assert(all.take(blocks.len() as int) == all);
    }
    raw
}

/// The number of solution lines that the guesses of each block account for.
fn break_down(outcomes: &Vec<DecodedOutcome>) -> (counts: Vec<usize>)
    ensures
        counts_view(counts@) == breakdown(outcomes_view(outcomes@)),
{
    let mut counts: Vec<usize> = Vec::new();
    if outcomes.len() > 1 {
        let mut i: usize = 0;
        while i < outcomes.len()
            invariant
                i <= outcomes.len(),
                counts@.len() == i,
                forall|k: int| 0 <= k < i ==> counts@[k] == own_lines(#[trigger] outcomes@[k]@),
            decreases outcomes.len() - i,
        {
            counts.push(lines_accounted(&outcomes[i]));
            i += 1;
        }
    }
    assert(counts_view(counts@) == breakdown(outcomes_view(outcomes@)));
    counts
}

/// Holds decoded blocks against the solution transcript of their submission.
///
/// `blocks` are the blocks in the order of the text and `outcomes` what each
/// was decoded to. The submission is accepted if and only if the merged
/// outcome calls for no number of lines or for the number that the transcript
/// has.
pub fn validate(blocks: &Vec<ResultBlock>, outcomes: &Vec<DecodedOutcome>, solution_text: &str) -> (r:
    Result<PuzzleData, Rejection>)
    requires
        is_short(solution_text@),
        most_lines(outcomes_view(outcomes@)) + lost_count(outcomes_view(outcomes@)) <= usize::MAX,
    ensures
        match r {
            Ok(data) => validated(blocks_view(blocks@), outcomes_view(outcomes@), solution_text@)
                == Ok::<Record, Reason>(data@),
            Err(e) => validated(blocks_view(blocks@), outcomes_view(outcomes@), solution_text@)
                == Err::<Record, Reason>(e@),
        },
{
    let chars = chars_of(solution_text);
    validate_chars(blocks, outcomes, &chars)
}

/// [`validate`] on the characters of the transcript.
fn validate_chars(blocks: &Vec<ResultBlock>, outcomes: &Vec<DecodedOutcome>, chars: &Vec<char>) -> (r:
    Result<PuzzleData, Rejection>)
    requires
        is_short(chars@),
        most_lines(outcomes_view(outcomes@)) + lost_count(outcomes_view(outcomes@)) <= usize::MAX,
    ensures
        match r {
            Ok(data) => validated(blocks_view(blocks@), outcomes_view(outcomes@), chars@) == Ok::<
                Record,
                Reason,
            >(data@),
            Err(e) => validated(blocks_view(blocks@), outcomes_view(outcomes@), chars@) == Err::<
                Record,
                Reason,
            >(e@),
        },
{
    if blocks.len() == 0 {
        return Err(Rejection::NoBlock);
    }
    let whole = merge(outcomes);
    let (from, to) = trim_bounds(chars);
    let obtained = count_lines(chars, from, to);
    let mismatch = match whole.expected_line_count {
        Some(n) => n != obtained,
        None => false,
    };
    if mismatch {
        let expected = whole.expected_line_count.unwrap();
        let per_block = break_down(outcomes);
        return Err(Rejection::LineCount { expected, obtained, per_block });
    }
    let first = &blocks[0];
    let last = &blocks[blocks.len() - 1];
    assert(blocks_view(blocks@).first() == first@);
    assert(blocks_view(blocks@).last() == last@);
    Ok(
        PuzzleData {
            head: first.head.clone(),
            raw_pattern: join_matched(blocks),
            tail: last.tail.clone(),
            pattern: whole.pattern,
            solution: string_of(chars, from, to),
            attempts: whole.attempts,
            expected_solution_line_count: whole.expected_line_count,
        },
    )
}

/// What each of the blocks is decoded to, in their order, or the reason for
/// which the first of them that is rejected is rejected.
pub open spec fn outcomes_of(variant: Variant, blocks: Seq<Block>) -> Result<Seq<Outcome>, Reason>
    decreases blocks.len(),
{
    if blocks.len() == 0 {
        Ok(Seq::empty())
    } else {
        match outcomes_of(variant, blocks.drop_last()) {
            Err(reason) => Err(reason),
            Ok(before) => match outcome_of(variant, blocks.last().matched) {
                Err(reason) => Err(reason),
                Ok(outcome) => Ok(before.push(outcome)),
            },
        }
    }
}

/// What becomes of a submission: the record that is stored, or the reason for
/// which it is rejected.
///
/// Carriage returns count for nothing in either text. The result text is
/// scanned for the blocks of the family; without a block the submission is
/// rejected. Every block is decoded, the outcomes are merged, and the whole is
/// held against the solution transcript.
pub open spec fn submission(result: Seq<char>, solution: Seq<char>, variant: Variant) -> Result<
    Record,
    Reason,
> {
    let blocks = blocks_of(without_cr(result), variant);
    if blocks.len() == 0 {
        Err(Reason::NoBlock)
    } else {
        match outcomes_of(variant, blocks) {
            Err(reason) => Err(reason),
            Ok(outcomes) => validated(blocks, outcomes, without_cr(solution)),
        }
    }
}

/// Whether `r` is what becomes of the submission: the record of
/// [`submission`], or its reason.
pub open spec fn decodes_to(
    result: Seq<char>,
    solution: Seq<char>,
    variant: Variant,
    r: Result<PuzzleData, Rejection>,
) -> bool {
    match r {
        Ok(data) => submission(result, solution, variant) == Ok::<Record, Reason>(data@),
        Err(e) => submission(result, solution, variant) == Err::<Record, Reason>(e@),
    }
}

/// No block accounts for more lines than the longest accounts for.
proof fn lemma_most_lines_bound(outcomes: Seq<Outcome>, bound: int)
    requires
        0 <= bound,
        forall|k: int| 0 <= k < outcomes.len() ==> own_lines(#[trigger] outcomes[k]) <= bound,
    ensures
        most_lines(outcomes) <= bound,
    decreases outcomes.len(),
{
    if outcomes.len() > 0 {
        let before = outcomes.drop_last();
        assert forall|k: int| 0 <= k < before.len() implies own_lines(#[trigger] before[k])
            <= bound by {
            assert(before[k] == outcomes[k]);
        }
        lemma_most_lines_bound(before, bound);
    }
}

/// Decodes every block, in the order of the text.
fn assemble_all(blocks: &Vec<ResultBlock>, variant: Variant, limit: usize) -> (r: Result<
    Vec<DecodedOutcome>,
    Rejection,
>)
    requires
        limit <= isize::MAX,
        forall|k: int| 0 <= k < blocks@.len() ==> (#[trigger] blocks@[k]).matched@.len() <= limit,
    ensures
        match r {
            Ok(outcomes) => outcomes_of(variant, blocks_view(blocks@)) == Ok::<
                Seq<Outcome>,
                Reason,
            >(outcomes_view(outcomes@)) && outcomes@.len() == blocks@.len() && most_lines(
                outcomes_view(outcomes@),
            ) <= limit + 1,
            Err(e) => outcomes_of(variant, blocks_view(blocks@)) == Err::<Seq<Outcome>, Reason>(e@),
        },
{
    let ghost all = blocks_view(blocks@);
    let mut outcomes: Vec<DecodedOutcome> = Vec::new();
    let mut i: usize = 0;
    proof {
        assert(all.take(0) == Seq::<Block>::empty());
        assert(outcomes_view(outcomes@) == Seq::<Outcome>::empty());
    }
    while i < blocks.len()
        invariant
            i <= blocks.len(),
            limit <= isize::MAX,
            all == blocks_view(blocks@),
            forall|k: int|
                0 <= k < blocks@.len() ==> (#[trigger] blocks@[k]).matched@.len() <= limit,
            outcomes@.len() == i,
            outcomes_of(variant, all.take(i as int)) == Ok::<Seq<Outcome>, Reason>(
                outcomes_view(outcomes@),
            ),
            forall|k: int| 0 <= k < i ==> own_lines(#[trigger] outcomes@[k]@) <= limit + 1,
        decreases blocks.len() - i,
    {
        let ghost before = outcomes_view(outcomes@);
        proof {
            assert(all.take(i + 1).drop_last() == all.take(i as int));
            assert(all.take(i + 1).last() == blocks@[i as int]@);
        }
        match assemble(&blocks[i], variant) {
            Err(e) => {
                proof {
                    lemma_rejection_stays(variant, all, i + 1);
                }
                return Err(e);
            },
            Ok(outcome) => {
                outcomes.push(outcome);
                assert(outcomes_view(outcomes@) == before.push(outcome@));
            },
        }
        i += 1;
    }
    proof {
        assert(all.take(blocks.len() as int) == all);
        let views = outcomes_view(outcomes@);
        assert forall|k: int| 0 <= k < views.len() implies own_lines(#[trigger] views[k]) <= limit
            + 1 by {
            assert(views[k] == outcomes@[k]@);
        }
        lemma_most_lines_bound(views, limit + 1);
    }
    Ok(outcomes)
}

/// Once a block is rejected, so is every longer list of blocks, and for the
/// same reason.
proof fn lemma_rejection_stays(variant: Variant, blocks: Seq<Block>, i: int)
    requires
        0 <= i <= blocks.len(),
        outcomes_of(variant, blocks.take(i)) is Err,
    ensures
        outcomes_of(variant, blocks) == outcomes_of(variant, blocks.take(i)),
    decreases blocks.len() - i,
{
    if i < blocks.len() {
        assert(blocks.take(i + 1).drop_last() == blocks.take(i));
        lemma_rejection_stays(variant, blocks, i + 1);
    } else {
        assert(blocks.take(i) == blocks);
    }
}

/// Decodes a submission: the pasted result text of a site of the family
/// `variant`, and the solution transcript that came with it.
///
/// Returns the record to be stored, or the reason for which the submission
/// is rejected; see [`submission`].
pub fn decode_submission(result_text: &str, solution_text: &str, variant: Variant) -> (r: Result<
    PuzzleData,
    Rejection,
>)
    requires
        is_short(result_text@),
        is_short(solution_text@),
    ensures
        decodes_to(result_text@, solution_text@, variant, r),
{
    let text = strip_cr(result_text);
    let blocks = match scan_chars(&text, variant) {
        Ok(blocks) => blocks,
        Err(e) => {
            return Err(e);
        },
    };
    let outcomes = match assemble_all(&blocks, variant, text.len()) {
        Ok(outcomes) => outcomes,
        Err(e) => {
            return Err(e);
        },
    };
    proof {
        lemma_counts_grow(outcomes_view(outcomes@), 0);
    }
    let solution = strip_cr(solution_text);
    validate_chars(&blocks, &outcomes, &solution)
}

/// Decodes a submission of texts of any length: [`decode_submission`] for
/// texts that are short enough to count their lines, and `None` for others.
pub fn try_decode_submission(result_text: &str, solution_text: &str, variant: Variant) -> (r: Option<
    Result<PuzzleData, Rejection>,
>)
    ensures
        r is Some <==> is_short(result_text@) && is_short(solution_text@),
        r matches Some(decoded) ==> decodes_to(result_text@, solution_text@, variant, decoded),
{
    if short(result_text) && short(solution_text) {
        Some(decode_submission(result_text, solution_text, variant))
    } else {
        None
    }
}

} // verus!

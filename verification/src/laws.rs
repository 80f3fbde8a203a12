//! What holds of the codec as a whole: laws that relate scanning, decoding
//! and rendering to one another.

use vstd::prelude::*;
use crate::assemble::{
    assembles_to, decoder, defeats, grid_outcome, is_won_line, join_blocks,
    lemma_filter_map_prefix, lemma_lost_lines, line_code, line_coder, lines_pattern, lost_lines,
    one_per_line, outcome_of, own_lines, run_outcome, standard_outcome, until_win, verdicts,
    DecodedOutcome, Outcome,
};
use crate::glyph::{decode_default, decode_glyph, is_arrow, is_square, Variant, SELECTOR};
use crate::grammar::{
    all_matches, block_bounds, first_match, is_block, is_chain_match, is_first_match, is_match,
    lemma_first_match_is, lemma_first_match_none, may_follow,
};
use crate::rejection::{Reason, Rejection};
use crate::parts::{gaps_from, split_blocks};
use crate::render::{glyphs_of, rendered, shown};
use crate::scan::{blocks_of, cut_at, Block};
use crate::text::{line_count, lines_of, trimmed, without_cr};
use crate::validate::{decodes_to, matched_of, submission, validated, PuzzleData};

verus! {

/// Decoding a text in two parts gives what decoding the parts gives, one
/// behind the other.
pub proof fn lemma_filter_map_add<B>(a: Seq<char>, b: Seq<char>, f: spec_fn(char) -> Option<B>)
    ensures
        (a + b).filter_map(f) == a.filter_map(f) + b.filter_map(f),
    decreases b.len(),
{
    if b.len() == 0 {
        assert(a + b == a);
        assert(a.filter_map(f) + b.filter_map(f) == a.filter_map(f));
    } else {
        lemma_filter_map_add(a, b.drop_last(), f);
        assert((a + b).drop_last() == a + b.drop_last());
        assert((a + b).last() == b.last());
        let front = a.filter_map(f);
        let back = b.drop_last().filter_map(f);
        match f(b.last()) {
            Some(x) => {
                assert(front + back + seq![x] == front + (back + seq![x]));
            },
            None => {},
        }
    }
}

/// A block that is all of its text is what a scan of that text finds first.
pub proof fn lemma_whole_is_first_match(text: Seq<char>, variant: Variant)
    requires
        is_block(variant, text),
    ensures
        is_first_match(text, variant, 0, 0, text.len() as int),
        first_match(text, variant, 0) == Some((0int, text.len() as int)),
        block_bounds(text, variant) == seq![(0int, text.len() as int)],
        blocks_of(text, variant) == seq![cut_at(text, 0, text.len() as int)],
{
    let n = text.len() as int;
    assert forall|e: int| n < e implies !#[trigger] is_match(text, variant, 0, e) by {
        lemma_match_bounds(text, variant, 0, e);
    }
    lemma_first_match_is(text, variant, 0, 0, n);
    lemma_match_bounds(text, variant, 0, n);
    assert forall|s: int, e: int| n <= s implies !#[trigger] is_match(text, variant, s, e) by {
        lemma_match_bounds(text, variant, s, e);
    }
    lemma_first_match_none(text, variant, n);
    assert(all_matches(text, variant, n) == Seq::<(int, int)>::empty());
    assert(seq![(0int, n)] + Seq::<(int, int)>::empty() == seq![(0int, n)]);
    assert(block_bounds(text, variant) == seq![(0int, n)]);
    assert(blocks_of(text, variant) == seq![cut_at(text, 0, n)]);
}

/// A block lies within its text and is not empty.
pub proof fn lemma_match_bounds(text: Seq<char>, variant: Variant, start: int, end: int)
    ensures
        is_match(text, variant, start, end) ==> 0 <= start < end <= text.len(),
{
}

/// Whether every glyph of `text` may follow the one before it.
#[verifier::opaque]
pub open spec fn is_chained(text: Seq<char>, variant: Variant) -> bool {
    forall|j: int| 0 <= j < text.len() - 1 ==> may_follow(variant, #[trigger] text[j], text[j + 1])
}

/// What the last glyph of a rendered pattern is, given the character of the
/// block that was decoded last: a line feed for a line feed, the selector
/// for the end of a geo line, and a square else.
spec fn ends_like(variant: Variant, decoded: char, last: char) -> bool {
    if decoded == '\n' {
        last == '\n'
    } else if variant == Variant::Geo && (is_arrow(decoded) || decoded == SELECTOR) {
        last == SELECTOR
    } else {
        is_square(last)
    }
}

/// The state of a round trip after the first `i` characters of a block made
/// of lines: what was rendered up to there is chained, ends as the block
/// does, and decodes to the same pattern.
spec fn round_trip_holds(variant: Variant, block: Seq<char>, purple: bool, i: int) -> bool {
    let pattern = lines_pattern(variant, block.take(i));
    let glyphs = rendered(pattern, purple, variant);
    &&& lines_pattern(variant, glyphs) == pattern
    &&& is_chained(glyphs, variant)
    &&& i > 0 ==> glyphs.len() > 0 && is_square(glyphs[0]) && ends_like(
        variant,
        block[i - 1],
        glyphs.last(),
    )
}

/// What one character of a block made of lines adds to the round trip. It
/// may follow the glyph `last` that was rendered before it, and what it adds
/// decodes to its own code.
proof fn lemma_round_trip_glyph(variant: Variant, first: bool, prev: char, c: char, purple: bool, last: char)
    requires
        variant == Variant::Standard || variant == Variant::Geo,
        variant == Variant::Geo ==> c != '\r' && prev != '\r',
        first ==> is_square(c),
        !first ==> may_follow(variant, prev, c) && ends_like(variant, prev, last),
    ensures
        match line_code(variant, c) {
            None => !first && ends_like(variant, c, last),
            Some(d) => {
                let added = glyphs_of(d, purple, variant);
                &&& 1 <= added.len() <= 2
                &&& added.filter_map(line_coder(variant)) == seq![d]
                &&& first ==> is_square(added[0])
                &&& !first ==> may_follow(variant, last, added[0])
                &&& added.len() == 2 ==> may_follow(variant, added[0], added[1])
                &&& ends_like(variant, c, added.last())
            },
        },
{
    reveal_with_fuel(Seq::filter_map, 3);
    match line_code(variant, c) {
        None => {},
        Some(d) => {
            let added = glyphs_of(d, purple, variant);
            if added.len() == 1 {
                assert(added == seq![added[0]]);
                assert(added.drop_last() == Seq::<char>::empty());
            } else {
                assert(added.len() == 2);
                assert(added.drop_last() == seq![added[0]]);
                assert(added.drop_last().drop_last() == Seq::<char>::empty());
            }
        },
    }
}

/// The round trip of a block made of lines, character by character.
proof fn lemma_round_trip_lines(variant: Variant, block: Seq<char>, purple: bool, i: int)
    requires
        variant == Variant::Standard || variant == Variant::Geo,
        is_block(variant, block),
        variant == Variant::Geo ==> !block.contains('\r'),
        0 <= i <= block.len(),
    ensures
        round_trip_holds(variant, block, purple, i),
    decreases i,
{
    let coder = line_coder(variant);
    if i == 0 {
        assert(block.take(0) == Seq::<char>::empty());
        assert(lines_pattern(variant, block.take(0)) == Seq::<char>::empty());
        let glyphs = rendered(Seq::<char>::empty(), purple, variant);
        assert(glyphs == Seq::<char>::empty());
        assert(lines_pattern(variant, glyphs) == Seq::<char>::empty());
        assert(is_chained(glyphs, variant)) by {
            reveal(is_chained);
        }
    } else {
        lemma_round_trip_lines(variant, block, purple, i - 1);
        let c = block[i - 1];
        let before = lines_pattern(variant, block.take(i - 1));
        let after = lines_pattern(variant, block.take(i));
        let old_glyphs = rendered(before, purple, variant);
        let new_glyphs = rendered(after, purple, variant);
        block.lemma_filter_map_take_succ(coder, i - 1);
        assert(block.contains(c));
        let first = i == 1;
        let prev = if first {
            c
        } else {
            block[i - 2]
        };
        let last = if first {
            c
        } else {
            old_glyphs.last()
        };
        if !first {
            assert(may_follow(variant, block[i - 2], block[i - 2 + 1]));
            assert(block.contains(block[i - 2]));
        } else {
            assert(old_glyphs.len() == 0) by {
                assert(block.take(0) == Seq::<char>::empty());
            }
        }
        lemma_round_trip_glyph(variant, first, prev, c, purple, last);
        match line_code(variant, c) {
            None => {
                assert(after == before);
            },
            Some(d) => {
                let added = glyphs_of(d, purple, variant);
                assert(after == before.push(d));
                lemma_short_is_chained(added, variant);
                lemma_round_trip_push(variant, purple, before, d);
                assert(new_glyphs == old_glyphs + added);
                assert(new_glyphs.last() == added.last());
            },
        }
    }
}

/// A text of one or two glyphs is chained if the second may follow the first.
proof fn lemma_short_is_chained(text: Seq<char>, variant: Variant)
    requires
        text.len() <= 2,
        text.len() == 2 ==> may_follow(variant, text[0], text[1]),
    ensures
        is_chained(text, variant),
{
    reveal(is_chained);
}

/// One more verdict in a pattern adds its glyphs to what is rendered, and
/// what they decode to to what that decodes to.
proof fn lemma_round_trip_push(variant: Variant, purple: bool, before: Seq<char>, d: char)
    requires
        lines_pattern(variant, rendered(before, purple, variant)) == before,
        glyphs_of(d, purple, variant).filter_map(line_coder(variant)) == seq![d],
        is_chained(rendered(before, purple, variant), variant),
        is_chained(glyphs_of(d, purple, variant), variant),
        glyphs_of(d, purple, variant).len() > 0,
        rendered(before, purple, variant).len() > 0 ==> may_follow(
            variant,
            rendered(before, purple, variant).last(),
            glyphs_of(d, purple, variant)[0],
        ),
    ensures
        rendered(before.push(d), purple, variant) == rendered(before, purple, variant) + glyphs_of(
            d,
            purple,
            variant,
        ),
        lines_pattern(variant, rendered(before.push(d), purple, variant)) == before.push(d),
        is_chained(rendered(before.push(d), purple, variant), variant),
{
    let old_glyphs = rendered(before, purple, variant);
    let added = glyphs_of(d, purple, variant);
    assert(before.push(d).drop_last() == before);
    lemma_filter_map_add(old_glyphs, added, line_coder(variant));
    lemma_chained_add(old_glyphs, added, variant);
}

/// Two chained texts make a chained text if the second may follow the first.
proof fn lemma_chained_add(a: Seq<char>, b: Seq<char>, variant: Variant)
    requires
        is_chained(a, variant),
        is_chained(b, variant),
        a.len() > 0 && b.len() > 0 ==> may_follow(variant, a.last(), b[0]),
    ensures
        is_chained(a + b, variant),
{
    reveal(is_chained);
    let whole = a + b;
    assert forall|j: int| 0 <= j < whole.len() - 1 implies may_follow(
        variant,
        #[trigger] whole[j],
        whole[j + 1],
    ) by {
        if j < a.len() - 1 {
            assert(may_follow(variant, a[j], a[j + 1]));
        } else if j >= a.len() {
            assert(may_follow(variant, b[j - a.len()], b[j - a.len() + 1]));
        }
    }
}

/// A standard or geo block that is decoded and rendered again gives a block
/// of the same family, which a scan finds whole and which decodes to the same
/// pattern. Which square stands for a verdict may differ from the block that
/// was submitted. A geo block must be free of carriage returns for this.
pub proof fn law_round_trip_lines(variant: Variant, block: Seq<char>, purple: bool)
    requires
        variant == Variant::Standard || variant == Variant::Geo,
        is_block(variant, block),
        variant == Variant::Geo ==> !block.contains('\r'),
    ensures
        ({
            let pattern = lines_pattern(variant, block);
            let glyphs = rendered(pattern, purple, variant);
            &&& outcome_of(variant, block) is Ok
            &&& outcome_of(variant, block)->Ok_0.pattern == pattern
            &&& is_block(variant, glyphs)
            &&& blocks_of(glyphs, variant) == seq![cut_at(glyphs, 0, glyphs.len() as int)]
            &&& outcome_of(variant, glyphs) == outcome_of(variant, block)
        }),
{
    let n = block.len() as int;
    lemma_round_trip_lines(variant, block, purple, n);
    assert(block.take(n) == block);
    let pattern = lines_pattern(variant, block);
    let glyphs = rendered(pattern, purple, variant);
    assert(is_chain_match(glyphs, variant, 0, glyphs.len() as int)) by {
        reveal(is_chained);
    }
    lemma_whole_is_first_match(glyphs, variant);
}

/// Whether a verdict is one of the three that the shared table gives.
pub open spec fn is_basic(c: char) -> bool {
    c == 'C' || c == 'M' || c == 'W'
}

/// The shared table gives nothing but the three basic verdicts.
proof fn lemma_verdicts_basic(variant: Variant, block: Seq<char>)
    requires
        variant != Variant::Globle,
        variant != Variant::Globlec,
    ensures
        forall|j: int|
            0 <= j < verdicts(variant, block).len() ==> is_basic(#[trigger] verdicts(variant, block)[j]),
    decreases block.len(),
{
    if block.len() > 0 {
        lemma_verdicts_basic(variant, block.drop_last());
        let all = verdicts(variant, block);
        let before = verdicts(variant, block.drop_last());
        assert forall|j: int| 0 <= j < all.len() implies is_basic(#[trigger] all[j]) by {
            if j < before.len() {
                assert(all[j] == before[j]);
            }
        }
    }
}

/// In the audio family the line feeds of a pattern are not rendered.
proof fn lemma_rendered_run(run: Seq<char>, purple: bool)
    ensures
        rendered(one_per_line(run), purple, Variant::Audio) == rendered(
            run,
            purple,
            Variant::Audio,
        ),
    decreases run.len(),
{
    if run.len() > 1 {
        lemma_rendered_run(run.drop_last(), purple);
        let inner = one_per_line(run.drop_last());
        let wider = inner.push('\n');
        assert(wider.drop_last() == inner);
        assert(wider.push(run.last()).drop_last() == wider);
        assert(rendered(wider, purple, Variant::Audio) == rendered(inner, purple, Variant::Audio)
            + Seq::<char>::empty());
    }
}

/// A run of basic verdicts is rendered as one square for each, and that
/// square decodes to the verdict.
proof fn lemma_rendered_basic(run: Seq<char>, purple: bool)
    requires
        forall|j: int| 0 <= j < run.len() ==> is_basic(#[trigger] run[j]),
    ensures
        rendered(run, purple, Variant::Audio).len() == run.len(),
        forall|j: int|
            0 <= j < run.len() ==> is_square(#[trigger] rendered(run, purple, Variant::Audio)[j])
                && decode_default(rendered(run, purple, Variant::Audio)[j]) == Some(run[j]),
        verdicts(Variant::Audio, rendered(run, purple, Variant::Audio)) == run,
    decreases run.len(),
{
    if run.len() > 0 {
        let shorter = run.drop_last();
        assert forall|j: int| 0 <= j < shorter.len() implies is_basic(#[trigger] shorter[j]) by {
            assert(shorter[j] == run[j]);
        }
        lemma_rendered_basic(shorter, purple);
        assert(is_basic(run[run.len() - 1]));
        let glyphs = rendered(run, purple, Variant::Audio);
        let added = glyphs_of(run.last(), purple, Variant::Audio);
        assert(added == seq![added[0]]);
        assert(glyphs == rendered(shorter, purple, Variant::Audio).push(added[0]));
        assert(glyphs.drop_last() == rendered(shorter, purple, Variant::Audio));
        assert(verdicts(Variant::Audio, glyphs) == shorter + seq![run.last()]);
        assert(shorter + seq![run.last()] == run);
    } else {
        assert(verdicts(Variant::Audio, Seq::<char>::empty()) == Seq::<char>::empty());
    }
}

/// The guesses of a run hold no `C` but, at most, at their end; so they are
/// their own guesses.
pub proof fn lemma_until_win_twice(run: Seq<char>)
    ensures
        until_win(until_win(run)) == until_win(run),
        until_win(run).len() <= run.len(),
        run.len() > 0 ==> until_win(run).len() > 0,
        forall|j: int|
            0 <= j < until_win(run).len() ==> #[trigger] until_win(run)[j] == run[j],
{
    let guesses = until_win(run);
    run.index_of_first_ensures('C');
    guesses.index_of_first_ensures('C');
    match run.index_of_first('C') {
        Some(k) => {
            assert(guesses[k] == 'C');
            assert(guesses.contains('C'));
            let first = guesses.index_of_first('C').unwrap();
            if first < k {
                assert(guesses[first] == run[first]);
            }
            assert(guesses.take(first + 1) == guesses);
        },
        None => {},
    }
}

/// An audio block that is decoded and rendered again gives an audio block,
/// which a scan finds whole and which decodes to the same outcome.
pub proof fn law_round_trip_audio(block: Seq<char>, purple: bool)
    requires
        is_block(Variant::Audio, block),
    ensures
        ({
            let pattern = run_outcome(Variant::Audio, block).pattern;
            let glyphs = rendered(pattern, purple, Variant::Audio);
            &&& outcome_of(Variant::Audio, block) == Ok::<Outcome, Reason>(
                run_outcome(Variant::Audio, block),
            )
            &&& is_block(Variant::Audio, glyphs)
            &&& blocks_of(glyphs, Variant::Audio) == seq![cut_at(glyphs, 0, glyphs.len() as int)]
            &&& outcome_of(Variant::Audio, glyphs) == outcome_of(Variant::Audio, block)
        }),
{
    let all = verdicts(Variant::Audio, block);
    let run = until_win(all);
    let pattern = one_per_line(run);
    let glyphs = rendered(pattern, purple, Variant::Audio);
    lemma_verdicts_basic(Variant::Audio, block);
    lemma_until_win_twice(all);
    assert(all.len() > 0) by {
        lemma_filter_map_prefix(block, decoder(Variant::Audio), 1);
        block.lemma_filter_map_take_succ(decoder(Variant::Audio), 0);
        assert(block.take(0) == Seq::<char>::empty());
        assert(is_square(block[0]));
    }
    lemma_rendered_run(run, purple);
    lemma_rendered_basic(run, purple);
    assert(is_chain_match(glyphs, Variant::Audio, 0, glyphs.len() as int));
    lemma_whole_is_first_match(glyphs, Variant::Audio);
}

/// A block of a chain family, taken out of its text, is a block by itself.
pub proof fn lemma_match_is_block(text: Seq<char>, variant: Variant, start: int, end: int)
    requires
        variant != Variant::Wordle32,
        is_match(text, variant, start, end),
    ensures
        is_block(variant, text.subrange(start, end)),
{
    let block = text.subrange(start, end);
    assert forall|i: int| 0 <= i < block.len() - 1 implies may_follow(
        variant,
        #[trigger] block[i],
        block[i + 1],
    ) by {
        assert(may_follow(variant, text[start + i], text[start + i + 1]));
    }
}

/// Every pair of bounds that a repeated scan gives is a block of the text.
pub proof fn lemma_all_matches_are_matches(text: Seq<char>, variant: Variant, from: int, k: int)
    requires
        0 <= k < all_matches(text, variant, from).len(),
    ensures
        is_match(
            text,
            variant,
            all_matches(text, variant, from)[k].0,
            all_matches(text, variant, from)[k].1,
        ),
    decreases text.len() - from,
{
    match first_match(text, variant, from) {
        Some((start, end)) => {
            if from <= start < end <= text.len() {
                if k == 0 {
                    let p = choose|p: (int, int)| is_first_match(text, variant, from, p.0, p.1);
                    assert(p == (start, end));
                } else {
                    lemma_all_matches_are_matches(text, variant, end, k - 1);
                }
            }
        },
        None => {},
    }
}

/// Every block that a scan of a standard, geo or audio text gives is a block
/// of its family, so the round trip holds of it.
pub proof fn law_scanned_blocks_are_blocks(text: Seq<char>, variant: Variant, k: int)
    requires
        variant != Variant::Wordle32,
        0 <= k < blocks_of(text, variant).len(),
    ensures
        is_block(variant, blocks_of(text, variant)[k].matched),
{
    let bounds = block_bounds(text, variant);
    if variant == Variant::Standard {
        lemma_all_matches_are_matches(text, variant, 0, k);
    } else {
        let p = choose|p: (int, int)| is_first_match(text, variant, 0, p.0, p.1);
        assert(bounds[0] == p);
    }
    lemma_match_is_block(text, variant, bounds[k].0, bounds[k].1);
}

/// Decoding is deterministic: whatever two runs of the decoder return for
/// the same texts and the same family, both accept or both reject, with the
/// same record or for the same reason.
pub proof fn law_decoding_is_deterministic(
    result: Seq<char>,
    solution: Seq<char>,
    variant: Variant,
    first: Result<PuzzleData, Rejection>,
    second: Result<PuzzleData, Rejection>,
)
    requires
        decodes_to(result, solution, variant, first),
        decodes_to(result, solution, variant, second),
    ensures
        first is Ok <==> second is Ok,
        first is Ok ==> first->Ok_0@ == second->Ok_0@,
        first is Err ==> first->Err_0@ == second->Err_0@,
{
}

/// Whatever two runs of the assembler return for the same block and the same
/// family is the same outcome, or the same reason.
pub proof fn law_outcome_is_deterministic(
    variant: Variant,
    block: Seq<char>,
    first: Result<DecodedOutcome, Rejection>,
    second: Result<DecodedOutcome, Rejection>,
)
    requires
        assembles_to(variant, block, first),
        assembles_to(variant, block, second),
    ensures
        first is Ok <==> second is Ok,
        first is Ok ==> first->Ok_0@ == second->Ok_0@,
        first is Err ==> first->Err_0@ == second->Err_0@,
{
}

/// A standard puzzle is won as soon as a line of its pattern holds nothing
/// but `C`, and with the first such line: its position, counted from one, is
/// the number of attempts, and the transcript ends with that guess.
pub proof fn law_first_correct_line_wins(block: Seq<char>, k: int)
    requires
        0 <= k < lines_of(lines_pattern(Variant::Standard, block)).len(),
        is_won_line(lines_of(lines_pattern(Variant::Standard, block))[k]),
        forall|j: int|
            0 <= j < k ==> !is_won_line(
                #[trigger] lines_of(lines_pattern(Variant::Standard, block))[j],
            ),
    ensures
        standard_outcome(block).victory,
        standard_outcome(block).attempts == Some(k + 1),
        standard_outcome(block).expected_line_count == Some(k + 1),
{
    lemma_lost_lines(lines_of(lines_pattern(Variant::Standard, block)), k);
}

/// Any line of a standard pattern that holds nothing but `C` makes the
/// puzzle won, with no more attempts than the position of that line.
pub proof fn law_correct_line_wins(block: Seq<char>, k: int)
    requires
        0 <= k < lines_of(lines_pattern(Variant::Standard, block)).len(),
        is_won_line(lines_of(lines_pattern(Variant::Standard, block))[k]),
    ensures
        standard_outcome(block).victory,
        standard_outcome(block).attempts is Some,
        1 <= standard_outcome(block).attempts->0 <= k + 1,
{
    lemma_lost_lines_least(lines_of(lines_pattern(Variant::Standard, block)), k);
}

/// No winning line stands before the position that [`lost_lines`] gives, and
/// one stands there unless all lines are lost.
pub proof fn lemma_lost_lines_least(lines: Seq<Seq<char>>, k: int)
    requires
        0 <= k < lines.len(),
        is_won_line(lines[k]),
    ensures
        lost_lines(lines) <= k,
    decreases lines.len(),
{
    if k > 0 && !is_won_line(lines.first()) {
        let rest = lines.drop_first();
        assert(rest[k - 1] == lines[k]);
        lemma_lost_lines_least(rest, k - 1);
    }
}

/// In every family an outcome has attempts if and only if the puzzle was won.
pub proof fn law_attempts_iff_victory(variant: Variant, block: Seq<char>)
    ensures
        outcome_of(variant, block) matches Ok(outcome) ==> (outcome.attempts is Some
            <==> outcome.victory),
{
}

/// A glyph that the table of a family does not hold does not stop the
/// decoding: the block decodes as if the glyph were not there. (A geo block
/// keeps every such glyph but the selector, and a grid is rejected for it.)
pub proof fn law_unknown_glyph_is_left_out(
    variant: Variant,
    front: Seq<char>,
    glyph: char,
    back: Seq<char>,
)
    requires
        variant != Variant::Wordle32,
        decode_glyph(glyph, variant) is None,
        glyph != '\n',
        variant == Variant::Geo ==> glyph == SELECTOR,
    ensures
        outcome_of(variant, front + seq![glyph] + back) is Ok,
        outcome_of(variant, front + seq![glyph] + back) == outcome_of(variant, front + back),
{
    let one = seq![glyph];
    assert(one.drop_last() == Seq::<char>::empty());
    reveal_with_fuel(Seq::filter_map, 2);
    lemma_filter_map_add(front, one, line_coder(variant));
    lemma_filter_map_add(front + one, back, line_coder(variant));
    lemma_filter_map_add(front, back, line_coder(variant));
    assert(one.filter_map(line_coder(variant)) == Seq::<char>::empty());
    assert(front.filter_map(line_coder(variant)) + Seq::<char>::empty() == front.filter_map(
        line_coder(variant),
    ));
    lemma_filter_map_add(front, one, decoder(variant));
    lemma_filter_map_add(front + one, back, decoder(variant));
    lemma_filter_map_add(front, back, decoder(variant));
    assert(one.filter_map(decoder(variant)) == Seq::<char>::empty());
    assert(front.filter_map(decoder(variant)) + Seq::<char>::empty() == front.filter_map(
        decoder(variant),
    ));
}

/// A grid is won if and only if none of its boards is lost. A won grid is
/// accepted only with a transcript of as many lines as the grid has rows; a
/// lost grid is accepted with any transcript, and its record has no attempts.
pub proof fn law_grid_validation(block: Block, solution: Seq<char>)
    requires
        grid_outcome(block.matched) is Ok,
    ensures
        ({
            let outcome = grid_outcome(block.matched)->Ok_0;
            let checked = validated(seq![block], seq![outcome], solution);
            &&& outcome.victory <==> defeats(outcome.pattern) == 0
            &&& !outcome.victory ==> checked is Ok && checked->Ok_0.attempts is None
            &&& outcome.victory ==> (checked is Ok <==> line_count(trimmed(solution)) == line_count(
                outcome.pattern,
            ))
            &&& outcome.victory && checked is Ok ==> checked->Ok_0.attempts == Some(
                line_count(outcome.pattern) as int,
            )
        }),
{
}

/// The record of a submission with a single block keeps the whole result
/// text but for its carriage returns: head, block and tail make it up again,
/// and so does what is shown of the record.
pub proof fn law_record_keeps_the_text(
    result: Seq<char>,
    solution: Seq<char>,
    variant: Variant,
    purple: bool,
)
    requires
        submission(result, solution, variant) is Ok,
        blocks_of(without_cr(result), variant).len() == 1,
    ensures
        ({
            let record = submission(result, solution, variant)->Ok_0;
            &&& record.head + record.raw_pattern + record.tail == without_cr(result)
            &&& shown(
                record.head,
                Some(record.raw_pattern),
                record.tail,
                record.pattern,
                purple,
                variant,
            ) == without_cr(result)
        }),
{
    let text = without_cr(result);
    let blocks = blocks_of(text, variant);
    let bounds = block_bounds(text, variant);
    assert(bounds.len() == 1);
    if variant == Variant::Standard {
        lemma_all_matches_are_matches(text, variant, 0, 0);
    } else {
        let p = choose|p: (int, int)| is_first_match(text, variant, 0, p.0, p.1);
        assert(bounds[0] == p);
    }
    lemma_match_bounds(text, variant, bounds[0].0, bounds[0].1);
    assert(blocks[0] == cut_at(text, bounds[0].0, bounds[0].1));
    assert(matched_of(blocks).len() == 1);
    assert(join_blocks(matched_of(blocks)) == blocks[0].matched);
    assert(blocks[0].head + blocks[0].matched + blocks[0].tail == text);
}

/// The rule for one block and the rule for several agree: what a standard
/// block calls for is what its guesses account for, and one line more if it
/// was lost.
pub proof fn law_single_block_agrees_with_merge(block: Seq<char>)
    ensures
        ({
            let outcome = standard_outcome(block);
            let extra: int = if outcome.victory {
                0
            } else {
                1
            };
            &&& outcome.expected_line_count is Some
            &&& outcome.expected_line_count->0 == own_lines(outcome) + extra
        }),
{
}

/// Whether a pattern can be joined with others and found again: it is not
/// empty, neither begins nor ends with a line feed, and holds no empty line.
pub open spec fn is_joinable(pattern: Seq<char>) -> bool {
    &&& pattern.len() > 0
    &&& pattern.first() != '\n'
    &&& pattern.last() != '\n'
    &&& forall|i: int|
        0 <= i < pattern.len() - 1 ==> !(#[trigger] pattern[i] == '\n' && pattern[i + 1] == '\n')
}

/// Cutting a text behind a front part is cutting what is behind it.
proof fn lemma_gaps_shift(front: Seq<char>, text: Seq<char>, start: int, i: int)
    requires
        0 <= start <= i,
        start <= text.len(),
    ensures
        gaps_from(front + text, front.len() + start, front.len() + i) == gaps_from(text, start, i),
    decreases text.len() - i,
{
    let whole = front + text;
    let n = front.len() as int;
    if i + 1 >= text.len() {
        assert(whole.subrange(n + start, whole.len() as int) == text.subrange(
            start,
            text.len() as int,
        ));
    } else if text[i] == '\n' && text[i + 1] == '\n' {
        assert(whole[n + i] == '\n' && whole[n + i + 1] == '\n');
        assert(whole.subrange(n + start, n + i) == text.subrange(start, i));
        lemma_gaps_shift(front, text, i + 2, i + 2);
    } else {
        assert(whole[n + i] == text[i] && whole[n + i + 1] == text[i + 1]);
        lemma_gaps_shift(front, text, start, i + 1);
    }
}

/// No cut falls inside a joinable pattern at the front of a text.
proof fn lemma_gaps_pass(pattern: Seq<char>, tail: Seq<char>, i: int)
    requires
        is_joinable(pattern),
        0 <= i <= pattern.len(),
    ensures
        gaps_from(pattern + tail, 0, i) == gaps_from(pattern + tail, 0, pattern.len() as int),
    decreases pattern.len() - i,
{
    let whole = pattern + tail;
    if i < pattern.len() {
        assert(whole[i] == pattern[i]);
        if i + 1 < pattern.len() {
            assert(whole[i + 1] == pattern[i + 1]);
            assert(!(pattern[i] == '\n' && pattern[i + 1] == '\n'));
        }
        lemma_gaps_pass(pattern, tail, i + 1);
        if i + 1 >= whole.len() {
            assert(tail.len() == 0 && i + 1 == pattern.len());
        }
    }
}

/// Joined patterns begin with the first of them.
proof fn lemma_join_front(patterns: Seq<Seq<char>>)
    requires
        patterns.len() >= 2,
    ensures
        join_blocks(patterns) == patterns.first() + seq!['\n', '\n'] + join_blocks(
            patterns.drop_first(),
        ),
    decreases patterns.len(),
{
    let gap = seq!['\n', '\n'];
    let rest = patterns.drop_first();
    if patterns.len() == 2 {
        assert(patterns.drop_last().len() == 1);
        assert(join_blocks(patterns.drop_last()) == patterns[0]);
        assert(rest.len() == 1);
        assert(join_blocks(rest) == patterns[1]);
    } else {
        lemma_join_front(patterns.drop_last());
        assert(patterns.drop_last().drop_first() == rest.drop_last());
        assert(rest.last() == patterns.last());
        let inner = join_blocks(rest.drop_last());
        assert(patterns.first() + gap + inner + gap + patterns.last() == patterns.first() + gap + (
        inner + gap + patterns.last()));
    }
}

/// The stored pattern of a submission of several blocks gives the patterns
/// of the blocks back when it is cut at its empty lines.
pub proof fn law_split_undoes_join(patterns: Seq<Seq<char>>)
    requires
        patterns.len() >= 1,
        forall|k: int| 0 <= k < patterns.len() ==> is_joinable(#[trigger] patterns[k]),
    ensures
        split_blocks(join_blocks(patterns)) == patterns,
    decreases patterns.len(),
{
    let first = patterns.first();
    assert(is_joinable(patterns[0]));
    if patterns.len() == 1 {
        lemma_gaps_pass(first, Seq::empty(), 0);
        assert(first + Seq::<char>::empty() == first);
        assert(first.subrange(0, first.len() as int) == first);
        assert(gaps_from(first, 0, first.len() as int) == seq![first]);
    } else {
        let gap = seq!['\n', '\n'];
        let rest = patterns.drop_first();
        let tail = gap + join_blocks(rest);
        let whole = first + tail;
        lemma_join_front(patterns);
        assert(join_blocks(patterns) == whole);
        assert forall|k: int| 0 <= k < rest.len() implies is_joinable(#[trigger] rest[k]) by {
            assert(rest[k] == patterns[k + 1]);
        }
        law_split_undoes_join(rest);
        lemma_gaps_pass(first, tail, 0);
        let n = first.len() as int;
        assert(whole[n] == '\n' && whole[n + 1] == '\n') by {
            assert(whole[n] == tail[0]);
            assert(whole[n + 1] == tail[1]);
        }
        assert(whole.subrange(0, n) == first);
        assert(whole == (first + gap) + join_blocks(rest));
        lemma_gaps_shift(first + gap, join_blocks(rest), 0, 0);
        assert(gaps_from(whole, 0, n) == seq![first] + gaps_from(whole, n + 2, n + 2));
        assert(seq![first] + rest == patterns);
    }
}

/// The state of a standard pattern after the first `i` characters of its
/// block: it begins with a verdict, holds no empty line, and ends in a line
/// feed only where the block does.
spec fn pattern_holds(block: Seq<char>, i: int) -> bool {
    let pattern = lines_pattern(Variant::Standard, block.take(i));
    &&& pattern.len() > 0
    &&& pattern.first() != '\n'
    &&& forall|j: int|
        0 <= j < pattern.len() - 1 ==> !(#[trigger] pattern[j] == '\n' && pattern[j + 1] == '\n')
    &&& pattern.last() == '\n' <==> block[i - 1] == '\n'
}

/// The pattern of a standard block, character by character.
proof fn lemma_pattern_holds(block: Seq<char>, i: int)
    requires
        is_block(Variant::Standard, block),
        1 <= i <= block.len(),
    ensures
        pattern_holds(block, i),
    decreases i,
{
    let coder = line_coder(Variant::Standard);
    block.lemma_filter_map_take_succ(coder, i - 1);
    let before = lines_pattern(Variant::Standard, block.take(i - 1));
    let after = lines_pattern(Variant::Standard, block.take(i));
    let c = block[i - 1];
    if i == 1 {
        assert(block.take(0) == Seq::<char>::empty());
        assert(before == Seq::<char>::empty());
        assert(is_square(c));
        assert(after == seq![line_code(Variant::Standard, c)->0]);
    } else {
        lemma_pattern_holds(block, i - 1);
        assert(may_follow(Variant::Standard, block[i - 2], block[i - 2 + 1]));
        match line_code(Variant::Standard, c) {
            None => {
                assert(after == before);
            },
            Some(d) => {
                assert(after == before.push(d));
                assert forall|j: int| 0 <= j < after.len() - 1 implies !(#[trigger] after[j] == '\n'
                    && after[j + 1] == '\n') by {
                    if j < before.len() - 1 {
                        assert(!(before[j] == '\n' && before[j + 1] == '\n'));
                    }
                }
            },
        }
    }
}

/// The pattern of a standard block can be joined with others and found
/// again: a record of several blocks gives the pattern of each block back.
pub proof fn law_standard_patterns_are_joinable(block: Seq<char>)
    requires
        is_block(Variant::Standard, block),
    ensures
        is_joinable(standard_outcome(block).pattern),
{
    lemma_pattern_holds(block, block.len() as int);
    assert(block.take(block.len() as int) == block);
}

} // verus!

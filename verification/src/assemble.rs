//! The pattern assembler: decodes the glyphs of a block into the canonical
//! pattern and works out whether the puzzle was won and in how many attempts.

use vstd::prelude::*;
use vstd::string::StringExecFns;
use crate::glyph::{
    decode, decode_glyph, digit, is_digit, Variant, KEYCAP, RED, SELECTOR,
};
use crate::rejection::{Reason, Rejection};
use crate::scan::ResultBlock;
use crate::text::{chars_of, count_lines, is_short, line_count, lines_of, string_of};

verus! {

/// What a decoded block amounts to, over plain values.
pub struct Outcome {
    /// The canonical pattern: verdict codes, line by line.
    pub pattern: Seq<char>,
    /// Whether the puzzle was won.
    pub victory: bool,
    /// The guess with which the puzzle was won.
    pub attempts: Option<int>,
    /// The number of lines that the solution transcript has to have.
    pub expected_line_count: Option<int>,
}

/// What a decoded block amounts to. `attempts` is present if and only if
/// `victory` holds.
#[derive(Clone, Debug, PartialEq, Eq)]
pub struct DecodedOutcome {
    /// The canonical pattern: verdict codes, line by line.
    pub pattern: String,
    /// Whether the puzzle was won.
    pub victory: bool,
    /// The guess with which the puzzle was won.
    pub attempts: Option<usize>,
    /// The number of lines that the solution transcript has to have.
    pub expected_line_count: Option<usize>,
}

/// A count as a plain number.
pub open spec fn count_view(n: Option<usize>) -> Option<int> {
    match n {
        Some(k) => Some(k as int),
        None => None,
    }
}

impl View for DecodedOutcome {
    type V = Outcome;

    open spec fn view(&self) -> Outcome {
        Outcome {
            pattern: self.pattern@,
            victory: self.victory,
            attempts: count_view(self.attempts),
            expected_line_count: count_view(self.expected_line_count),
        }
    }
}

/// Whether the counts of an outcome are within what a block of that length
/// can give: a block has at most one line more than it has characters, and a
/// lost puzzle asks for one line more than that.
pub open spec fn within(outcome: Outcome, block: Seq<char>) -> bool {
    &&& outcome.attempts matches Some(n) ==> 1 <= n <= block.len() + 1
    &&& outcome.expected_line_count matches Some(n) ==> 1 <= n <= block.len() + 2
    &&& own_lines(outcome) <= block.len() + 1
}

/// The number of solution lines that the guesses of a block account for: all
/// that it calls for, but for the line of an answer that was not found.
pub open spec fn own_lines(outcome: Outcome) -> int {
    match outcome.attempts {
        Some(n) => n,
        None => match outcome.expected_line_count {
            Some(n) => if n > 0 {
                n - 1
            } else {
                0
            },
            None => 0,
        },
    }
}

/// What one character of a block made of lines adds to the pattern: a line
/// feed stays, a glyph of the table becomes its verdict, and anything else is
/// left out; only a geo block keeps what is neither (its direction glyphs),
/// but for the selector.
pub open spec fn line_code(variant: Variant, c: char) -> Option<char> {
    if c == '\n' {
        Some('\n')
    } else if decode_glyph(c, variant) is Some {
        decode_glyph(c, variant)
    } else if variant == Variant::Geo && c != SELECTOR {
        Some(c)
    } else {
        None
    }
}

/// [`line_code`] as a function of the character alone.
pub open spec fn line_coder(variant: Variant) -> spec_fn(char) -> Option<char> {
    |c: char| line_code(variant, c)
}

/// The pattern of a block made of lines.
pub open spec fn lines_pattern(variant: Variant, block: Seq<char>) -> Seq<char> {
    block.filter_map(line_coder(variant))
}

/// Executable form of [`line_code`].
fn code_of(variant: Variant, c: char) -> (r: Option<char>)
    ensures
        r == line_code(variant, c),
{
    if c == '\n' {
        Some('\n')
    } else {
        match decode(c, variant) {
            Some(d) => Some(d),
            None => match variant {
                Variant::Geo => if c != SELECTOR {
                    Some(c)
                } else {
                    None
                },
                _ => None,
            },
        }
    }
}

/// Decodes a block made of lines.
fn decode_lines(block: &Vec<char>, variant: Variant) -> (out: Vec<char>)
    ensures
        out@ == lines_pattern(variant, block@),
        out@.len() <= block@.len(),
{
    let mut out: Vec<char> = Vec::new();
    let mut i: usize = 0;
    while i < block.len()
        invariant
            i <= block.len(),
            out@ == lines_pattern(variant, block@.take(i as int)),
            out@.len() <= i,
        decreases block.len() - i,
    {
        proof {
            block@.lemma_filter_map_take_succ(line_coder(variant), i as int);
        }
        match code_of(variant, block[i]) {
            Some(d) => {
                out.push(d);
            },
            None => {},
        }
        i += 1;
    }
    assert(block@.take(block.len() as int) == block@);
    out
}

/// Whether a line of a standard pattern is a winning guess: every verdict in
/// it is `C`.
pub open spec fn is_won_line(line: Seq<char>) -> bool {
    forall|j: int| 0 <= j < line.len() ==> line[j] == 'C'
}

/// The number of lines that stand before the first winning line; the number
/// of all lines where none wins.
pub open spec fn lost_lines(lines: Seq<Seq<char>>) -> nat
    decreases lines.len(),
{
    if lines.len() == 0 || is_won_line(lines.first()) {
        0
    } else {
        1 + lost_lines(lines.drop_first())
    }
}

/// [`lost_lines`] is the position of the first winning line.
pub proof fn lemma_lost_lines(lines: Seq<Seq<char>>, k: int)
    requires
        0 <= k <= lines.len(),
        forall|j: int| 0 <= j < k ==> !is_won_line(#[trigger] lines[j]),
        k < lines.len() ==> is_won_line(lines[k]),
    ensures
        lost_lines(lines) == k,
    decreases k,
{
    if k > 0 {
        assert(!is_won_line(lines[0]));
        let rest = lines.drop_first();
        assert forall|j: int| 0 <= j < k - 1 implies !is_won_line(#[trigger] rest[j]) by {
            assert(rest[j] == lines[j + 1]);
        }
        lemma_lost_lines(rest, k - 1);
    }
}

/// What a standard block amounts to: it is won with the first line that
/// holds nothing but `C`, and the transcript then ends with that guess; a
/// lost puzzle's transcript has one line more than the block, for the answer
/// that was not found.
pub open spec fn standard_outcome(block: Seq<char>) -> Outcome {
    let pattern = lines_pattern(Variant::Standard, block);
    let lines = lines_of(pattern);
    let k = lost_lines(lines);
    if k < lines.len() {
        Outcome {
            pattern,
            victory: true,
            attempts: Some(k as int + 1),
            expected_line_count: Some(k as int + 1),
        }
    } else {
        Outcome {
            pattern,
            victory: false,
            attempts: None,
            expected_line_count: Some(lines.len() as int + 1),
        }
    }
}

/// A line with one more verdict wins if it won before and the verdict is `C`.
pub proof fn lemma_won_push(line: Seq<char>, c: char)
    ensures
        is_won_line(line.push(c)) <==> is_won_line(line) && c == 'C',
{
    let longer = line.push(c);
    if is_won_line(longer) {
        assert(longer[line.len() as int] == 'C');
        assert forall|j: int| 0 <= j < line.len() implies line[j] == 'C' by {
            assert(longer[j] == 'C');
        }
    }
}

/// The number of lines of a pattern and the position of its first winning line.
fn first_won_line(pattern: &Vec<char>) -> (r: (usize, Option<usize>))
    requires
        is_short(pattern@),
    ensures
        r.0 == line_count(pattern@),
        r.0 <= pattern@.len() + 1,
        match r.1 {
            Some(k) => k == lost_lines(lines_of(pattern@)) && k < r.0,
            None => lost_lines(lines_of(pattern@)) == r.0,
        },
{
    let n = pattern.len();
    let mut line: usize = 0;
    let mut all_c = true;
    let mut first: Option<usize> = None;
    let mut i: usize = 0;
    proof {
        assert(pattern@.take(0) == Seq::<char>::empty());
    }
    while i < n
        invariant
            i <= n,
            n == pattern.len(),
            is_short(pattern@),
            line <= i,
            lines_of(pattern@.take(i as int)).len() == line + 1,
            all_c == is_won_line(lines_of(pattern@.take(i as int)).last()),
            match first {
                Some(k) => k < line && is_won_line(lines_of(pattern@.take(i as int))[k as int])
                    && forall|j: int|
                    0 <= j < k ==> !is_won_line(#[trigger] lines_of(pattern@.take(i as int))[j]),
                None => forall|j: int|
                    0 <= j < line ==> !is_won_line(#[trigger] lines_of(pattern@.take(i as int))[j]),
            },
        decreases n - i,
    {
        let ghost before = lines_of(pattern@.take(i as int));
        let ghost after = lines_of(pattern@.take(i + 1));
        proof {
            assert(pattern@.take(i + 1).drop_last() == pattern@.take(i as int));
            assert(pattern@.take(i + 1).last() == pattern@[i as int]);
            lemma_won_push(before.last(), pattern@[i as int]);
            assert forall|j: int| 0 <= j < line implies after[j] == before[j] by {}
        }
        if pattern[i] == '\n' {
            if all_c && first.is_none() {
                first = Some(line);
            }
            line += 1;
            all_c = true;
        } else {
            all_c = all_c && pattern[i] == 'C';
        }
        i += 1;
    }
    proof {
        assert(pattern@.take(n as int) == pattern@);
    }
    if all_c && first.is_none() {
        first = Some(line);
    }
    proof {
        let lines = lines_of(pattern@);
        match first {
            Some(k) => lemma_lost_lines(lines, k as int),
            None => lemma_lost_lines(lines, lines.len() as int),
        }
    }
    (line + 1, first)
}

/// Works out what a standard block amounts to.
fn assemble_standard(block: &Vec<char>) -> (r: DecodedOutcome)
    requires
        is_short(block@),
    ensures
        r@ == standard_outcome(block@),
        within(r@, block@),
{
    let pattern = decode_lines(block, Variant::Standard);
    let (lines, first) = first_won_line(&pattern);
    let text = string_of(&pattern, 0, pattern.len());
    assert(pattern@.subrange(0, pattern@.len() as int) == pattern@);
    match first {
        Some(k) => DecodedOutcome {
            pattern: text,
            victory: true,
            attempts: Some(k + 1),
            expected_line_count: Some(k + 1),
        },
        None => DecodedOutcome {
            pattern: text,
            victory: false,
            attempts: None,
            expected_line_count: Some(lines + 1),
        },
    }
}

/// Whether a verdict says that a guess fell short: misplaced, wrong, or one
/// of the five ranks of distance.
pub open spec fn is_miss(c: char) -> bool {
    c == 'M' || c == 'W' || ('1' <= c && c <= '5')
}

/// Whether a line holds a verdict that falls short.
pub open spec fn has_miss(line: Seq<char>) -> bool {
    exists|j: int| 0 <= j < line.len() && is_miss(#[trigger] line[j])
}

/// Whether a line of a geo pattern is a winning guess: it holds a `C` and no
/// verdict that falls short.
pub open spec fn is_arrival(line: Seq<char>) -> bool {
    line.contains('C') && !has_miss(line)
}

/// What a geo block amounts to: it is won if its last line is a winning
/// guess, with as many attempts as it has lines; a lost puzzle's transcript
/// has one line more.
pub open spec fn geo_outcome(block: Seq<char>) -> Outcome {
    let pattern = lines_pattern(Variant::Geo, block);
    let lines = lines_of(pattern);
    if is_arrival(lines.last()) {
        Outcome {
            pattern,
            victory: true,
            attempts: Some(lines.len() as int),
            expected_line_count: Some(lines.len() as int),
        }
    } else {
        Outcome {
            pattern,
            victory: false,
            attempts: None,
            expected_line_count: Some(lines.len() as int + 1),
        }
    }
}

/// What one more verdict does to the two marks of a geo line.
proof fn lemma_arrival_push(line: Seq<char>, c: char)
    ensures
        line.push(c).contains('C') <==> line.contains('C') || c == 'C',
        has_miss(line.push(c)) <==> has_miss(line) || is_miss(c),
{
    let longer = line.push(c);
    let n = line.len() as int;
    assert(longer[n] == c);
    if line.contains('C') {
        let j = choose|j: int| 0 <= j < line.len() && line[j] == 'C';
        assert(longer[j] == 'C');
    }
    if longer.contains('C') {
        let j = choose|j: int| 0 <= j < longer.len() && longer[j] == 'C';
        if j < n {
            assert(line[j] == 'C');
        }
    }
    if has_miss(line) {
        let j = choose|j: int| 0 <= j < line.len() && is_miss(line[j]);
        assert(is_miss(longer[j]));
    }
    if has_miss(longer) {
        let j = choose|j: int| 0 <= j < longer.len() && is_miss(longer[j]);
        if j < n {
            assert(is_miss(line[j]));
        }
    }
}

/// The number of lines of a pattern, and whether its last line is a winning
/// guess of a geo puzzle.
fn last_line_arrives(pattern: &Vec<char>) -> (r: (usize, bool))
    requires
        is_short(pattern@),
    ensures
        r.0 == line_count(pattern@),
        r.0 <= pattern@.len() + 1,
        r.1 == is_arrival(lines_of(pattern@).last()),
{
    let n = pattern.len();
    let mut lines: usize = 1;
    let mut seen_c = false;
    let mut seen_miss = false;
    let mut i: usize = 0;
    proof {
        assert(pattern@.take(0) == Seq::<char>::empty());
    }
    while i < n
        invariant
            i <= n,
            n == pattern.len(),
            is_short(pattern@),
            lines <= i + 1,
            lines_of(pattern@.take(i as int)).len() == lines,
            seen_c == lines_of(pattern@.take(i as int)).last().contains('C'),
            seen_miss == has_miss(lines_of(pattern@.take(i as int)).last()),
        decreases n - i,
    {
        proof {
            assert(pattern@.take(i + 1).drop_last() == pattern@.take(i as int));
            assert(pattern@.take(i + 1).last() == pattern@[i as int]);
            lemma_arrival_push(lines_of(pattern@.take(i as int)).last(), pattern@[i as int]);
        }
        let c = pattern[i];
        if c == '\n' {
            lines += 1;
            seen_c = false;
            seen_miss = false;
        } else {
            seen_c = seen_c || c == 'C';
            seen_miss = seen_miss || c == 'M' || c == 'W' || ('1' <= c && c <= '5');
        }
        i += 1;
    }
    proof {
        assert(pattern@.take(n as int) == pattern@);
    }
    (lines, seen_c && !seen_miss)
}

/// Works out what a geo block amounts to.
fn assemble_geo(block: &Vec<char>) -> (r: DecodedOutcome)
    requires
        is_short(block@),
    ensures
        r@ == geo_outcome(block@),
        within(r@, block@),
{
    let pattern = decode_lines(block, Variant::Geo);
    let (lines, victory) = last_line_arrives(&pattern);
    let text = string_of(&pattern, 0, pattern.len());
    assert(pattern@.subrange(0, pattern@.len() as int) == pattern@);
    if victory {
        DecodedOutcome {
            pattern: text,
            victory: true,
            attempts: Some(lines),
            expected_line_count: Some(lines),
        }
    } else {
        DecodedOutcome {
            pattern: text,
            victory: false,
            attempts: None,
            expected_line_count: Some(lines + 1),
        }
    }
}

/// The table of the family `variant` as a function of the glyph alone.
pub open spec fn decoder(variant: Variant) -> spec_fn(char) -> Option<char> {
    |c: char| decode_glyph(c, variant)
}

/// The verdicts of the glyphs of `block` that the table of `variant` holds,
/// in their order; every other character is left out.
pub open spec fn verdicts(variant: Variant, block: Seq<char>) -> Seq<char> {
    block.filter_map(decoder(variant))
}

/// The guesses of a run of verdicts: the run up to and with its first `C`,
/// behind which nothing is a guess; the whole run where it holds no `C`.
pub open spec fn until_win(run: Seq<char>) -> Seq<char> {
    match run.index_of_first('C') {
        Some(k) => run.take(k + 1),
        None => run,
    }
}

/// A run of verdicts as a pattern: each verdict on a line of its own.
pub open spec fn one_per_line(run: Seq<char>) -> Seq<char>
    decreases run.len(),
{
    if run.len() <= 1 {
        run
    } else {
        one_per_line(run.drop_last()).push('\n').push(run.last())
    }
}

/// What a block of one row amounts to: it is won if a guess is `C`, with as
/// many attempts as there are guesses; a lost puzzle's transcript has one
/// line more than there are guesses.
pub open spec fn run_outcome(variant: Variant, block: Seq<char>) -> Outcome {
    let run = until_win(verdicts(variant, block));
    let pattern = one_per_line(run);
    if run.contains('C') {
        Outcome {
            pattern,
            victory: true,
            attempts: Some(run.len() as int),
            expected_line_count: Some(run.len() as int),
        }
    } else {
        Outcome {
            pattern,
            victory: false,
            attempts: None,
            expected_line_count: Some(run.len() as int + 1),
        }
    }
}

/// What is decoded of the first characters of a text stands at the front of
/// what is decoded of the whole.
pub proof fn lemma_filter_map_prefix<B>(s: Seq<char>, f: spec_fn(char) -> Option<B>, i: int)
    requires
        0 <= i <= s.len(),
    ensures
        s.take(i).filter_map(f).is_prefix_of(s.filter_map(f)),
        s.take(i).filter_map(f).len() <= i,
    decreases s.len() - i,
{
    lemma_filter_map_len(s.take(i), f);
    if i < s.len() {
        s.lemma_filter_map_take_succ(f, i);
        lemma_filter_map_prefix(s, f, i + 1);
    } else {
        assert(s.take(i) == s);
    }
}

/// Decoding leaves characters out and adds none.
pub proof fn lemma_filter_map_len<B>(s: Seq<char>, f: spec_fn(char) -> Option<B>)
    ensures
        s.filter_map(f).len() <= s.len(),
    decreases s.len(),
{
    if s.len() > 0 {
        lemma_filter_map_len(s.drop_last(), f);
    }
}

/// Decodes the guesses of a block of one row; the flag says whether the last
/// of them is a `C`.
fn decode_run(block: &Vec<char>, variant: Variant) -> (r: (Vec<char>, bool))
    ensures
        r.0@ == until_win(verdicts(variant, block@)),
        r.1 == r.0@.contains('C'),
        r.0@.len() <= block@.len(),
{
    let n = block.len();
    let mut run: Vec<char> = Vec::new();
    let mut won = false;
    let mut i: usize = 0;
    while i < n && !won
        invariant
            i <= n,
            n == block.len(),
            run@ == verdicts(variant, block@.take(i as int)),
            run@.len() <= i,
            won ==> run@.len() > 0 && run@.last() == 'C',
            forall|j: int| 0 <= j < run@.len() - 1 ==> run@[j] != 'C',
            !won ==> forall|j: int| 0 <= j < run@.len() ==> run@[j] != 'C',
        decreases n - i,
    {
        proof {
            block@.lemma_filter_map_take_succ(decoder(variant), i as int);
        }
        match decode(block[i], variant) {
            Some(d) => {
                run.push(d);
                if d == 'C' {
                    won = true;
                }
            },
            None => {},
        }
        i += 1;
    }
    proof {
        let all = verdicts(variant, block@);
        lemma_filter_map_prefix(block@, decoder(variant), i as int);
        all.index_of_first_ensures('C');
        if won {
            let k = run@.len() - 1;
            assert(all[k] == run@[k]);
            assert(all.contains('C'));
            let first = all.index_of_first('C').unwrap();
            if first < k {
                assert(all[first] == run@[first]);
            }
            assert(first == k);
            assert(all.take(k + 1) == run@);
            assert(run@.contains('C'));
        } else {
            assert(block@.take(i as int) == block@);
            if all.contains('C') {
                let j = choose|j: int| 0 <= j < all.len() && all[j] == 'C';
                assert(run@[j] != 'C');
            }
        }
    }
    (run, won)
}

/// Writes each verdict of a run on a line of its own.
fn spread(run: &Vec<char>) -> (out: Vec<char>)
    ensures
        out@ == one_per_line(run@),
{
    let mut out: Vec<char> = Vec::new();
    let mut i: usize = 0;
    while i < run.len()
        invariant
            i <= run.len(),
            out@ == one_per_line(run@.take(i as int)),
        decreases run.len() - i,
    {
        proof {
            assert(run@.take(i + 1).drop_last() == run@.take(i as int));
            assert(run@.take(i + 1).last() == run@[i as int]);
        }
        if i > 0 {
            out.push('\n');
        }
        out.push(run[i]);
        i += 1;
    }
    assert(run@.take(run.len() as int) == run@);
    out
}

/// Works out what a block of one row amounts to.
fn assemble_run(block: &Vec<char>, variant: Variant) -> (r: DecodedOutcome)
    requires
        is_short(block@),
    ensures
        r@ == run_outcome(variant, block@),
        within(r@, block@),
{
    let (run, won) = decode_run(block, variant);
    let pattern = spread(&run);
    let text = string_of(&pattern, 0, pattern.len());
    assert(pattern@.subrange(0, pattern@.len() as int) == pattern@);
    let guesses = run.len();
    if won {
        DecodedOutcome {
            pattern: text,
            victory: true,
            attempts: Some(guesses),
            expected_line_count: Some(guesses),
        }
    } else {
        DecodedOutcome {
            pattern: text,
            victory: false,
            attempts: None,
            expected_line_count: Some(guesses + 1),
        }
    }
}

/// Whether the closed grammar of the grid family admits `c`: a digit, the
/// selector and the keycap mark of a keycap digit, the red square, the space
/// between groups and the line feed between rows.
pub open spec fn is_grid_glyph(c: char) -> bool {
    is_digit(c) || c == RED || c == ' ' || c == '\n' || c == SELECTOR || c == KEYCAP
}

/// What one character of a grid adds to the pattern: digits, spaces and line
/// feeds stay, a red square becomes `X`, selectors and keycap marks are left
/// out.
pub open spec fn grid_code(c: char) -> Option<char> {
    if is_digit(c) || c == ' ' || c == '\n' {
        Some(c)
    } else if c == RED {
        Some('X')
    } else {
        None
    }
}

/// [`grid_code`] as a function value.
pub open spec fn grid_coder() -> spec_fn(char) -> Option<char> {
    |c: char| grid_code(c)
}

/// The first character of `block` that the grid grammar does not admit.
pub open spec fn first_stranger(block: Seq<char>) -> Option<char>
    decreases block.len(),
{
    if block.len() == 0 {
        None
    } else if !is_grid_glyph(block.first()) {
        Some(block.first())
    } else {
        first_stranger(block.drop_first())
    }
}

/// The test for the mark of a lost board.
pub open spec fn is_defeat_mark() -> spec_fn(char) -> bool {
    |c: char| c == 'X'
}

/// The number of lost boards of a grid pattern: each is marked by two `X`.
pub open spec fn defeats(pattern: Seq<char>) -> nat {
    pattern.filter(is_defeat_mark()).len() / 2
}

/// What a grid amounts to. A glyph that the grammar does not admit rejects
/// it. It is won if no board is lost; the transcript of a won grid has as
/// many lines as the grid has rows, and that is the number of attempts. Of a
/// lost grid neither is known.
pub open spec fn grid_outcome(block: Seq<char>) -> Result<Outcome, Reason> {
    match first_stranger(block) {
        Some(c) => Err(Reason::UnknownGlyph { glyph: c }),
        None => {
            let pattern = block.filter_map(grid_coder());
            let rows = line_count(pattern) as int;
            if defeats(pattern) == 0 {
                Ok(
                    Outcome {
                        pattern,
                        victory: true,
                        attempts: Some(rows),
                        expected_line_count: Some(rows),
                    },
                )
            } else {
                Ok(
                    Outcome {
                        pattern,
                        victory: false,
                        attempts: None,
                        expected_line_count: None,
                    },
                )
            }
        },
    }
}

/// [`first_stranger`] is the first character that the grammar does not admit.
pub proof fn lemma_first_stranger(block: Seq<char>, i: int)
    requires
        0 <= i <= block.len(),
        forall|j: int| 0 <= j < i ==> is_grid_glyph(#[trigger] block[j]),
        i < block.len() ==> !is_grid_glyph(block[i]),
    ensures
        first_stranger(block) == if i < block.len() {
            Some(block[i])
        } else {
            None
        },
    decreases i,
{
    if i > 0 {
        assert(is_grid_glyph(block[0]));
        let rest = block.drop_first();
        assert forall|j: int| 0 <= j < i - 1 implies is_grid_glyph(#[trigger] rest[j]) by {
            assert(rest[j] == block[j + 1]);
        }
        lemma_first_stranger(rest, i - 1);
    }
}

/// Works out what a grid amounts to.
fn assemble_grid(block: &Vec<char>) -> (r: Result<DecodedOutcome, Rejection>)
    requires
        is_short(block@),
    ensures
        match r {
            Ok(outcome) => grid_outcome(block@) == Ok::<Outcome, Reason>(outcome@) && within(
                outcome@,
                block@,
            ),
            Err(e) => grid_outcome(block@) == Err::<Outcome, Reason>(e@),
        },
{
    let n = block.len();
    let mut pattern: Vec<char> = Vec::new();
    let mut marks: usize = 0;
    let mut i: usize = 0;
    proof {
        reveal(Seq::filter);
    }
    while i < n
        invariant
            i <= n,
            n == block.len(),
            forall|j: int| 0 <= j < i ==> is_grid_glyph(#[trigger] block@[j]),
            pattern@ == block@.take(i as int).filter_map(grid_coder()),
            pattern@.len() <= i,
            marks == pattern@.filter(is_defeat_mark()).len(),
            marks <= pattern@.len(),
        decreases n - i,
    {
        proof {
            block@.lemma_filter_map_take_succ(grid_coder(), i as int);
            reveal(Seq::filter);
        }
        let c = block[i];
        let ghost before = pattern@;
        if digit(c) || c == ' ' || c == '\n' {
            pattern.push(c);
            assert(pattern@.drop_last() == before);
        } else if c == RED {
            pattern.push('X');
            marks += 1;
            assert(pattern@.drop_last() == before);
        } else if c == SELECTOR || c == KEYCAP {
        } else {
            proof {
                lemma_first_stranger(block@, i as int);
            }
            return Err(Rejection::UnknownGlyph { glyph: c });
        }
        i += 1;
    }
    proof {
        lemma_first_stranger(block@, n as int);
        assert(block@.take(n as int) == block@);
    }
    let rows = count_lines(&pattern, 0, pattern.len());
    let text = string_of(&pattern, 0, pattern.len());
    assert(pattern@.subrange(0, pattern@.len() as int) == pattern@);
    if marks / 2 == 0 {
        Ok(
            DecodedOutcome {
                pattern: text,
                victory: true,
                attempts: Some(rows),
                expected_line_count: Some(rows),
            },
        )
    } else {
        Ok(
            DecodedOutcome {
                pattern: text,
                victory: false,
                attempts: None,
                expected_line_count: None,
            },
        )
    }
}

/// What a block of the family `variant` amounts to, or the reason for which
/// it is rejected.
pub open spec fn outcome_of(variant: Variant, block: Seq<char>) -> Result<Outcome, Reason> {
    match variant {
        Variant::Standard => Ok(standard_outcome(block)),
        Variant::Geo => Ok(geo_outcome(block)),
        Variant::Audio | Variant::Globle | Variant::Globlec => Ok(run_outcome(variant, block)),
        Variant::Wordle32 => grid_outcome(block),
    }
}

/// Whether `r` is what the block amounts to: the outcome of [`outcome_of`],
/// or its reason.
pub open spec fn assembles_to(
    variant: Variant,
    block: Seq<char>,
    r: Result<DecodedOutcome, Rejection>,
) -> bool {
    match r {
        Ok(outcome) => outcome_of(variant, block) == Ok::<Outcome, Reason>(outcome@),
        Err(e) => outcome_of(variant, block) == Err::<Outcome, Reason>(e@),
    }
}

/// Decodes a block of the family `variant`: its pattern, whether the puzzle
/// was won, with which guess, and how many lines the solution transcript has
/// to have.
///
/// Only a grid can be rejected, for a glyph that its grammar does not admit;
/// in the other families a glyph that the table does not hold is left out of
/// the pattern and everything else is decoded as if it were not there.
pub fn assemble(block: &ResultBlock, variant: Variant) -> (r: Result<DecodedOutcome, Rejection>)
    requires
        is_short(block.matched@),
    ensures
        assembles_to(variant, block.matched@, r),
        r matches Ok(outcome) ==> within(outcome@, block.matched@),
{
    let chars = chars_of(block.matched.as_str());
    match variant {
        Variant::Standard => Ok(assemble_standard(&chars)),
        Variant::Geo => Ok(assemble_geo(&chars)),
        Variant::Audio | Variant::Globle | Variant::Globlec => Ok(assemble_run(&chars, variant)),
        Variant::Wordle32 => assemble_grid(&chars),
    }
}

/// Texts joined with an empty line between neighbours.
pub open spec fn join_blocks(texts: Seq<Seq<char>>) -> Seq<char>
    decreases texts.len(),
{
    if texts.len() == 0 {
        Seq::empty()
    } else if texts.len() == 1 {
        texts[0]
    } else {
        join_blocks(texts.drop_last()) + seq!['\n', '\n'] + texts.last()
    }
}

/// The patterns of outcomes.
pub open spec fn patterns_of(outcomes: Seq<Outcome>) -> Seq<Seq<char>> {
    Seq::new(outcomes.len(), |i: int| outcomes[i].pattern)
}

/// The greatest number of solution lines that the guesses of one of the
/// blocks account for.
pub open spec fn most_lines(outcomes: Seq<Outcome>) -> int
    decreases outcomes.len(),
{
    if outcomes.len() == 0 {
        0
    } else {
        let before = most_lines(outcomes.drop_last());
        let last = own_lines(outcomes.last());
        if last > before {
            last
        } else {
            before
        }
    }
}

/// The greatest number of attempts of one of the blocks that were won.
pub open spec fn most_attempts(outcomes: Seq<Outcome>) -> int
    decreases outcomes.len(),
{
    if outcomes.len() == 0 {
        0
    } else {
        let before = most_attempts(outcomes.drop_last());
        match outcomes.last().attempts {
            Some(n) => if n > before {
                n
            } else {
                before
            },
            None => before,
        }
    }
}

/// The number of blocks whose puzzle was lost.
pub open spec fn lost_count(outcomes: Seq<Outcome>) -> int
    decreases outcomes.len(),
{
    if outcomes.len() == 0 {
        0
    } else if outcomes.last().attempts is None {
        lost_count(outcomes.drop_last()) + 1
    } else {
        lost_count(outcomes.drop_last())
    }
}

/// What the blocks of one submission amount to together. A single block
/// stands for itself. Several are won only if each is won, with the greatest
/// of their attempts; their transcript is shared, so it has as many lines as
/// the block with the most guesses accounts for, and one more for every lost
/// block, for its answer. The patterns are joined with an empty line between
/// neighbours.
pub open spec fn merged(outcomes: Seq<Outcome>) -> Outcome {
    if outcomes.len() == 1 {
        outcomes[0]
    } else {
        let lost = lost_count(outcomes);
        Outcome {
            pattern: join_blocks(patterns_of(outcomes)),
            victory: lost == 0,
            attempts: if lost == 0 {
                Some(most_attempts(outcomes))
            } else {
                None
            },
            expected_line_count: Some(most_lines(outcomes) + lost),
        }
    }
}

/// Where every block was won, the guesses of each account for as many lines
/// as it took attempts.
pub proof fn lemma_all_won(outcomes: Seq<Outcome>)
    requires
        lost_count(outcomes) == 0,
    ensures
        most_attempts(outcomes) == most_lines(outcomes),
    decreases outcomes.len(),
{
    if outcomes.len() > 0 {
        lemma_counts_grow(outcomes, outcomes.len() - 1);
        assert(outcomes.take(outcomes.len() - 1) == outcomes.drop_last());
        lemma_all_won(outcomes.drop_last());
    }
}

/// The views of outcomes.
pub open spec fn outcomes_view(outcomes: Seq<DecodedOutcome>) -> Seq<Outcome> {
    Seq::new(outcomes.len(), |i: int| outcomes[i]@)
}

/// The number of solution lines that the guesses of a block account for.
pub fn lines_accounted(outcome: &DecodedOutcome) -> (n: usize)
    ensures
        n == own_lines(outcome@),
{
    match outcome.attempts {
        Some(n) => n,
        None => match outcome.expected_line_count {
            Some(n) => if n > 0 {
                n - 1
            } else {
                0
            },
            None => 0,
        },
    }
}

/// Merges the outcomes of the blocks of one submission.
pub fn merge(outcomes: &Vec<DecodedOutcome>) -> (r: DecodedOutcome)
    requires
        most_lines(outcomes_view(outcomes@)) + lost_count(outcomes_view(outcomes@)) <= usize::MAX,
    ensures
        r@ == merged(outcomes_view(outcomes@)),
{
    let ghost all = outcomes_view(outcomes@);
    if outcomes.len() == 1 {
        let only = &outcomes[0];
        assert(all[0] == only@);
        return DecodedOutcome {
            pattern: only.pattern.clone(),
            victory: only.victory,
            attempts: only.attempts,
            expected_line_count: only.expected_line_count,
        };
    }
    let mut pattern = String::new();
    let mut most: usize = 0;
    let mut lost: usize = 0;
    let mut i: usize = 0;
    proof {
        assert(all.take(0) == Seq::<Outcome>::empty());
        assert(patterns_of(all.take(0)) == Seq::<Seq<char>>::empty());
        lemma_counts_grow(all, 0);
    }
    while i < outcomes.len()
        invariant
            i <= outcomes.len(),
            all == outcomes_view(outcomes@),
            most_lines(all) + lost_count(all) <= usize::MAX,
            pattern@ == join_blocks(patterns_of(all.take(i as int))),
            most == most_lines(all.take(i as int)),
            lost == lost_count(all.take(i as int)),
            most_lines(all.take(i as int)) <= most_lines(all),
            lost_count(all.take(i as int)) <= lost_count(all),
            0 <= most_lines(all),
        decreases outcomes.len() - i,
    {
        let outcome = &outcomes[i];
        proof {
            assert(all.take(i + 1).drop_last() == all.take(i as int));
            assert(all.take(i + 1).last() == outcome@);
            assert(patterns_of(all.take(i + 1)).drop_last() == patterns_of(all.take(i as int)));
            assert(patterns_of(all.take(i + 1)).last() == outcome.pattern@);
            lemma_counts_grow(all, i + 1);
        }
        if i > 0 {
            pattern.push('\n');
            pattern.push('\n');
        }
        pattern.append(outcome.pattern.as_str());
        proof {
            let before = join_blocks(patterns_of(all.take(i as int)));
            if i > 0 {
                assert(before.push('\n').push('\n') == before + seq!['\n', '\n']);
            } else {
                assert(before + outcome.pattern@ == outcome.pattern@);
            }
        }
        let own = lines_accounted(outcome);
        if own > most {
            most = own;
        }
        if outcome.attempts.is_none() {
            lost += 1;
        }
        i += 1;
    }
    proof {
        assert(all.take(outcomes.len() as int) == all);
        if lost == 0 {
            lemma_all_won(all);
        }
    }
    DecodedOutcome {
        pattern,
        victory: lost == 0,
        attempts: if lost == 0 {
            Some(most)
        } else {
            None
        },
        expected_line_count: Some(most + lost),
    }
}

/// Both counts of a merge grow with the number of blocks.
pub proof fn lemma_counts_grow(outcomes: Seq<Outcome>, i: int)
    requires
        0 <= i <= outcomes.len(),
    ensures
        0 <= most_lines(outcomes.take(i)) <= most_lines(outcomes),
        0 <= lost_count(outcomes.take(i)) <= lost_count(outcomes),
        lost_count(outcomes) <= outcomes.len(),
    decreases outcomes.len(),
{
    if outcomes.len() > 0 {
        let before = outcomes.drop_last();
        if i < outcomes.len() {
            lemma_counts_grow(before, i);
            assert(before.take(i) == outcomes.take(i));
        } else {
            lemma_counts_grow(before, i - 1);
            assert(outcomes.take(i) == outcomes);
        }
    } else {
        assert(outcomes.take(i) == outcomes);
    }
}

} // verus!

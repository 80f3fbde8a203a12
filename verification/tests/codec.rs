use wordle_archive::assemble::{assemble, merge, DecodedOutcome};
use wordle_archive::glyph::{decode, decode_square, Variant};
use wordle_archive::rejection::Rejection;
use wordle_archive::scan::{scan, ResultBlock};
use wordle_archive::text::short;
use wordle_archive::validate::{decode_submission, try_decode_submission, validate, PuzzleData};

const BLACK: &str = "\u{2B1B}";
const WHITE: &str = "\u{2B1C}";
const RED: &str = "\u{1F7E5}";
const YELLOW: &str = "\u{1F7E8}";
const GREEN: &str = "\u{1F7E9}";

/// Squares for the letters `b`, `w`, `r`, `y`, `g`; other characters stay.
fn squares(letters: &str) -> String {
    let mut out = String::new();
    for c in letters.chars() {
        match c {
            'b' => out.push_str(BLACK),
            'w' => out.push_str(WHITE),
            'r' => out.push_str(RED),
            'y' => out.push_str(YELLOW),
            'g' => out.push_str(GREEN),
            other => out.push(other),
        }
    }
    out
}

/// One keycap digit.
fn keycap(digit: char) -> String {
    format!("{}\u{FE0F}\u{20E3}", digit)
}

/// A row of four groups; `None` is a lost board.
fn grid_row(groups: [Option<&str>; 4]) -> String {
    let mut parts: Vec<String> = Vec::new();
    for group in groups {
        match group {
            Some(digits) => {
                let mut part = String::new();
                for d in digits.chars() {
                    part.push_str(&keycap(d));
                }
                parts.push(part);
            },
            None => parts.push(format!("{}{}", RED, RED)),
        }
    }
    parts.join(" ")
}

fn block_of(matched: &str) -> ResultBlock {
    ResultBlock { head: String::new(), matched: matched.to_string(), tail: String::new() }
}

#[test]
fn shared_table_decodes_every_square() {
    for (glyph, verdict) in [
        ('\u{2B1B}', 'W'),
        ('\u{2B1C}', 'W'),
        ('\u{1F7E5}', 'M'),
        ('\u{1F7E6}', 'C'),
        ('\u{1F7E7}', 'M'),
        ('\u{1F7E8}', 'M'),
        ('\u{1F7E9}', 'C'),
        ('\u{1F7EA}', 'M'),
        ('\u{1F7EB}', 'M'),
    ] {
        assert_eq!(decode(glyph, Variant::Standard), Some(verdict));
        assert_eq!(decode(glyph, Variant::Audio), Some(verdict));
        assert_eq!(decode(glyph, Variant::Geo), Some(verdict));
        assert_eq!(decode_square(glyph, &"wordle".to_string()), Some(verdict));
    }
    assert_eq!(decode('x', Variant::Standard), None);
    assert_eq!(decode('\u{FE0F}', Variant::Standard), None);
    assert_eq!(decode('\u{27A1}', Variant::Geo), None);
}

#[test]
fn ordinal_tables_are_inverted() {
    let globle = "globle".to_string();
    let globlec = "globlec".to_string();
    assert_eq!(decode_square('\u{2B1C}', &globle), Some('W'));
    assert_eq!(decode_square('\u{1F7E5}', &globle), Some('1'));
    assert_eq!(decode_square('\u{1F7E7}', &globle), Some('2'));
    assert_eq!(decode_square('\u{1F7E8}', &globle), Some('3'));
    assert_eq!(decode_square('\u{1F7E9}', &globle), Some('C'));
    assert_eq!(decode_square('\u{2B1B}', &globle), None);
    assert_eq!(decode_square('\u{1F7E6}', &globle), None);
    assert_eq!(decode_square('\u{2B1B}', &globlec), Some('W'));
    assert_eq!(decode_square('\u{1F7E7}', &globlec), Some('1'));
    assert_eq!(decode_square('\u{1F7E8}', &globlec), Some('2'));
    assert_eq!(decode_square('\u{1F7E9}', &globlec), Some('3'));
    assert_eq!(decode_square('\u{1F7E6}', &globlec), Some('4'));
    assert_eq!(decode_square('\u{1F7EA}', &globlec), Some('5'));
    assert_eq!(decode_square('\u{1F7E5}', &globlec), Some('C'));
    assert_eq!(decode_square('\u{2B1C}', &globlec), None);
}

#[test]
fn variant_names_are_read() {
    assert_eq!(Variant::from_name("geo"), Variant::Geo);
    assert_eq!(Variant::from_name("audio"), Variant::Audio);
    assert_eq!(Variant::from_name("globle"), Variant::Globle);
    assert_eq!(Variant::from_name("globlec"), Variant::Globlec);
    assert_eq!(Variant::from_name("wordle32"), Variant::Wordle32);
    assert_eq!(Variant::from_name("wordle"), Variant::Standard);
    assert_eq!(Variant::from_name(""), Variant::Standard);
    assert_eq!(Variant::from_name("Geo"), Variant::Standard);
    assert_eq!(Variant::from_name("geo "), Variant::Standard);
}

#[test]
fn standard_scan_keeps_head_and_tail() {
    let text = format!("Wordle 123 2/6\n\n{}\n\nnot bad!", squares("bybbb\nggggg"));
    let blocks = scan(&text, Variant::Standard).unwrap();
    assert_eq!(blocks.len(), 1);
    assert_eq!(blocks[0].head, "Wordle 123 2/6\n\n");
    assert_eq!(blocks[0].matched, squares("bybbb\nggggg"));
    assert_eq!(blocks[0].tail, "\n\nnot bad!");
}

#[test]
fn standard_scan_finds_every_block() {
    let first = squares("bb\ngg");
    let second = squares("yy\nbb\ngg");
    let text = format!("a {} b {} c", first, second);
    let blocks = scan(&text, Variant::Standard).unwrap();
    assert_eq!(blocks.len(), 2);
    assert_eq!(blocks[0].head, "a ");
    assert_eq!(blocks[0].matched, first);
    assert_eq!(blocks[0].tail, format!(" b {} c", second));
    assert_eq!(blocks[1].head, format!("a {} b ", first));
    assert_eq!(blocks[1].matched, second);
    assert_eq!(blocks[1].tail, " c");
}

#[test]
fn other_families_find_the_first_block_only() {
    let text = format!("{} and {}", squares("rg"), squares("yg"));
    let blocks = scan(&text, Variant::Audio).unwrap();
    assert_eq!(blocks.len(), 1);
    assert_eq!(blocks[0].matched, squares("rg"));
    assert_eq!(blocks[0].tail, format!(" and {}", squares("yg")));
}

#[test]
fn scan_without_a_block_is_rejected() {
    for variant in [
        Variant::Standard,
        Variant::Geo,
        Variant::Audio,
        Variant::Globle,
        Variant::Globlec,
        Variant::Wordle32,
    ] {
        assert_eq!(scan("no glyphs here", variant), Err(Rejection::NoBlock));
        assert_eq!(scan("", variant), Err(Rejection::NoBlock));
    }
    assert_eq!(scan(&squares("bbg"), Variant::Geo), Err(Rejection::NoBlock));
    assert_eq!(scan(&squares("bbg"), Variant::Wordle32), Err(Rejection::NoBlock));
    assert_eq!(Rejection::NoBlock.reason(), "failed to decode guesses");
}

#[test]
fn geo_scan_wants_a_direction_on_every_line() {
    let text = format!(
        "x{}\n{}\u{27A1}\u{FE0F}\n{}\u{1F389}\n{}",
        squares("bb"),
        squares("by"),
        squares("gg"),
        squares("bb"),
    );
    let blocks = scan(&text, Variant::Geo).unwrap();
    assert_eq!(blocks.len(), 1);
    assert_eq!(blocks[0].head, format!("x{}\n", squares("bb")));
    assert_eq!(
        blocks[0].matched,
        format!("{}\u{27A1}\u{FE0F}\n{}\u{1F389}", squares("by"), squares("gg"))
    );
    assert_eq!(blocks[0].tail, format!("\n{}", squares("bb")));
}

#[test]
fn globle_scan_takes_white_space_along() {
    let text = format!("go {}\n{} \t{}  end", squares("r"), squares("y"), squares("g"));
    let blocks = scan(&text, Variant::Globle).unwrap();
    assert_eq!(blocks[0].head, "go ");
    assert_eq!(blocks[0].matched, format!("{}\n{} \t{}  ", squares("r"), squares("y"), squares("g")));
    assert_eq!(blocks[0].tail, "end");
}

#[test]
fn audio_scan_stops_at_a_line_break() {
    let text = format!("{}\u{FE0F}{}\n{}", squares("r"), squares("b"), squares("g"));
    let blocks = scan(&text, Variant::Audio).unwrap();
    assert_eq!(blocks[0].matched, format!("{}\u{FE0F}{}", squares("r"), squares("b")));
    assert_eq!(blocks[0].tail, format!("\n{}", squares("g")));
}

#[test]
fn grid_scan_finds_rows_of_four_groups() {
    let row1 = grid_row([Some("12"), None, Some("09"), Some("11")]);
    let row2 = grid_row([Some("01"), Some("02"), Some("03"), Some("04")]);
    let broken = format!("{} {}", keycap('1'), keycap('2'));
    let text = format!("Daily #5\n{}\n{}\n{}\nbye", row1, row2, broken);
    let blocks = scan(&text, Variant::Wordle32).unwrap();
    assert_eq!(blocks.len(), 1);
    assert_eq!(blocks[0].head, "Daily #5\n");
    assert_eq!(blocks[0].matched, format!("{}\n{}", row1, row2));
    assert_eq!(blocks[0].tail, format!("\n{}\nbye", broken));
}

#[test]
fn standard_win_counts_to_the_first_winning_line() {
    let outcome = assemble(&block_of(&squares("bb\ngg\nyy\ngg")), Variant::Standard).unwrap();
    assert_eq!(outcome.pattern, "WW\nCC\nMM\nCC");
    assert!(outcome.victory);
    assert_eq!(outcome.attempts, Some(2));
    assert_eq!(outcome.expected_line_count, Some(2));
}

#[test]
fn standard_loss_expects_one_line_more() {
    let outcome = assemble(&block_of(&squares("bb\nyg\nwr")), Variant::Standard).unwrap();
    assert_eq!(outcome.pattern, "WW\nMC\nWM");
    assert!(!outcome.victory);
    assert_eq!(outcome.attempts, None);
    assert_eq!(outcome.expected_line_count, Some(4));
}

#[test]
fn geo_win_is_read_off_the_last_line() {
    let matched = format!("{}\u{2197}\u{FE0F}\n{}\u{1F389}", squares("bby"), squares("ggg"));
    let outcome = assemble(&block_of(&matched), Variant::Geo).unwrap();
    assert_eq!(outcome.pattern, "WWM\u{2197}\nCCC\u{1F389}");
    assert!(outcome.victory);
    assert_eq!(outcome.attempts, Some(2));
    assert_eq!(outcome.expected_line_count, Some(2));
}

#[test]
fn geo_loss_expects_one_line_more() {
    let matched = format!("{}\u{2B05}\n{}\u{2B06}\u{FE0F}", squares("ggg"), squares("ggy"));
    let outcome = assemble(&block_of(&matched), Variant::Geo).unwrap();
    assert_eq!(outcome.pattern, "CCC\u{2B05}\nCCM\u{2B06}");
    assert!(!outcome.victory);
    assert_eq!(outcome.attempts, None);
    assert_eq!(outcome.expected_line_count, Some(3));
}

#[test]
fn audio_run_ends_with_the_win() {
    let matched = squares("rbbgww");
    let outcome = assemble(&block_of(&matched), Variant::Audio).unwrap();
    assert_eq!(outcome.pattern, "M\nW\nW\nC");
    assert!(outcome.victory);
    assert_eq!(outcome.attempts, Some(4));
    assert_eq!(outcome.expected_line_count, Some(4));
    let record = decode_submission(
        &format!("#Heardle #12\n\n\u{1F50A}{}\n\nhttps://example.org", matched),
        "one\ntwo\nthree\nfour",
        Variant::Audio,
    ).unwrap();
    assert_eq!(record.pattern, "M\nW\nW\nC");
    assert_eq!(record.pattern.lines().count(), 4);
    assert_eq!(record.attempts, Some(4));
    assert_eq!(record.raw_pattern, matched);
    assert_eq!(record.head, "#Heardle #12\n\n\u{1F50A}");
    assert_eq!(record.tail, "\n\nhttps://example.org");
}

#[test]
fn audio_loss_expects_one_line_more() {
    let outcome = assemble(&block_of(&squares("r\u{FE0F}br")), Variant::Audio).unwrap();
    assert_eq!(outcome.pattern, "M\nW\nM");
    assert!(!outcome.victory);
    assert_eq!(outcome.attempts, None);
    assert_eq!(outcome.expected_line_count, Some(4));
}

#[test]
fn globle_leaves_out_what_its_table_does_not_hold() {
    let outcome = assemble(&block_of(&squares("rb\n y g")), Variant::Globle).unwrap();
    assert_eq!(outcome.pattern, "1\n3\nC");
    assert!(outcome.victory);
    assert_eq!(outcome.attempts, Some(3));
    let only_unknown = assemble(&block_of(&squares("bb")), Variant::Globle).unwrap();
    assert_eq!(only_unknown.pattern, "");
    assert!(!only_unknown.victory);
    assert_eq!(only_unknown.expected_line_count, Some(1));
}

#[test]
fn globlec_ranks_the_other_way_round() {
    let blue_purple = "\u{1F7E6}\u{1F7EA}";
    let outcome = assemble(&block_of(&format!("{}{}{}", squares("bgy"), blue_purple, RED)), Variant::Globlec)
        .unwrap();
    assert_eq!(outcome.pattern, "W\n3\n2\n4\n5\nC");
    assert_eq!(outcome.attempts, Some(6));
}

#[test]
fn stray_glyph_in_a_line_is_left_out() {
    let matched = format!("{}\u{1F600}{}\n{}", squares("b"), squares("g"), squares("gg"));
    let outcome = assemble(&block_of(&matched), Variant::Standard).unwrap();
    assert_eq!(outcome.pattern, "WC\nCC");
    assert_eq!(outcome.attempts, Some(2));
    let without = assemble(&block_of(&squares("bg\ngg")), Variant::Standard).unwrap();
    assert_eq!(outcome, without);
}

#[test]
fn grid_pattern_keeps_digits_and_marks_lost_boards() {
    let row1 = grid_row([Some("12"), None, Some("09"), Some("11")]);
    let row2 = grid_row([Some("01"), Some("02"), None, Some("04")]);
    let outcome = assemble(&block_of(&format!("{}\n{}", row1, row2)), Variant::Wordle32).unwrap();
    assert_eq!(outcome.pattern, "12 XX 09 11\n01 02 XX 04");
    assert!(!outcome.victory);
    assert_eq!(outcome.attempts, None);
    assert_eq!(outcome.expected_line_count, None);
}

#[test]
fn grid_rejects_a_glyph_outside_its_grammar() {
    let row = grid_row([Some("12"), Some("13"), Some("09"), Some("11")]);
    let rejected = assemble(&block_of(&format!("{}x", row)), Variant::Wordle32).unwrap_err();
    assert_eq!(rejected, Rejection::UnknownGlyph { glyph: 'x' });
    assert_eq!(rejected.reason(), "unknown result character x (U+0078)");
    let astral = assemble(&block_of(&format!("\u{1F600}{}", row)), Variant::Wordle32).unwrap_err();
    assert_eq!(astral, Rejection::UnknownGlyph { glyph: '\u{1F600}' });
    assert_eq!(astral.reason(), "unknown result character \u{1F600} (U+1F600)");
    let two = assemble(&block_of("1\u{E9}\u{2B1B}"), Variant::Wordle32).unwrap_err();
    assert_eq!(two.reason(), "unknown result character \u{E9} (U+00E9)");
}

#[test]
fn grid_with_carriage_returns_is_rejected_unless_they_are_stripped() {
    let row = grid_row([Some("12"), Some("13"), Some("09"), Some("11")]);
    let text = format!("{}\r\n{}", row, row);
    let blocks = scan(&text, Variant::Wordle32).unwrap();
    assert_eq!(blocks[0].matched, text);
    assert_eq!(
        assemble(&blocks[0], Variant::Wordle32),
        Err(Rejection::UnknownGlyph { glyph: '\r' })
    );
    let record = decode_submission(&text, "a\r\nb", Variant::Wordle32).unwrap();
    assert_eq!(record.pattern, "12 13 09 11\n12 13 09 11");
    assert_eq!(record.solution, "a\nb");
    assert_eq!(record.attempts, Some(2));
}

#[test]
fn won_grid_is_held_to_its_rows() {
    let row = grid_row([Some("12"), Some("13"), Some("09"), Some("11")]);
    let text = vec![row.as_str(); 6].join("\n");
    let record = decode_submission(&text, "a\nb\nc\nd\ne\nf\n", Variant::Wordle32).unwrap();
    assert_eq!(record.attempts, Some(6));
    assert_eq!(record.expected_solution_line_count, Some(6));
    assert_eq!(record.solution, "a\nb\nc\nd\ne\nf");
    let rejected = decode_submission(&text, "a\nb\nc\nd\ne", Variant::Wordle32).unwrap_err();
    assert_eq!(rejected, Rejection::LineCount { expected: 6, obtained: 5, per_block: vec![] });
    assert_eq!(rejected.reason(), "expected 6, obtained 5 solution lines");
    assert!(decode_submission(&text, "a\nb\nc\nd\ne\nf\ng", Variant::Wordle32).is_err());
}

#[test]
fn lost_grid_has_no_attempts_whatever_the_transcript() {
    let won = grid_row([Some("12"), Some("13"), Some("09"), Some("11")]);
    let lost = grid_row([Some("12"), None, Some("09"), Some("11")]);
    let text = format!("{}\n{}\n{}\n{}\n{}\n{}", won, won, won, lost, won, won);
    for solution in ["a\nb\nc\nd\ne\nf", "a", "a\nb\nc\nd\ne\nf\ng\nh"] {
        let record = decode_submission(&text, solution, Variant::Wordle32).unwrap();
        assert_eq!(record.attempts, None);
        assert_eq!(record.expected_solution_line_count, None);
        assert_eq!(record.solution, solution);
    }
}

#[test]
fn two_won_blocks_take_the_greater_count() {
    let first = squares("bb\ngg\nbb");
    let second = squares("bb\nyy\ngg");
    let text = format!("{}\n\n{}", first, second);
    let record = decode_submission(&text, "one\ntwo\nthree", Variant::Standard).unwrap();
    assert_eq!(record.attempts, Some(3));
    assert_eq!(record.expected_solution_line_count, Some(3));
    assert_eq!(record.pattern, "WW\nCC\nWW\n\nWW\nMM\nCC");
    assert_eq!(record.raw_pattern, format!("{}\n\n{}", first, second));
    assert_eq!(record.head, "");
    assert_eq!(record.tail, "");
    assert_eq!(record.solution, "one\ntwo\nthree");
}

#[test]
fn one_lost_block_takes_the_attempts_away() {
    let won = squares("bb\ngg\nbb\nyy");
    let lost = squares("bb\nyy\nbg\ngb");
    let text = format!("first: {}\nsecond: {} done", won, lost);
    let record = decode_submission(&text, "a\nb\nc\nd\ne", Variant::Standard).unwrap();
    assert_eq!(record.attempts, None);
    assert_eq!(record.expected_solution_line_count, Some(5));
    assert_eq!(record.head, "first: ");
    assert_eq!(record.tail, " done");
    assert_eq!(record.pattern, "WW\nCC\nWW\nMM\n\nWW\nMM\nWC\nCW");
    let rejected = decode_submission(&text, "a\nb\nc\nd", Variant::Standard).unwrap_err();
    assert_eq!(rejected, Rejection::LineCount { expected: 5, obtained: 4, per_block: vec![2, 4] });
    assert_eq!(
        rejected.reason(),
        "expected 5, obtained 4 solution lines; guess lines per puzzle: 2, 4"
    );
}

#[test]
fn two_lost_blocks_add_a_line_each() {
    let text = format!("{} {}", squares("bb\nyy"), squares("bb\nyy\nbg"));
    let record = decode_submission(&text, "a\nb\nc\nd\ne", Variant::Standard).unwrap();
    assert_eq!(record.attempts, None);
    assert_eq!(record.expected_solution_line_count, Some(5));
}

#[test]
fn merge_of_one_outcome_is_that_outcome() {
    let outcome = assemble(&block_of(&squares("bb\nyg\nwr")), Variant::Standard).unwrap();
    assert_eq!(merge(&vec![outcome.clone()]), outcome);
    let grid = assemble(&block_of(&grid_row([None, None, None, None])), Variant::Wordle32).unwrap();
    assert_eq!(merge(&vec![grid.clone()]), grid);
}

#[test]
fn merge_joins_patterns_with_an_empty_line() {
    let won = DecodedOutcome {
        pattern: "WW\nCC".to_string(),
        victory: true,
        attempts: Some(2),
        expected_line_count: Some(2),
    };
    let later = DecodedOutcome {
        pattern: "WW\nMM\nWW\nCC".to_string(),
        victory: true,
        attempts: Some(4),
        expected_line_count: Some(4),
    };
    let lost = DecodedOutcome {
        pattern: "WW\nMM\nMW".to_string(),
        victory: false,
        attempts: None,
        expected_line_count: Some(4),
    };
    let all_won = merge(&vec![won.clone(), later.clone()]);
    assert_eq!(all_won.pattern, "WW\nCC\n\nWW\nMM\nWW\nCC");
    assert!(all_won.victory);
    assert_eq!(all_won.attempts, Some(4));
    assert_eq!(all_won.expected_line_count, Some(4));
    let mixed = merge(&vec![won, lost.clone(), later, lost]);
    assert!(!mixed.victory);
    assert_eq!(mixed.attempts, None);
    assert_eq!(mixed.expected_line_count, Some(6));
    let none = merge(&vec![]);
    assert_eq!(none.pattern, "");
    assert_eq!(none.expected_line_count, Some(0));
}

#[test]
fn validate_trims_the_transcript() {
    let block = ResultBlock {
        head: "before ".to_string(),
        matched: squares("bb\ngg"),
        tail: " after".to_string(),
    };
    let outcome = assemble(&block, Variant::Standard).unwrap();
    let record = validate(&vec![block.clone()], &vec![outcome.clone()], "  \n crane\nslate \n\n").unwrap();
    assert_eq!(
        record,
        PuzzleData::new(
            "before ".to_string(),
            squares("bb\ngg"),
            " after".to_string(),
            "WW\nCC".to_string(),
            "crane\nslate".to_string(),
            Some(2),
            Some(2),
        )
    );
    let rejected = validate(&vec![block], &vec![outcome.clone()], "crane").unwrap_err();
    assert_eq!(rejected, Rejection::LineCount { expected: 2, obtained: 1, per_block: vec![] });
    assert_eq!(validate(&vec![], &vec![outcome], "crane\nslate"), Err(Rejection::NoBlock));
}

#[test]
fn empty_transcript_is_one_line() {
    let text = squares("gg");
    let record = decode_submission(&text, "", Variant::Standard).unwrap();
    assert_eq!(record.solution, "");
    assert_eq!(record.attempts, Some(1));
    let blank = decode_submission(&text, " \n\t\n ", Variant::Standard).unwrap();
    assert_eq!(blank.solution, "");
}

#[test]
fn carriage_returns_count_for_nothing() {
    let text = format!("hi\r\n{}\r\n{}\r\nbye", squares("bb"), squares("gg"));
    let record = decode_submission(&text, "crane\r\nslate\r\n", Variant::Standard).unwrap();
    assert_eq!(record.head, "hi\n");
    assert_eq!(record.raw_pattern, squares("bb\ngg"));
    assert_eq!(record.tail, "\nbye");
    assert_eq!(record.pattern, "WW\nCC");
    assert_eq!(record.solution, "crane\nslate");
    assert_eq!(record.attempts, Some(2));
}

#[test]
fn submission_without_a_block_is_rejected() {
    assert_eq!(decode_submission("nothing", "crane", Variant::Standard), Err(Rejection::NoBlock));
    assert_eq!(decode_submission(&squares("bg"), "crane", Variant::Geo), Err(Rejection::NoBlock));
}

#[test]
fn decoding_twice_gives_the_same() {
    let text = format!("x {} y {} z", squares("bb\nyg"), squares("gg"));
    for variant in [Variant::Standard, Variant::Audio, Variant::Globle, Variant::Globlec] {
        for solution in ["a", "a\nb", "a\nb\nc", "a\nb\nc\nd"] {
            assert_eq!(
                decode_submission(&text, solution, variant),
                decode_submission(&text, solution, variant)
            );
        }
    }
}

#[test]
fn line_count_message_holds_large_numbers() {
    let rejected = Rejection::LineCount { expected: 120, obtained: 0, per_block: vec![10, 7, 120] };
    assert_eq!(
        rejected.reason(),
        "expected 120, obtained 0 solution lines; guess lines per puzzle: 10, 7, 120"
    );
}

#[test]
fn texts_in_memory_are_short_enough() {
    assert!(short(""));
    assert!(short("a\nb"));
    let text = squares("bb\ngg");
    assert_eq!(
        try_decode_submission(&text, "crane\nslate", Variant::Standard),
        Some(decode_submission(&text, "crane\nslate", Variant::Standard))
    );
    assert_eq!(try_decode_submission("none", "", Variant::Geo), Some(Err(Rejection::NoBlock)));
}

use wordle_archive::assemble::assemble;
use wordle_archive::escape::jsstring;
use wordle_archive::glyph::Variant;
use wordle_archive::legacy::{legacy_attempts, legacy_victory};
use wordle_archive::pacing::{count_marked, make_wrong_solution_manager, WrongSolutionManager};
use wordle_archive::parts::sub_puzzles_of;
use wordle_archive::render::{puzzle_string, render};
use wordle_archive::scan::scan;

const GREEN: char = '\u{1F7E9}';
const YELLOW: char = '\u{1F7E8}';
const PURPLE: char = '\u{1F7EA}';
const WHITE: char = '\u{2B1C}';

fn texts(lines: &[&str]) -> Vec<String> {
    lines.iter().map(|l| l.to_string()).collect()
}

#[test]
fn render_maps_the_three_verdicts() {
    assert_eq!(
        render("WMC\nCCC", "wordle", Variant::Standard),
        format!("{}{}{}\n{}{}{}", WHITE, YELLOW, GREEN, GREEN, GREEN, GREEN)
    );
    assert_eq!(render("", "wordle", Variant::Standard), "");
}

#[test]
fn render_uses_purple_for_nerdle_only() {
    assert_eq!(render("M", "nerdle", Variant::Standard), PURPLE.to_string());
    assert_eq!(render("M", "Nerdle", Variant::Standard), YELLOW.to_string());
    assert_eq!(render("M", "", Variant::Standard), YELLOW.to_string());
    assert_eq!(render("M", "nerdle", Variant::Audio), PURPLE.to_string());
}

#[test]
fn render_keeps_direction_glyphs_of_geo_only() {
    assert_eq!(
        render("WC\u{27A1}\nCC\u{1F389}", "x", Variant::Geo),
        format!("{}{}\u{27A1}\u{FE0F}\n{}{}\u{1F389}\u{FE0F}", WHITE, GREEN, GREEN, GREEN)
    );
    assert_eq!(render("WC\u{27A1}", "x", Variant::Standard), format!("{}{}", WHITE, GREEN));
    assert_eq!(render("1X5C", "x", Variant::Geo), GREEN.to_string());
    assert_eq!(render("12 XX", "x", Variant::Wordle32), "");
}

#[test]
fn render_of_audio_is_one_row() {
    assert_eq!(render("M\nW\nC", "x", Variant::Audio), format!("{}{}{}", YELLOW, WHITE, GREEN));
    assert_eq!(
        render("M\nW\nC", "x", Variant::Standard),
        format!("{}\n{}\n{}", YELLOW, WHITE, GREEN)
    );
}

#[test]
fn puzzle_string_prefers_what_was_submitted() {
    let raw = "\u{2B1B}\u{1F7E6}".to_string();
    assert_eq!(
        puzzle_string("head ", Some(&raw), " tail", "WC", "nerdle", Variant::Standard),
        format!("head {} tail", raw)
    );
    assert_eq!(
        puzzle_string("head ", None, " tail", "WC", "nerdle", Variant::Standard),
        format!("head {}{} tail", WHITE, GREEN)
    );
}

#[test]
fn rendered_pattern_decodes_to_itself() {
    let cases = [
        (Variant::Standard, "\u{2B1B}\u{1F7E7}\r\n\u{1F7E6}\u{1F7E9}\n\u{1F7EB}\u{2B1C}"),
        (Variant::Geo, "\u{2B1B}\u{1F7E7}\u{2196}\u{FE0F}\n\u{1F7E6}\u{1F7E9}\u{1F389}"),
        (Variant::Audio, "\u{1F7E5}\u{FE0F}\u{2B1B}\u{1F7E6}\u{2B1C}"),
    ];
    for (variant, text) in cases {
        for css_class in ["nerdle", "wordle"] {
            let blocks = scan(text, variant).unwrap();
            assert_eq!(blocks.len(), 1);
            let outcome = assemble(&blocks[0], variant).unwrap();
            let glyphs = render(&outcome.pattern, css_class, variant);
            let again = scan(&glyphs, variant).unwrap();
            assert_eq!(again.len(), 1);
            assert_eq!(again[0].head, "");
            assert_eq!(again[0].matched, glyphs);
            assert_eq!(again[0].tail, "");
            assert_eq!(assemble(&again[0], variant).unwrap(), outcome);
        }
    }
}

#[test]
fn rendered_globle_pattern_does_not_decode_to_itself() {
    let blocks = scan("\u{1F7E5}\u{1F7E9}", Variant::Globle).unwrap();
    let outcome = assemble(&blocks[0], Variant::Globle).unwrap();
    assert_eq!(outcome.pattern, "1\nC");
    let glyphs = render(&outcome.pattern, "x", Variant::Globle);
    assert_eq!(glyphs, format!("\n{}", GREEN));
    let again = scan(&glyphs, Variant::Globle).unwrap();
    assert_eq!(assemble(&again[0], Variant::Globle).unwrap().pattern, "C");
}

#[test]
fn legacy_attempts_count_the_lines_of_a_won_pattern() {
    assert_eq!(legacy_attempts("WWMWW\nMMCWW\nCCCCC"), Some(3));
    assert_eq!(legacy_attempts("CCCCC"), Some(1));
    assert_eq!(legacy_attempts("CCCCC\nWWMWW"), None);
    assert_eq!(legacy_attempts("WWMWW\nMCCCC"), None);
    assert!(legacy_victory("WW\nCC"));
    assert!(!legacy_victory("CC\nWC"));
}

#[test]
fn manager_hands_out_positions_behind_the_guesses() {
    let mut manager = WrongSolutionManager::new(3);
    assert_eq!(manager.correct_indexes(), 0..3);
    assert_eq!(manager.advance(), 3);
    assert_eq!(manager.advance(), 4);
    assert_eq!(manager.advance(), 5);
    assert_eq!(manager.correct_indexes(), 0..3);
    let mut empty = WrongSolutionManager::new(0);
    assert_eq!(empty.correct_indexes(), 0..0);
    assert_eq!(empty.advance(), 0);
}

#[test]
fn marked_lines_are_taken_off_the_guesses() {
    let lines = texts(&["12 XX 09 11", "01 02 03 04", "XX XX 05 06", "07 08 10 XX"]);
    assert_eq!(count_marked(&lines), 3);
    let mut manager = make_wrong_solution_manager(&lines, 35);
    assert_eq!(manager.correct_indexes(), 0..32);
    assert_eq!(manager.advance(), 32);
}

#[test]
fn marker_must_be_a_whole_chunk() {
    assert_eq!(count_marked(&texts(&["XXX 01", "X X", "1XX", "XX1", "", " ", "X"])), 0);
    assert_eq!(count_marked(&texts(&["XX", " XX", "XX ", "a  XX  b", "XXX XX"])), 5);
    assert_eq!(count_marked(&texts(&[])), 0);
}

#[test]
fn record_is_taken_apart_by_blocks() {
    let parts = sub_puzzles_of("WW\nCC\nMM\n\nMW\nWW", "crane\nslate\nabout\nfirst\nother");
    assert_eq!(parts.len(), 2);
    assert_eq!(parts[0].pattern_lines, texts(&["WW", "CC", "MM"]));
    assert_eq!(parts[1].pattern_lines, texts(&["MW", "WW"]));
    for part in &parts {
        assert_eq!(part.solution_lines, texts(&["crane", "slate", "about", "first", "other"]));
    }
    assert_eq!(
        parts[0].guess_lines,
        vec![
            ("WW".to_string(), "crane".to_string()),
            ("CC".to_string(), "slate".to_string()),
            ("MM".to_string(), "about".to_string()),
        ]
    );
    assert_eq!(parts[1].guess_lines.len(), 2);
    assert_eq!(parts[0].solution, "first");
    assert_eq!(parts[1].solution, "other");
    assert!(parts[0].victory);
    assert!(!parts[1].victory);
}

#[test]
fn record_parts_split_as_the_standard_library_splits() {
    for pattern in ["", "W", "W\n\nC", "W\n\n\nC", "\n\n", "\n\n\n\n", "W\n\n", "\n\nW", "W\nC\n\n\n\nM\n"] {
        let expected: Vec<&str> = pattern.split("\n\n").collect();
        let parts = sub_puzzles_of(pattern, "a\nb\nc\nd\ne\nf");
        assert_eq!(parts.len(), expected.len());
        for (part, block) in parts.iter().zip(expected.iter()) {
            let lines: Vec<String> = block.split('\n').map(|l| l.to_string()).collect();
            assert_eq!(part.pattern_lines, lines);
        }
    }
}

#[test]
fn part_with_digits_is_won_only_without_a_rank() {
    let parts = sub_puzzles_of("1\n2\nC", "a\nb\nc");
    assert!(parts[0].victory);
    let lost = sub_puzzles_of("1\n2\n3", "a\nb\nc\nd");
    assert!(!lost[0].victory);
    assert_eq!(lost[0].solution, "d");
}

#[test]
fn jsstring_escapes_what_a_script_or_markup_would_misread() {
    assert_eq!(jsstring(""), "\"\"");
    assert_eq!(jsstring("plain text ~"), "\"plain text ~\"");
    assert_eq!(jsstring("a\"b\\c"), "\"a\\\"b\\\\c\"");
    assert_eq!(jsstring("\u{08}\t\n\u{0B}\u{0C}\r"), "\"\\b\\t\\n\\v\\f\\r\"");
    assert_eq!(jsstring("<a & b>"), "\"\\u003Ca \\u0026 b\\u003E\"");
    assert_eq!(jsstring("\u{0}\u{1F}\u{7F}"), "\"\\u0000\\u001F\\u007F\"");
    assert_eq!(jsstring("\u{E9}\u{2B1B}\u{FFFF}"), "\"\\u00E9\\u2B1B\\uFFFF\"");
    assert_eq!(jsstring("\u{1F7E9}"), "\"\\uD83D\\uDFE9\"");
    assert_eq!(jsstring("\u{10000}\u{10FFFF}"), "\"\\uD800\\uDC00\\uDBFF\\uDFFF\"");
}

#[test]
fn jsstring_writes_every_code_unit_as_the_standard_library_encodes_it() {
    for code in (0x80u32..0x110000).step_by(97) {
        if let Some(c) = char::from_u32(code) {
            let mut units = [0u16; 2];
            let mut expected = String::from("\"");
            for unit in c.encode_utf16(&mut units) {
                expected.push_str(&format!("\\u{:04X}", unit));
            }
            expected.push('"');
            assert_eq!(jsstring(&c.to_string()), expected);
        }
    }
}

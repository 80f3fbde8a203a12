use regex::Regex;
use wordle_archive::glyph::Variant;
use wordle_archive::scan::{find_block, scan};
use wordle_archive::text::chars_of;

const SQUARES: &str = "[\u{2B1B}\u{2B1C}\u{1F7E5}-\u{1F7EB}]";
const ARROWS: &str = "[\u{27A1}\u{2B05}-\u{2B07}\u{2196}-\u{2199}\u{1F389}]";
const GROUP: &str = "(?:[0-9]\u{FE0F}\u{20E3}[0-9]\u{FE0F}\u{20E3}|\u{1F7E5}\u{1F7E5})";

/// The grammar of a family as a regular expression.
fn expression(variant: Variant) -> Regex {
    let pattern = match variant {
        Variant::Standard => format!("{s}+(?:\r?\n{s}+)*", s = SQUARES),
        Variant::Geo => format!(
            "{s}+{a}\u{FE0F}?(?:\r?\n{s}+{a}\u{FE0F}?)*",
            s = SQUARES,
            a = ARROWS
        ),
        Variant::Audio => format!("(?:{s}\u{FE0F}?)+", s = SQUARES),
        Variant::Globle | Variant::Globlec => format!("(?:{s}\\s*)+", s = SQUARES),
        Variant::Wordle32 => format!("{g}(?:[ ]{g}){{3}}(?:\r?\n{g}(?:[ ]{g}){{3}})*", g = GROUP),
    };
    Regex::new(&pattern).unwrap()
}

/// Texts over a small alphabet that holds what the grammars tell apart.
fn samples() -> Vec<String> {
    let alphabet = [
        "\u{2B1B}", "\u{1F7E5}", "\u{1F7E9}", "\n", "\r", " ", "\u{FE0F}", "\u{27A1}", "\u{1F389}",
        "x", "1\u{FE0F}\u{20E3}", "\u{1F7E5}\u{1F7E5}", "\u{A0}",
    ];
    let mut texts = vec![String::new()];
    let mut state: u64 = 0x2545F4914F6CDD1D;
    for _ in 0..3000 {
        let mut text = String::new();
        state ^= state << 13;
        state ^= state >> 7;
        state ^= state << 17;
        let len = 1 + (state % 14) as usize;
        for _ in 0..len {
            state ^= state << 13;
            state ^= state >> 7;
            state ^= state << 17;
            text.push_str(alphabet[(state % alphabet.len() as u64) as usize]);
        }
        texts.push(text);
    }
    let row = "1\u{FE0F}\u{20E3}2\u{FE0F}\u{20E3} \u{1F7E5}\u{1F7E5} 0\u{FE0F}\u{20E3}9\u{FE0F}\u{20E3} 1\u{FE0F}\u{20E3}1\u{FE0F}\u{20E3}";
    texts.push(format!("x{}\n{}\r\n{}\n\n{}", row, row, row, row));
    texts.push(format!("{} {}", row, row));
    texts.push(format!("{}\n{}1", row, row));
    texts
}

fn all_variants() -> [Variant; 6] {
    [
        Variant::Standard,
        Variant::Geo,
        Variant::Audio,
        Variant::Globle,
        Variant::Globlec,
        Variant::Wordle32,
    ]
}

#[test]
fn first_block_is_the_first_match_of_the_expression() {
    for variant in all_variants() {
        let expression = expression(variant);
        for text in samples() {
            let chars = chars_of(&text);
            let found = find_block(&chars, variant, 0).map(|(start, end)| {
                let from: usize = chars[..start].iter().map(|c| c.len_utf8()).sum();
                let len: usize = chars[start..end].iter().map(|c| c.len_utf8()).sum();
                (from, from + len)
            });
            let expected = expression.find(&text).map(|m| (m.start(), m.end()));
            assert_eq!(found, expected, "{:?} in {:?}", variant, text);
        }
    }
}

#[test]
fn blocks_are_the_matches_of_the_expression() {
    for variant in all_variants() {
        let expression = expression(variant);
        for text in samples() {
            let expected: Vec<(String, String, String)> = expression
                .find_iter(&text)
                .map(|m| {
                    (text[..m.start()].to_string(), m.as_str().to_string(), text[m.end()..].to_string())
                })
                .take(if variant == Variant::Standard { usize::MAX } else { 1 })
                .collect();
            let found: Vec<(String, String, String)> = match scan(&text, variant) {
                Ok(blocks) => blocks.into_iter().map(|b| (b.head, b.matched, b.tail)).collect(),
                Err(_) => Vec::new(),
            };
            assert_eq!(found, expected, "{:?} in {:?}", variant, text);
        }
    }
}

#[test]
fn search_from_a_later_position_passes_over_earlier_blocks() {
    let text = "\u{2B1B}\u{1F7E9} x \u{1F7E9}\u{1F7E9}\n\u{2B1B}";
    let chars = chars_of(text);
    assert_eq!(find_block(&chars, Variant::Standard, 0), Some((0, 2)));
    assert_eq!(find_block(&chars, Variant::Standard, 1), Some((1, 2)));
    assert_eq!(find_block(&chars, Variant::Standard, 2), Some((5, 9)));
    assert_eq!(find_block(&chars, Variant::Standard, 9), None);
}

//! The display renderer: makes a block of glyphs from a stored pattern, for
//! records that did not keep the text as it was submitted.

use vstd::prelude::*;
use vstd::string::StringExecFns;
use crate::glyph::{is_verdict, Variant, GREEN, PURPLE, SELECTOR, WHITE, YELLOW};
use crate::text::{chars_of, str_equals};

verus! {

/// The glyphs that stand for one character of a pattern.
///
/// `C` is the green square, `W` the white one, and `M` the yellow one, or
/// the purple one on a site that asks for it. A line feed stays, but not in
/// the audio family, whose blocks are one unbroken row. In the geo family a
/// character that is no verdict is a direction glyph: it stays, with the
/// selector behind it. Everything else has no glyph.
pub open spec fn glyphs_of(c: char, purple: bool, variant: Variant) -> Seq<char> {
    if c == 'C' {
        seq![GREEN]
    } else if c == 'M' {
        seq![if purple { PURPLE } else { YELLOW }]
    } else if c == 'W' {
        seq![WHITE]
    } else if c == '\n' {
        if variant == Variant::Audio {
            Seq::empty()
        } else {
            seq!['\n']
        }
    } else if variant == Variant::Geo && !is_verdict(c) {
        seq![c, SELECTOR]
    } else {
        Seq::empty()
    }
}

/// The block of glyphs that stands for `pattern`.
pub open spec fn rendered(pattern: Seq<char>, purple: bool, variant: Variant) -> Seq<char>
    decreases pattern.len(),
{
    if pattern.len() == 0 {
        Seq::empty()
    } else {
        rendered(pattern.drop_last(), purple, variant) + glyphs_of(pattern.last(), purple, variant)
    }
}

/// Whether a site with the style class `css_class` shows a misplaced guess
/// as a purple square.
pub open spec fn wants_purple(css_class: Seq<char>) -> bool {
    css_class == "nerdle"@
}

/// Appends the glyphs of `pattern` to `out`.
fn push_rendered(out: &mut String, pattern: &Vec<char>, purple: bool, variant: Variant)
    ensures
        final(out)@ == old(out)@ + rendered(pattern@, purple, variant),
{
    let ghost start = out@;
    let geo = match variant {
        Variant::Geo => true,
        _ => false,
    };
    let audio = match variant {
        Variant::Audio => true,
        _ => false,
    };
    let mut i: usize = 0;
    proof {
        assert(pattern@.take(0) == Seq::<char>::empty());
        assert(start + Seq::<char>::empty() == start);
    }
    while i < pattern.len()
        invariant
            i <= pattern.len(),
            geo == (variant == Variant::Geo),
            audio == (variant == Variant::Audio),
            out@ == start + rendered(pattern@.take(i as int), purple, variant),
        decreases pattern.len() - i,
    {
        let ghost before = rendered(pattern@.take(i as int), purple, variant);
        let c = pattern[i];
        proof {
            assert(pattern@.take(i + 1).drop_last() == pattern@.take(i as int));
            assert(pattern@.take(i + 1).last() == c);
        }
        if c == 'C' {
            out.push(GREEN);
            assert(out@ == start + (before + seq![GREEN]));
        } else if c == 'M' {
            let glyph = if purple {
                PURPLE
            } else {
                YELLOW
            };
            out.push(glyph);
            assert(out@ == start + (before + seq![glyph]));
        } else if c == 'W' {
            out.push(WHITE);
            assert(out@ == start + (before + seq![WHITE]));
        } else if c == '\n' {
            if !audio {
                out.push('\n');
                assert(out@ == start + (before + seq!['\n']));
            } else {
                assert(before + Seq::<char>::empty() == before);
            }
        } else if geo && !(('1' <= c && c <= '5') || c == 'X') {
            out.push(c);
            out.push(SELECTOR);
            assert(out@ == start + (before + seq![c, SELECTOR]));
        } else {
            assert(before + Seq::<char>::empty() == before);
        }
        i += 1;
    }
    assert(pattern@.take(pattern.len() as int) == pattern@);
}

/// Makes a block of glyphs from a stored pattern, for a site with the style
/// class `css_class` and of the family `variant`.
pub fn render(pattern: &str, css_class: &str, variant: Variant) -> (block: String)
    ensures
        block@ == rendered(pattern@, wants_purple(css_class@), variant),
{
    let chars = chars_of(pattern);
    let purple = str_equals(css_class, "nerdle");
    let mut block = String::new();
    push_rendered(&mut block, &chars, purple, variant);
    assert(Seq::<char>::empty() + rendered(pattern@, purple, variant) == rendered(
        pattern@,
        purple,
        variant,
    ));
    block
}

/// What is shown of a record: between its head and its tail the block as it
/// was submitted, or, where that was not kept, the block that stands for the
/// pattern.
pub open spec fn shown(
    head: Seq<char>,
    raw_pattern: Option<Seq<char>>,
    tail: Seq<char>,
    pattern: Seq<char>,
    purple: bool,
    variant: Variant,
) -> Seq<char> {
    match raw_pattern {
        Some(raw) => head + raw + tail,
        None => head + rendered(pattern, purple, variant) + tail,
    }
}

/// The text of a record as it is shown again.
pub fn puzzle_string(
    head: &str,
    raw_pattern: Option<&String>,
    tail: &str,
    pattern: &str,
    css_class: &str,
    variant: Variant,
) -> (text: String)
    ensures
        text@ == shown(
            head@,
            match raw_pattern {
                Some(raw) => Some(raw@),
                None => None,
            },
            tail@,
            pattern@,
            wants_purple(css_class@),
            variant,
        ),
{
    let mut text = String::new();
    text.append(head);
    assert(text@ == head@);
    match raw_pattern {
        Some(raw) => {
            text.append(raw.as_str());
        },
        None => {
            let chars = chars_of(pattern);
            let purple = str_equals(css_class, "nerdle");
            push_rendered(&mut text, &chars, purple, variant);
        },
    }
    text.append(tail);
    text
}

} // verus!

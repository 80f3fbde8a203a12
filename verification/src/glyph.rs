//! Glyph alphabets of the puzzle families and the per-glyph decoder.
//!
//! A result block is made of coloured squares. What a colour means depends on
//! the family of the puzzle site: most sites share one table, the two
//! ordinal-distance families each have their own.

use vstd::prelude::*;
use crate::text::str_equals;

verus! {

/// Black large square.
pub const BLACK: char = '\u{2B1B}';

/// White large square.
pub const WHITE: char = '\u{2B1C}';

/// Large red square.
pub const RED: char = '\u{1F7E5}';

/// Large blue square.
pub const BLUE: char = '\u{1F7E6}';

/// Large orange square.
pub const ORANGE: char = '\u{1F7E7}';

/// Large yellow square.
pub const YELLOW: char = '\u{1F7E8}';

/// Large green square.
pub const GREEN: char = '\u{1F7E9}';

/// Large purple square.
pub const PURPLE: char = '\u{1F7EA}';

/// Large brown square.
pub const BROWN: char = '\u{1F7EB}';

/// Emoji presentation selector, which may trail a glyph without meaning anything.
pub const SELECTOR: char = '\u{FE0F}';

/// Combining enclosing keycap, which turns a digit into a keycap glyph.
pub const KEYCAP: char = '\u{20E3}';

/// The grammar family of a puzzle site. It selects the glyph table, the shape
/// of a result block, and the rules for victory and attempts.
#[derive(Clone, Copy, Debug, PartialEq, Eq, Structural)]
pub enum Variant {
    /// Lines of squares; several blocks may follow one another in one submission.
    Standard,
    /// Lines of squares that each end in a direction glyph.
    Geo,
    /// One unbroken row of squares, one square per guess.
    Audio,
    /// One row of squares that white space may interrupt; colours rank distance.
    Globle,
    /// As `Globle`, with the ranking of the colours inverted.
    Globlec,
    /// A grid of keycap-digit groups and red-square groups.
    Wordle32,
}

impl Variant {
    /// The family that a site's variant name selects. Every name but the five
    /// special ones selects the standard family.
    pub open spec fn of_name(name: Seq<char>) -> Variant {
        if name == "geo"@ {
            Variant::Geo
        } else if name == "audio"@ {
            Variant::Audio
        } else if name == "globle"@ {
            Variant::Globle
        } else if name == "globlec"@ {
            Variant::Globlec
        } else if name == "wordle32"@ {
            Variant::Wordle32
        } else {
            Variant::Standard
        }
    }

    /// Reads a site's variant name.
    pub fn from_name(name: &str) -> (v: Variant)
        ensures
            v == Variant::of_name(name@),
    {
        if str_equals(name, "geo") {
            Variant::Geo
        } else if str_equals(name, "audio") {
            Variant::Audio
        } else if str_equals(name, "globle") {
            Variant::Globle
        } else if str_equals(name, "globlec") {
            Variant::Globlec
        } else if str_equals(name, "wordle32") {
            Variant::Wordle32
        } else {
            Variant::Standard
        }
    }
}

/// Whether `c` is one of the nine coloured squares that result blocks are made of.
pub open spec fn is_square(c: char) -> bool {
    c == BLACK || c == WHITE || (RED <= c && c <= BROWN)
}

/// Whether `c` is one of the glyphs that close a line of a geo block: the eight
/// arrows and the party popper.
pub open spec fn is_arrow(c: char) -> bool {
    c == '\u{27A1}' || ('\u{2B05}' <= c && c <= '\u{2B07}') || ('\u{2196}' <= c && c <= '\u{2199}')
        || c == '\u{1F389}'
}

/// Whether `c` is an ASCII digit.
pub open spec fn is_digit(c: char) -> bool {
    '0' <= c && c <= '9'
}

/// Whether `c` belongs to the alphabet of canonical verdict codes.
pub open spec fn is_verdict(c: char) -> bool {
    c == 'C' || c == 'M' || c == 'W' || ('1' <= c && c <= '5') || c == 'X'
}

/// The table shared by most families: the two blank colours are wrong, the
/// two bright ones correct, the rest misplaced.
pub open spec fn decode_default(c: char) -> Option<char> {
    if c == BLACK || c == WHITE {
        Some('W')
    } else if c == RED || c == ORANGE || c == YELLOW || c == PURPLE || c == BROWN {
        Some('M')
    } else if c == BLUE || c == GREEN {
        Some('C')
    } else {
        None
    }
}

/// The table of the `Globle` family: from white (wrong) over red, orange and
/// yellow (ranks 1 to 3) to green (correct).
pub open spec fn decode_globle(c: char) -> Option<char> {
    if c == WHITE {
        Some('W')
    } else if c == RED {
        Some('1')
    } else if c == ORANGE {
        Some('2')
    } else if c == YELLOW {
        Some('3')
    } else if c == GREEN {
        Some('C')
    } else {
        None
    }
}

/// The table of the `Globlec` family: from black (wrong) over orange, yellow,
/// green, blue and purple (ranks 1 to 5) to red (correct).
pub open spec fn decode_globlec(c: char) -> Option<char> {
    if c == BLACK {
        Some('W')
    } else if c == ORANGE {
        Some('1')
    } else if c == YELLOW {
        Some('2')
    } else if c == GREEN {
        Some('3')
    } else if c == BLUE {
        Some('4')
    } else if c == PURPLE {
        Some('5')
    } else if c == RED {
        Some('C')
    } else {
        None
    }
}

/// The verdict that `glyph` stands for in the family `variant`, or `None` for a
/// glyph that the family's table does not hold.
pub open spec fn decode_glyph(glyph: char, variant: Variant) -> Option<char> {
    match variant {
        Variant::Globle => decode_globle(glyph),
        Variant::Globlec => decode_globlec(glyph),
        _ => decode_default(glyph),
    }
}

/// Executable test for [`is_square`].
pub fn square(c: char) -> (r: bool)
    ensures
        r == is_square(c),
{
    c == BLACK || c == WHITE || (RED <= c && c <= BROWN)
}

/// Executable test for [`is_arrow`].
pub fn arrow(c: char) -> (r: bool)
    ensures
        r == is_arrow(c),
{
    c == '\u{27A1}' || ('\u{2B05}' <= c && c <= '\u{2B07}') || ('\u{2196}' <= c && c <= '\u{2199}')
        || c == '\u{1F389}'
}

/// Executable test for [`is_digit`].
pub fn digit(c: char) -> (r: bool)
    ensures
        r == is_digit(c),
{
    '0' <= c && c <= '9'
}

/// Decodes one glyph for the family `variant`.
pub fn decode(glyph: char, variant: Variant) -> (r: Option<char>)
    ensures
        r == decode_glyph(glyph, variant),
{
    match variant {
        Variant::Globle => {
            if glyph == WHITE {
                Some('W')
            } else if glyph == RED {
                Some('1')
            } else if glyph == ORANGE {
                Some('2')
            } else if glyph == YELLOW {
                Some('3')
            } else if glyph == GREEN {
                Some('C')
            } else {
                None
            }
        },
        Variant::Globlec => {
            if glyph == BLACK {
                Some('W')
            } else if glyph == ORANGE {
                Some('1')
            } else if glyph == YELLOW {
                Some('2')
            } else if glyph == GREEN {
                Some('3')
            } else if glyph == BLUE {
                Some('4')
            } else if glyph == PURPLE {
                Some('5')
            } else if glyph == RED {
                Some('C')
            } else {
                None
            }
        },
        _ => {
            if glyph == BLACK || glyph == WHITE {
                Some('W')
            } else if glyph == RED || glyph == ORANGE || glyph == YELLOW || glyph == PURPLE
                || glyph == BROWN {
                Some('M')
            } else if glyph == BLUE || glyph == GREEN {
                Some('C')
            } else {
                None
            }
        },
    }
}

/// Decodes one glyph for the site whose variant name is `variant`.
pub fn decode_square(square: char, variant: &String) -> (r: Option<char>)
    ensures
        r == decode_glyph(square, Variant::of_name(variant@)),
{
    decode(square, Variant::from_name(variant.as_str()))
}

/// Every decoded glyph is a verdict code, and only squares decode.
pub proof fn law_decoded_is_verdict(glyph: char, variant: Variant)
    ensures
        decode_glyph(glyph, variant) matches Some(d) ==> is_verdict(d) && d != 'X' && is_square(glyph),
{
}

/// The shared table knows every square, so in the families that use it no
/// square of a block is ever dropped.
pub proof fn law_shared_table_knows_squares(glyph: char)
    ensures
        decode_default(glyph) is Some <==> is_square(glyph),
{
}

/// The two ordinal-distance tables are inverted against each other: no colour
/// has the same rank in both, and the colour that wins in one is the nearest
/// miss in the other.
pub proof fn law_ordinal_tables_differ(glyph: char)
    ensures
        decode_globle(glyph) is Some && decode_globlec(glyph) is Some ==> decode_globle(glyph)
            != decode_globlec(glyph),
        decode_globlec(RED) == Some('C') && decode_globle(RED) == Some('1'),
        decode_globle(GREEN) == Some('C') && decode_globlec(GREEN) == Some('3'),
{
}

} // verus!

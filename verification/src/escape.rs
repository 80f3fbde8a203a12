//! Text as a string literal of a script, safe to stand inside markup.

use vstd::prelude::*;
use vstd::string::StringExecFns;
use crate::text::{chars_of, hexadecimal4, push_hexadecimal4};

verus! {

/// The escape of one code unit: a backslash, `u`, and four hexadecimal digits.
pub open spec fn unit_escape(unit: nat) -> Seq<char> {
    "\\u"@ + hexadecimal4(unit)
}

/// What stands for one character inside the literal.
///
/// Control characters with a short escape get it; the quote and the
/// backslash are escaped by a backslash; the three characters that markup
/// could take for its own are written as code units; every other printable
/// ASCII character stands for itself. Anything else is written as its one or
/// two UTF-16 code units.
pub open spec fn js_escape(c: char) -> Seq<char> {
    if c == '\u{08}' {
        "\\b"@
    } else if c == '\u{09}' {
        "\\t"@
    } else if c == '\u{0A}' {
        "\\n"@
    } else if c == '\u{0B}' {
        "\\v"@
    } else if c == '\u{0C}' {
        "\\f"@
    } else if c == '\u{0D}' {
        "\\r"@
    } else if c == '"' {
        "\\\""@
    } else if c == '\\' {
        "\\\\"@
    } else if c == '&' {
        "\\u0026"@
    } else if c == '<' {
        "\\u003C"@
    } else if c == '>' {
        "\\u003E"@
    } else if ' ' <= c && c <= '~' {
        seq![c]
    } else if (c as nat) < 0x10000 {
        unit_escape(c as nat)
    } else {
        unit_escape((0xD800 + (c as nat - 0x10000) / 0x400) as nat) + unit_escape(
            (0xDC00 + (c as nat - 0x10000) % 0x400) as nat,
        )
    }
}

/// The escapes of the characters of `s`, one behind the other.
pub open spec fn js_escaped(s: Seq<char>) -> Seq<char>
    decreases s.len(),
{
    if s.len() == 0 {
        Seq::empty()
    } else {
        js_escaped(s.drop_last()) + js_escape(s.last())
    }
}

/// `s` as a string literal: its escaped characters between two quotes.
pub open spec fn js_literal(s: Seq<char>) -> Seq<char> {
    seq!['"'] + js_escaped(s) + seq!['"']
}

/// Appends the escape of one code unit to `out`.
fn push_unit(out: &mut String, unit: u32)
    ensures
        final(out)@ == old(out)@ + unit_escape(unit as nat),
{
    let ghost before = out@;
    out.append("\\u");
    push_hexadecimal4(out, unit);
    assert(before + "\\u"@ + hexadecimal4(unit as nat) == before + ("\\u"@ + hexadecimal4(
        unit as nat,
    )));
}

/// Appends what stands for `c` inside a literal to `out`.
fn push_escape(out: &mut String, c: char)
    ensures
        final(out)@ == old(out)@ + js_escape(c),
{
    let ghost before = out@;
    if c == '\u{08}' {
        out.append("\\b");
    } else if c == '\u{09}' {
        out.append("\\t");
    } else if c == '\u{0A}' {
        out.append("\\n");
    } else if c == '\u{0B}' {
        out.append("\\v");
    } else if c == '\u{0C}' {
        out.append("\\f");
    } else if c == '\u{0D}' {
        out.append("\\r");
    } else if c == '"' {
        out.append("\\\"");
    } else if c == '\\' {
        out.append("\\\\");
    } else if c == '&' {
        out.append("\\u0026");
    } else if c == '<' {
        out.append("\\u003C");
    } else if c == '>' {
        out.append("\\u003E");
    } else if ' ' <= c && c <= '~' {
        out.push(c);
        assert(out@ == before + seq![c]);
    } else {
        let code = c as u32;
        if code < 0x10000 {
            push_unit(out, code);
        } else {
            let rest = code - 0x10000;
            let high = 0xD800 + rest / 0x400;
            let low = 0xDC00 + rest % 0x400;
            push_unit(out, high);
            push_unit(out, low);
            assert(before + unit_escape(high as nat) + unit_escape(low as nat) == before + (
            unit_escape(high as nat) + unit_escape(low as nat)));
        }
    }
}

/// Writes `text` as a string literal of a script.
pub fn jsstring(text: &str) -> (literal: String)
    ensures
        literal@ == js_literal(text@),
{
    let chars = chars_of(text);
    let mut literal = String::new();
    literal.push('"');
    let ghost start = literal@;
    let mut i: usize = 0;
    proof {
        assert(chars@.take(0) == Seq::<char>::empty());
        assert(start + Seq::<char>::empty() == start);
    }
    while i < chars.len()
        invariant
            i <= chars.len(),
            chars@ == text@,
            start == seq!['"'],
            literal@ == start + js_escaped(chars@.take(i as int)),
        decreases chars.len() - i,
    {
        let ghost before = js_escaped(chars@.take(i as int));
        proof {
            assert(chars@.take(i + 1).drop_last() == chars@.take(i as int));
            assert(chars@.take(i + 1).last() == chars@[i as int]);
        }
        push_escape(&mut literal, chars[i]);
        assert(start + before + js_escape(chars@[i as int]) == start + (before + js_escape(
            chars@[i as int],
        )));
        i += 1;
    }
    assert(chars@.take(chars.len() as int) == chars@);
    literal.push('"');
    literal
}

} // verus!

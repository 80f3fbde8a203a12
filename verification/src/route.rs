//! Where a request goes: the path taken apart into segments, the route that
//! the segments select, and who may see what.

use vstd::prelude::*;
use vstd::string::StringExecFns;
use percent_encoding::percent_decode_str;
use crate::text::{chars_of, pieces_of, split_pieces, str_equals, texts_view};

verus! {

/// What percent-decoding makes of a piece of a path: the text that its bytes
/// spell once every `%` with two hexadecimal digits behind it is replaced by
/// the byte they name, or `None` where those bytes are no UTF-8.
pub uninterp spec fn percent_decoded(piece: Seq<char>) -> Option<Seq<char>>;

/// An optional text over plain values.
pub open spec fn optional_text(text: Option<String>) -> Option<Seq<char>> {
    match text {
        Some(t) => Some(t@),
        None => None,
    }
}

/// Calls `percent_encoding::percent_decode_str` and, on what it returns,
/// `PercentDecode::decode_utf8`. Nothing is claimed of the result but that it
/// depends on the piece alone.
#[verifier::external_body]
fn percent_decode(piece: &str) -> (r: Option<String>)
    ensures
        optional_text(r) == percent_decoded(piece@),
{
    match percent_decode_str(piece).decode_utf8() {
        Ok(text) => Some(text.into_owned()),
        Err(_) => None,
    }
}

/// What one decoded piece does to the segments before it: `.` nothing, `..`
/// takes the last one away, if there is one, and any other piece is one
/// more segment.
pub open spec fn with_piece(segments: Seq<Seq<char>>, piece: Seq<char>) -> Seq<Seq<char>> {
    if piece == "."@ {
        segments
    } else if piece == ".."@ {
        if segments.len() > 0 {
            segments.drop_last()
        } else {
            segments
        }
    } else {
        segments.push(piece)
    }
}

/// Whether piece `i` is passed over: an empty piece before the first slash,
/// and, where `strip` asks for it, an empty piece behind the last.
pub open spec fn is_passed_over(pieces: Seq<Seq<char>>, strip: bool, i: int) -> bool {
    pieces[i].len() == 0 && (i == 0 || (strip && i == pieces.len() - 1))
}

/// The segments that the first `n` pieces make, or `None` where one of them
/// cannot be decoded.
pub open spec fn segments_of(pieces: Seq<Seq<char>>, strip: bool, n: int) -> Option<Seq<Seq<char>>>
    decreases n,
{
    if n <= 0 {
        Some(Seq::empty())
    } else {
        match segments_of(pieces, strip, n - 1) {
            None => None,
            Some(segments) => if is_passed_over(pieces, strip, n - 1) {
                Some(segments)
            } else {
                match percent_decoded(pieces[n - 1]) {
                    None => None,
                    Some(piece) => Some(with_piece(segments, piece)),
                }
            },
        }
    }
}

/// The segments of a path: its pieces between slashes, decoded and with the
/// pieces `.` and `..` resolved.
pub open spec fn path_segments(path: Seq<char>, strip: bool) -> Option<Seq<Seq<char>>> {
    segments_of(pieces_of(path, '/'), strip, pieces_of(path, '/').len() as int)
}

/// Adds one decoded piece to the segments.
pub fn push_segment(segments: &mut Vec<String>, piece: String)
    ensures
        texts_view(final(segments)@) == with_piece(texts_view(old(segments)@), piece@),
{
    let ghost before = texts_view(segments@);
    if str_equals(piece.as_str(), ".") {
    } else if str_equals(piece.as_str(), "..") {
        if segments.len() > 0 {
            segments.pop();
            assert(texts_view(segments@) == before.drop_last());
        }
    } else {
        segments.push(piece);
        assert(texts_view(segments@) == before.push(piece@));
    }
}

/// Once a piece cannot be decoded, the path has no segments.
proof fn lemma_segments_stay_none(pieces: Seq<Seq<char>>, strip: bool, n: int, m: int)
    requires
        0 <= n <= m,
        segments_of(pieces, strip, n) is None,
    ensures
        segments_of(pieces, strip, m) is None,
    decreases m - n,
{
    if n < m {
        lemma_segments_stay_none(pieces, strip, n, m - 1);
    }
}

/// Takes a path apart into its segments. Returns `None` for a path with a
/// piece that cannot be decoded.
pub fn to_path_segments(path: &str, strip_trailing_empty: bool) -> (r: Option<Vec<String>>)
    ensures
        match r {
            Some(segments) => path_segments(path@, strip_trailing_empty) == Some(
                texts_view(segments@),
            ),
            None => path_segments(path@, strip_trailing_empty) is None,
        },
{
    let chars = chars_of(path);
    let pieces = split_pieces(&chars, 0, chars.len(), '/');
    assert(chars@.subrange(0, chars@.len() as int) == path@);
    let ghost all = texts_view(pieces@);
    let mut segments: Vec<String> = Vec::new();
    let mut i: usize = 0;
    proof {
        assert(texts_view(segments@) == Seq::<Seq<char>>::empty());
    }
    while i < pieces.len()
        invariant
            i <= pieces.len(),
            all == texts_view(pieces@),
            all == pieces_of(path@, '/'),
            segments_of(all, strip_trailing_empty, i as int) == Some(texts_view(segments@)),
        decreases pieces.len() - i,
    {
        assert(all[i as int] == pieces@[i as int]@);
        let empty = pieces[i].as_str().is_empty();
        if empty && (i == 0 || (strip_trailing_empty && i == pieces.len() - 1)) {
        } else {
            match percent_decode(pieces[i].as_str()) {
                None => {
                    proof {
                        lemma_segments_stay_none(
                            all,
                            strip_trailing_empty,
                            i + 1,
                            pieces.len() as int,
                        );
                    }
                    return None;
                },
                Some(piece) => {
                    push_segment(&mut segments, piece);
                },
            }
        }
        i += 1;
    }
    Some(segments)
}

/// Where a request goes, over plain values.
pub enum Way {
    /// To the puzzles of today.
    Today,
    /// To the puzzles of the date that `date` spells.
    Wordle { date: Seq<char> },
    /// To the puzzle with the number that `id` spells.
    Puzzle { id: Seq<char> },
    /// To the form for new results.
    Populate,
    /// To the statistics.
    Stats,
    /// To the static file `name`.
    Static { name: Seq<char> },
    /// Nowhere.
    NotFound,
}

/// Where a request goes.
#[derive(Clone, Debug, PartialEq, Eq)]
pub enum Route {
    /// To the puzzles of today.
    Today,
    /// To the puzzles of the date that `date` spells.
    Wordle {
        /// The date as it stands in the path.
        date: String,
    },
    /// To the puzzle with the number that `id` spells.
    Puzzle {
        /// The number as it stands in the path.
        id: String,
    },
    /// To the form for new results.
    Populate,
    /// To the statistics.
    Stats,
    /// To the static file `name`.
    Static {
        /// The name of the file.
        name: String,
    },
    /// Nowhere.
    NotFound,
}

impl View for Route {
    type V = Way;

    open spec fn view(&self) -> Way {
        match *self {
            Route::Today => Way::Today,
            Route::Wordle { date } => Way::Wordle { date: date@ },
            Route::Puzzle { id } => Way::Puzzle { id: id@ },
            Route::Populate => Way::Populate,
            Route::Stats => Way::Stats,
            Route::Static { name } => Way::Static { name: name@ },
            Route::NotFound => Way::NotFound,
        }
    }
}

/// The route that the segments below the base path select.
pub open spec fn way_of(segments: Seq<Seq<char>>) -> Way {
    if segments.len() == 0 {
        Way::Today
    } else if segments.len() == 1 {
        if segments[0].len() == 0 || segments[0] == "wordle"@ {
            Way::Today
        } else if segments[0] == "populate"@ {
            Way::Populate
        } else if segments[0] == "stats"@ {
            Way::Stats
        } else {
            Way::NotFound
        }
    } else if segments.len() == 2 {
        if segments[0] == "wordle"@ {
            if segments[1].len() == 0 {
                Way::Today
            } else {
                Way::Wordle { date: segments[1] }
            }
        } else if segments[0] == "puzzle"@ {
            Way::Puzzle { id: segments[1] }
        } else if segments[0] == "static"@ {
            Way::Static { name: segments[1] }
        } else {
            Way::NotFound
        }
    } else {
        Way::NotFound
    }
}

/// Selects the route for the segments below the base path.
pub fn route(segments: &Vec<String>) -> (r: Route)
    ensures
        r@ == way_of(texts_view(segments@)),
{
    let ghost all = texts_view(segments@);
    if segments.len() == 0 {
        Route::Today
    } else if segments.len() == 1 {
        assert(all[0] == segments@[0]@);
        let only = segments[0].as_str();
        if only.is_empty() || str_equals(only, "wordle") {
            Route::Today
        } else if str_equals(only, "populate") {
            Route::Populate
        } else if str_equals(only, "stats") {
            Route::Stats
        } else {
            Route::NotFound
        }
    } else if segments.len() == 2 {
        assert(all[0] == segments@[0]@);
        assert(all[1] == segments@[1]@);
        let first = segments[0].as_str();
        if str_equals(first, "wordle") {
            if segments[1].as_str().is_empty() {
                Route::Today
            } else {
                Route::Wordle { date: segments[1].clone() }
            }
        } else if str_equals(first, "puzzle") {
            Route::Puzzle { id: segments[1].clone() }
        } else if str_equals(first, "static") {
            Route::Static { name: segments[1].clone() }
        } else {
            Route::NotFound
        }
    } else {
        Route::NotFound
    }
}

/// The segments of `path` below `base`, or `None` where `path` does not
/// begin with the segments of `base`.
pub open spec fn below(base: Seq<Seq<char>>, path: Seq<Seq<char>>) -> Option<Seq<Seq<char>>> {
    if base.is_prefix_of(path) {
        Some(path.skip(base.len() as int))
    } else {
        None
    }
}

/// Takes the base path off the front of a path.
pub fn strip_base(base: &Vec<String>, path: &Vec<String>) -> (r: Option<Vec<String>>)
    ensures
        optional_texts(r) == below(texts_view(base@), texts_view(path@)),
{
    let ghost b = texts_view(base@);
    let ghost p = texts_view(path@);
    if base.len() > path.len() {
        return None;
    }
    let mut i: usize = 0;
    while i < base.len()
        invariant
            i <= base.len() <= path.len(),
            b == texts_view(base@),
            p == texts_view(path@),
            forall|k: int| 0 <= k < i ==> b[k] == p[k],
        decreases base.len() - i,
    {
        assert(b[i as int] == base@[i as int]@);
        assert(p[i as int] == path@[i as int]@);
        if !str_equals(base[i].as_str(), path[i].as_str()) {
            return None;
        }
        i += 1;
    }
    let mut rest: Vec<String> = Vec::new();
    let mut j: usize = base.len();
    while j < path.len()
        invariant
            base.len() <= j <= path.len(),
            p == texts_view(path@),
            rest@.len() == j - base.len(),
            forall|k: int| 0 <= k < rest@.len() ==> (#[trigger] rest@[k])@ == p[k + base.len()],
        decreases path.len() - j,
    {
        assert(p[j as int] == path@[j as int]@);
        rest.push(path[j].clone());
        j += 1;
    }
    assert(b.is_prefix_of(p));
    assert(texts_view(rest@) == p.skip(b.len() as int));
    Some(rest)
}

/// Optional texts over plain values.
pub open spec fn optional_texts(texts: Option<Vec<String>>) -> Option<Seq<Seq<char>>> {
    match texts {
        Some(t) => Some(texts_view(t@)),
        None => None,
    }
}

/// `n` steps up the path.
pub open spec fn steps_up(n: nat) -> Seq<char>
    decreases n,
{
    if n == 0 {
        Seq::empty()
    } else {
        steps_up((n - 1) as nat) + "../"@
    }
}

/// The way from a page with `depth` segments below the base path to the
/// static files, which stand directly below the base path.
pub open spec fn static_prefix_of(depth: nat) -> Seq<char> {
    if depth == 0 {
        "static"@
    } else {
        steps_up((depth - 1) as nat) + "static"@
    }
}

/// Writes the way from a page with `depth` segments to the static files.
pub fn static_prefix(depth: usize) -> (prefix: String)
    ensures
        prefix@ == static_prefix_of(depth as nat),
{
    let mut prefix = String::new();
    let mut i: usize = 1;
    while i < depth
        invariant
            1 <= i,
            i <= depth || i == 1,
            prefix@ == steps_up((i - 1) as nat),
        decreases depth - i,
    {
        prefix.append("../");
        i += 1;
    }
    let ghost steps = prefix@;
    prefix.append("static");
    assert(depth == 0 ==> steps == Seq::<char>::empty() && steps + "static"@ == "static"@);
    prefix
}

/// The local address of `path` below the base path.
pub open spec fn local_address(base: Seq<Seq<char>>, path: Seq<char>) -> Seq<char> {
    slashed(base) + path
}

/// Segments, each with a slash before it.
pub open spec fn slashed(segments: Seq<Seq<char>>) -> Seq<char>
    decreases segments.len(),
{
    if segments.len() == 0 {
        Seq::empty()
    } else {
        slashed(segments.drop_last()) + seq!['/'] + segments.last()
    }
}

/// Writes the local address of `path` below the base path.
pub fn local_url(base: &Vec<String>, path: &str) -> (url: String)
    ensures
        url@ == local_address(texts_view(base@), path@),
{
    let ghost all = texts_view(base@);
    let mut url = String::new();
    let mut i: usize = 0;
    proof {
        assert(all.take(0) == Seq::<Seq<char>>::empty());
    }
    while i < base.len()
        invariant
            i <= base.len(),
            all == texts_view(base@),
            url@ == slashed(all.take(i as int)),
        decreases base.len() - i,
    {
        proof {
            assert(all.take(i + 1).drop_last() == all.take(i as int));
            assert(all.take(i + 1).last() == base@[i as int]@);
        }
        let ghost before = url@;
        url.push('/');
        assert(url@ == before + seq!['/']);
        url.append(base[i].as_str());
        i += 1;
    }
    assert(all.take(base.len() as int) == all);
    url.append(path);
    url
}

/// Whether a request may write: with no tokens configured `fallback`
/// decides, else the request must bring one of the tokens.
pub open spec fn token_valid(tokens: Seq<Seq<char>>, token: Option<Seq<char>>, fallback: bool) -> bool {
    if tokens.len() == 0 {
        fallback
    } else {
        token is Some && tokens.contains(token->0)
    }
}

/// Checks the token of a request against the configured tokens.
pub fn has_valid_token(tokens: &Vec<String>, token: Option<&str>, value_if_no_token_configured: bool) -> (r:
    bool)
    ensures
        r == token_valid(
            texts_view(tokens@),
            match token {
                Some(t) => Some(t@),
                None => None,
            },
            value_if_no_token_configured,
        ),
{
    let ghost all = texts_view(tokens@);
    if tokens.len() == 0 {
        return value_if_no_token_configured;
    }
    match token {
        None => false,
        Some(t) => {
            let mut i: usize = 0;
            while i < tokens.len()
                invariant
                    i <= tokens.len(),
                    token == Some(t),
                    all == texts_view(tokens@),
                    forall|k: int| 0 <= k < i ==> all[k] != t@,
                decreases tokens.len() - i,
            {
                assert(all[i as int] == tokens@[i as int]@);
                if str_equals(tokens[i].as_str(), t) {
                    assert(all.contains(t@));
                    return true;
                }
                i += 1;
            }
            false
        },
    }
}

/// Whether the solutions of a puzzle may be shown to everyone: never with a
/// negative number of protected days, else once the puzzle is at least that
/// many days old.
pub open spec fn spoiling_allowed(protection_days: int, age_days: int) -> bool {
    protection_days >= 0 && age_days >= protection_days
}

/// Decides whether the solutions of a puzzle that is `age_days` old may be
/// shown to everyone.
pub fn check_allow_spoiling(spoiler_protection_days: i64, age_days: i64) -> (r: bool)
    ensures
        r == spoiling_allowed(spoiler_protection_days as int, age_days as int),
{
    spoiler_protection_days >= 0 && age_days >= spoiler_protection_days
}

/// A static file that the archive serves.
#[derive(Clone, Copy, Debug, PartialEq, Eq, Structural)]
pub enum StaticFile {
    /// The style sheet.
    Style,
    /// A script.
    Script,
    /// The source map of a script.
    ScriptMap,
    /// The source of a script.
    Source,
}

/// The kind of the static file with the name `name`, or `None` where the
/// archive has no such file.
pub open spec fn static_kind(name: Seq<char>) -> Option<StaticFile> {
    if name == "style.css"@ {
        Some(StaticFile::Style)
    } else if name == "puzzles.js"@ || name == "wordle32-spoiler.js"@ {
        Some(StaticFile::Script)
    } else if name == "puzzles.js.map"@ || name == "wordle32-spoiler.js.map"@ {
        Some(StaticFile::ScriptMap)
    } else if name == "puzzles.ts"@ || name == "wordle32-spoiler.ts"@ {
        Some(StaticFile::Source)
    } else {
        None
    }
}

/// Finds the kind of a static file by its name.
pub fn static_file(name: &str) -> (r: Option<StaticFile>)
    ensures
        r == static_kind(name@),
{
    if str_equals(name, "style.css") {
        Some(StaticFile::Style)
    } else if str_equals(name, "puzzles.js") || str_equals(name, "wordle32-spoiler.js") {
        Some(StaticFile::Script)
    } else if str_equals(name, "puzzles.js.map") || str_equals(name, "wordle32-spoiler.js.map") {
        Some(StaticFile::ScriptMap)
    } else if str_equals(name, "puzzles.ts") || str_equals(name, "wordle32-spoiler.ts") {
        Some(StaticFile::Source)
    } else {
        None
    }
}

/// The content type under which a static file is served.
pub open spec fn content_type_of(file: StaticFile) -> Seq<char> {
    match file {
        StaticFile::Style => "text/css"@,
        StaticFile::Script => "text/javascript"@,
        StaticFile::ScriptMap => "application/json"@,
        StaticFile::Source => "text/vnd.typescript"@,
    }
}

/// Names the content type under which a static file is served.
pub fn content_type(file: StaticFile) -> (r: &'static str)
    ensures
        r@ == content_type_of(file),
{
    match file {
        StaticFile::Style => "text/css",
        StaticFile::Script => "text/javascript",
        StaticFile::ScriptMap => "application/json",
        StaticFile::Source => "text/vnd.typescript",
    }
}

} // verus!

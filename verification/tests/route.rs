use wordle_archive::route::{
    check_allow_spoiling, content_type, has_valid_token, local_url, push_segment, route,
    static_file, static_prefix, strip_base, to_path_segments, Route, StaticFile,
};

fn texts(lines: &[&str]) -> Vec<String> {
    lines.iter().map(|l| l.to_string()).collect()
}

#[test]
fn path_is_taken_apart_at_slashes() {
    assert_eq!(to_path_segments("/wordle/2022-06-16", false), Some(texts(&["wordle", "2022-06-16"])));
    assert_eq!(to_path_segments("/wordle/", false), Some(texts(&["wordle", ""])));
    assert_eq!(to_path_segments("/wordle/", true), Some(texts(&["wordle"])));
    assert_eq!(to_path_segments("/", false), Some(texts(&[""])));
    assert_eq!(to_path_segments("/", true), Some(texts(&[])));
    assert_eq!(to_path_segments("", false), Some(texts(&[])));
    assert_eq!(to_path_segments("a//b", false), Some(texts(&["a", "", "b"])));
}

#[test]
fn path_pieces_are_percent_decoded() {
    assert_eq!(to_path_segments("/a%20b/%E2%AC%9B", false), Some(texts(&["a b", "\u{2B1B}"])));
    assert_eq!(to_path_segments("/100%/%zz", false), Some(texts(&["100%", "%zz"])));
    assert_eq!(to_path_segments("/%2e%2E/x", false), Some(texts(&["x"])));
    assert_eq!(to_path_segments("/a%2Fb", false), Some(texts(&["a/b"])));
}

#[test]
fn path_with_bytes_that_are_no_text_has_no_segments() {
    assert_eq!(to_path_segments("/ok/%FF/more", false), None);
    assert_eq!(to_path_segments("/%E2%AC", true), None);
}

#[test]
fn dots_are_resolved() {
    assert_eq!(to_path_segments("/a/./b/../c", false), Some(texts(&["a", "c"])));
    assert_eq!(to_path_segments("/../../a", false), Some(texts(&["a"])));
    assert_eq!(to_path_segments("/a/..", false), Some(texts(&[])));
    let mut segments = texts(&["a", "b"]);
    push_segment(&mut segments, ".".to_string());
    assert_eq!(segments, texts(&["a", "b"]));
    push_segment(&mut segments, "..".to_string());
    assert_eq!(segments, texts(&["a"]));
    push_segment(&mut segments, "...".to_string());
    assert_eq!(segments, texts(&["a", "..."]));
    let mut none = texts(&[]);
    push_segment(&mut none, "..".to_string());
    assert_eq!(none, texts(&[]));
}

#[test]
fn base_path_is_taken_off_the_front() {
    assert_eq!(
        strip_base(&texts(&["wordle-archive"]), &texts(&["wordle-archive", "stats"])),
        Some(texts(&["stats"]))
    );
    assert_eq!(strip_base(&texts(&[]), &texts(&["stats"])), Some(texts(&["stats"])));
    assert_eq!(strip_base(&texts(&["a", "b"]), &texts(&["a", "b"])), Some(texts(&[])));
    assert_eq!(strip_base(&texts(&["a", "b"]), &texts(&["a"])), None);
    assert_eq!(strip_base(&texts(&["a", "b"]), &texts(&["a", "c", "d"])), None);
}

#[test]
fn segments_select_the_route() {
    assert_eq!(route(&texts(&[])), Route::Today);
    assert_eq!(route(&texts(&[""])), Route::Today);
    assert_eq!(route(&texts(&["wordle"])), Route::Today);
    assert_eq!(route(&texts(&["wordle", ""])), Route::Today);
    assert_eq!(
        route(&texts(&["wordle", "2022-06-16"])),
        Route::Wordle { date: "2022-06-16".to_string() }
    );
    assert_eq!(route(&texts(&["puzzle", "42"])), Route::Puzzle { id: "42".to_string() });
    assert_eq!(route(&texts(&["puzzle", ""])), Route::Puzzle { id: String::new() });
    assert_eq!(route(&texts(&["populate"])), Route::Populate);
    assert_eq!(route(&texts(&["stats"])), Route::Stats);
    assert_eq!(
        route(&texts(&["static", "style.css"])),
        Route::Static { name: "style.css".to_string() }
    );
    assert_eq!(route(&texts(&["puzzle"])), Route::NotFound);
    assert_eq!(route(&texts(&["static"])), Route::NotFound);
    assert_eq!(route(&texts(&["populate", ""])), Route::NotFound);
    assert_eq!(route(&texts(&["wordle", "a", "b"])), Route::NotFound);
    assert_eq!(route(&texts(&["Wordle"])), Route::NotFound);
}

#[test]
fn static_prefix_climbs_to_the_base_path() {
    assert_eq!(static_prefix(0), "static");
    assert_eq!(static_prefix(1), "static");
    assert_eq!(static_prefix(2), "../static");
    assert_eq!(static_prefix(4), "../../../static");
}

#[test]
fn local_url_starts_below_the_base_path() {
    assert_eq!(local_url(&texts(&[]), "/wordle/2022-06-16"), "/wordle/2022-06-16");
    assert_eq!(local_url(&texts(&["a", "b"]), "/stats"), "/a/b/stats");
}

#[test]
fn token_is_checked_against_the_configured_ones() {
    let tokens = texts(&["secret", "other"]);
    assert!(has_valid_token(&tokens, Some("secret"), false));
    assert!(has_valid_token(&tokens, Some("other"), false));
    assert!(!has_valid_token(&tokens, Some("Secret"), true));
    assert!(!has_valid_token(&tokens, None, true));
    assert!(has_valid_token(&texts(&[]), None, true));
    assert!(!has_valid_token(&texts(&[]), Some("secret"), false));
}

#[test]
fn spoiling_waits_for_the_protected_days() {
    assert!(!check_allow_spoiling(-1, 1000));
    assert!(check_allow_spoiling(0, 0));
    assert!(!check_allow_spoiling(0, -1));
    assert!(!check_allow_spoiling(3, 2));
    assert!(check_allow_spoiling(3, 3));
    assert!(check_allow_spoiling(3, 4));
}

#[test]
fn static_files_have_their_content_types() {
    assert_eq!(static_file("style.css"), Some(StaticFile::Style));
    assert_eq!(static_file("puzzles.js"), Some(StaticFile::Script));
    assert_eq!(static_file("wordle32-spoiler.js.map"), Some(StaticFile::ScriptMap));
    assert_eq!(static_file("puzzles.ts"), Some(StaticFile::Source));
    assert_eq!(static_file("puzzles."), None);
    assert_eq!(static_file("other.js"), None);
    assert_eq!(static_file(""), None);
    assert_eq!(content_type(StaticFile::Style), "text/css");
    assert_eq!(content_type(StaticFile::Script), "text/javascript");
    assert_eq!(content_type(StaticFile::ScriptMap), "application/json");
    assert_eq!(content_type(StaticFile::Source), "text/vnd.typescript");
}

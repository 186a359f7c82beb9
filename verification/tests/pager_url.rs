use ibrow::pager::{line_rows, pager_rows};
use ibrow::text::{chars_of, string_of};
use ibrow::url::resolve_anchor;

fn lines(v: &[&str]) -> Vec<String> {
    v.iter().map(|s| s.to_string()).collect()
}

#[test]
fn line_rows_is_clamped_ceiling() {
    assert_eq!(line_rows(0, 10), 1);
    assert_eq!(line_rows(1, 10), 1);
    assert_eq!(line_rows(10, 10), 1);
    assert_eq!(line_rows(11, 10), 2);
    assert_eq!(line_rows(8, 4), 2);
    assert_eq!(line_rows(10, 4), 3);
}

#[test]
fn line_rows_clamps_degenerate_width() {
    assert_eq!(line_rows(5, 0), 5);
    assert_eq!(line_rows(0, 0), 1);
}

#[test]
fn pager_emits_lines_that_fit() {
    let ls = lines(&["aaaaaaaaaa", "bbbbbbbbbb", "c"]);
    // widths of 4: each long line costs 3 rows; budget 5 fits only the first.
    let rows = pager_rows(&ls, 0, 4, 5);
    assert_eq!(rows, lines(&["aaaaaaaaaa"]));
}

#[test]
fn pager_never_exceeds_height() {
    let ls = lines(&["one", "two", "three", "four", "five"]);
    let rows = pager_rows(&ls, 0, 80, 3);
    assert_eq!(rows, lines(&["one", "two", "three"]));
    let rows = pager_rows(&ls, 0, 80, 0);
    assert!(rows.is_empty());
}

#[test]
fn pager_starts_at_first_line() {
    let ls = lines(&["a", "b", "c", "d"]);
    let rows = pager_rows(&ls, 2, 80, 24);
    assert_eq!(rows, lines(&["c", "d"]));
}

#[test]
fn pager_start_beyond_end_is_empty() {
    let ls = lines(&["a", "b"]);
    let rows = pager_rows(&ls, 100, 80, 24);
    assert!(rows.is_empty());
}

#[test]
fn pager_does_not_clip_a_line() {
    // The second line would need 2 of the 1 remaining rows: it is withheld
    // whole, and nothing after it is emitted either.
    let ls = lines(&["aa", "bbbb", "c"]);
    let rows = pager_rows(&ls, 0, 2, 2);
    assert_eq!(rows, lines(&["aa"]));
}

#[test]
fn pager_empty_line_costs_one_row() {
    let ls = lines(&["", "", ""]);
    let rows = pager_rows(&ls, 0, 10, 2);
    assert_eq!(rows, lines(&["", ""]));
}

#[test]
fn resolve_absolute_path_against_origin() {
    assert_eq!(
        resolve_anchor("http://example.com/dir/page", "/x"),
        Some("http://example.com/x".to_string())
    );
}

#[test]
fn resolve_origin_without_path() {
    assert_eq!(resolve_anchor("http://h", "/x"), Some("http://h/x".to_string()));
}

#[test]
fn resolve_keeps_full_target() {
    assert_eq!(
        resolve_anchor("http://example.com/a", "http://other.org/b"),
        Some("http://other.org/b".to_string())
    );
    assert_eq!(resolve_anchor("http://example.com/a", "rel"), Some("rel".to_string()));
}

#[test]
fn resolve_without_scheme_separator_fails() {
    assert_eq!(resolve_anchor("not-a-url", "/x"), None);
}

#[test]
fn chars_round_trip() {
    let v = chars_of("round trip \u{a0} text");
    assert_eq!(string_of(&v), "round trip \u{a0} text".to_string());
}

use ibrow::editor::{submit_value, EditorAction, EditorKey, EditorState};
use ibrow::history::History;
use ibrow::page::Page;

fn page_with_url(url: &str) -> Page {
    let mut p = Page::new();
    p.url = url.to_string();
    p
}

#[test]
fn editor_home_end_kill_empties_buffer() {
    let mut st = EditorState::new(6, "http://x");
    assert_eq!(st.handle_key(EditorKey::Home), EditorAction::CursorOnly);
    assert_eq!(st.handle_key(EditorKey::End), EditorAction::CursorOnly);
    assert_eq!(st.handle_key(EditorKey::KillToStart), EditorAction::Redraw(0));
    assert!(st.buffer.is_empty());
    assert_eq!(st.cursor, 0);
    assert_eq!(submit_value(&st.buffer), None);
}

#[test]
fn editor_insert_and_move() {
    let mut st = EditorState::new(0, "");
    assert_eq!(st.handle_key(EditorKey::Char('a')), EditorAction::Redraw(0));
    assert_eq!(st.handle_key(EditorKey::Char('b')), EditorAction::Redraw(1));
    assert_eq!(st.handle_key(EditorKey::Left), EditorAction::CursorOnly);
    assert_eq!(st.handle_key(EditorKey::Char('c')), EditorAction::Redraw(1));
    assert_eq!(st.buffer, vec!['a', 'c', 'b']);
    assert_eq!(st.cursor, 2);
    assert_eq!(st.screen_col(), 2);
}

#[test]
fn editor_backspace() {
    let mut st = EditorState::new(0, "ab");
    assert_eq!(st.handle_key(EditorKey::Backspace), EditorAction::Redraw(1));
    assert_eq!(st.buffer, vec!['a']);
    assert_eq!(st.handle_key(EditorKey::Backspace), EditorAction::Redraw(0));
    assert!(st.buffer.is_empty());
    assert_eq!(st.handle_key(EditorKey::Backspace), EditorAction::Idle);
    assert!(st.buffer.is_empty());
    assert_eq!(st.cursor, 0);
}

#[test]
fn editor_cursor_clamps_at_ends() {
    let mut st = EditorState::new(0, "x");
    st.handle_key(EditorKey::Home);
    st.handle_key(EditorKey::Left);
    assert_eq!(st.cursor, 0);
    st.handle_key(EditorKey::End);
    st.handle_key(EditorKey::Right);
    assert_eq!(st.cursor, 1);
}

#[test]
fn editor_kill_keeps_text_after_cursor() {
    let mut st = EditorState::new(0, "hello");
    st.handle_key(EditorKey::Left);
    st.handle_key(EditorKey::Left);
    assert_eq!(st.handle_key(EditorKey::KillToStart), EditorAction::Redraw(0));
    assert_eq!(st.buffer, vec!['l', 'o']);
    assert_eq!(st.cursor, 0);
}

#[test]
fn editor_cancel_clears_buffer() {
    let mut st = EditorState::new(0, "keep?");
    assert_eq!(st.handle_key(EditorKey::Cancel), EditorAction::Cancelled);
    assert!(st.buffer.is_empty());
}

#[test]
fn editor_enter_and_tab_actions() {
    let mut st = EditorState::new(0, "v");
    assert_eq!(st.handle_key(EditorKey::Tab), EditorAction::Listing);
    assert_eq!(st.handle_key(EditorKey::Enter), EditorAction::Submitted);
    assert_eq!(st.buffer, vec!['v']);
}

#[test]
fn editor_tail_string() {
    let st = EditorState::new(0, "abcd");
    assert_eq!(st.tail_string(2), "cd".to_string());
    assert_eq!(st.tail_string(0), "abcd".to_string());
}

#[test]
fn submit_trims_whitespace() {
    let buf: Vec<char> = "  hi there \t".chars().collect();
    assert_eq!(submit_value(&buf), Some("hi there".to_string()));
}

#[test]
fn submit_blank_aborts() {
    let buf: Vec<char> = "   \t ".chars().collect();
    assert_eq!(submit_value(&buf), None);
    let empty: Vec<char> = Vec::new();
    assert_eq!(submit_value(&empty), None);
}

#[test]
fn history_starts_with_one_empty_page() {
    let h = History::new();
    assert_eq!(h.current().buf, "");
    assert_eq!(h.current().line_count, 0);
    assert!(h.current().anchors.is_empty());
}

#[test]
fn history_push_after_back_discards_forward_pages() {
    let mut h = History::new();
    h.push(page_with_url("u1"));
    h.push(page_with_url("u2"));
    h.push(page_with_url("u3"));
    h.prev();
    h.prev();
    assert_eq!(h.current().url, "u1");
    h.push(page_with_url("u4"));
    assert_eq!(h.current().url, "u4");
    h.next();
    assert_eq!(h.current().url, "u4");
    h.prev();
    assert_eq!(h.current().url, "u1");
    h.prev();
    assert_eq!(h.current().url, "");
}

#[test]
fn history_prev_clamps_at_first_page() {
    let mut h = History::new();
    h.prev();
    assert_eq!(h.current().url, "");
    h.push(page_with_url("a"));
    h.prev();
    h.prev();
    h.prev();
    assert_eq!(h.current().url, "");
}

#[test]
fn history_next_clamps_at_last_page() {
    let mut h = History::new();
    h.push(page_with_url("a"));
    h.next();
    h.next();
    assert_eq!(h.current().url, "a");
}

use crossterm::style::Stylize;
use ibrow::page::{get_attr, transduce, Page};

#[test]
fn paragraph_with_anchor() {
    let page = transduce("<p>Hi <a href=\"/y\">link</a></p>");
    assert!(page.buf.contains("Hi [0: link]\n"));
    assert_eq!(page.anchors, vec!["/y".to_string()]);
    assert_eq!(page.line_count, page.buf.lines().count());
}

#[test]
fn input_group_coalesces_to_one_line() {
    let page = transduce("<input name=\"q\" value=\"x\"><input name=\"z\">");
    assert_eq!(page.buf, "__q=x____z__\n");
    assert_eq!(page.line_count, 1);
    assert!(page.anchors.is_empty());
}

#[test]
fn input_group_closed_by_other_token() {
    let page = transduce("<input name=\"a\"><p>text");
    assert_eq!(page.buf, "__a__\n\ntext");
    assert_eq!(page.line_count, page.buf.lines().count());
}

#[test]
fn get_attr_quoted_value() {
    assert_eq!(get_attr("<a href=\"/page\">", "href"), Some("/page".to_string()));
}

#[test]
fn get_attr_unquoted_needs_trailing_space() {
    assert_eq!(get_attr("<a href=/page>", "href"), None);
    assert_eq!(get_attr("<a href=/page >", "href"), Some("/page".to_string()));
}

#[test]
fn get_attr_missing_name() {
    assert_eq!(get_attr("<a name=\"x\">", "href"), None);
}

#[test]
fn get_attr_unterminated_quote() {
    assert_eq!(get_attr("<a href=\"/page", "href"), None);
}

#[test]
fn get_attr_single_quotes() {
    assert_eq!(get_attr("<a href='/q'>", "href"), Some("/q".to_string()));
}

#[test]
fn get_attr_input_attributes() {
    assert_eq!(get_attr("input name=\"q\" value=\"x\">", "name"), Some("q".to_string()));
    assert_eq!(get_attr("input name=\"q\" value=\"x\">", "value"), Some("x".to_string()));
}

#[test]
fn anchor_without_href_consumes_no_index() {
    let page = transduce("<a name=\"x\">text</a><a href=\"/only\">t</a>");
    assert_eq!(page.anchors, vec!["/only".to_string()]);
    assert!(page.buf.contains("[0: t]"));
    assert!(!page.buf.contains("text"));
}

#[test]
fn anchor_indices_increase_in_emission_order() {
    let page = transduce("<a href=\"/a\">one</a> <a href=\"/b\">two</a>");
    assert!(page.buf.contains("[0: one]"));
    assert!(page.buf.contains("[1: two]"));
    assert_eq!(page.anchors, vec!["/a".to_string(), "/b".to_string()]);
}

#[test]
fn entities_are_unescaped() {
    let page = transduce("x &lt;b&gt; &nbsp;&quot;");
    assert_eq!(page.buf, "x <b> \u{a0}\"");
    assert_eq!(page.line_count, 1);
}

#[test]
fn lt_entity_is_not_a_tag_delimiter() {
    let page = transduce("x &lt;script&gt; y");
    assert_eq!(page.buf, "x <script> y");
}

#[test]
fn bold_matches_crossterm_styling() {
    let page = transduce("<b>x</b>");
    assert_eq!(page.buf, format!("{}", "x".bold()));
    assert_eq!(page.buf, "\u{1b}[1mx\u{1b}[0m");
}

#[test]
fn italic_matches_crossterm_styling() {
    let page = transduce("<i>y</i>");
    assert_eq!(page.buf, format!("{}", "y".italic()));
    assert_eq!(page.buf, "\u{1b}[3my\u{1b}[0m");
}

#[test]
fn script_style_option_suppressed() {
    let page = transduce("<script>evil()</script>ok<style>s</style><option>o</option>");
    assert_eq!(page.buf, "ok");
}

#[test]
fn br_starts_new_line_and_keeps_tail() {
    let page = transduce("<br>tail");
    assert_eq!(page.buf, "\ntail");
    assert_eq!(page.line_count, 2);
}

#[test]
fn heading_ends_its_line() {
    let page = transduce("<h2>Title</h2>");
    assert_eq!(page.buf, "Title\n");
    assert_eq!(page.line_count, 1);
}

#[test]
fn closing_paragraph_emits_text_then_newline() {
    let page = transduce("<p>one</p><p>two</p>");
    assert_eq!(page.buf, "\none\n\ntwo\n");
}

#[test]
fn plain_text_passes_through() {
    let page = transduce("no tags at all");
    assert_eq!(page.buf, "no tags at all");
    assert_eq!(page.line_count, 1);
}

#[test]
fn empty_input_yields_empty_page() {
    let page = transduce("");
    assert_eq!(page.buf, "");
    assert_eq!(page.line_count, 0);
    assert!(page.anchors.is_empty());
    assert_eq!(page.url, "");
}

#[test]
fn malformed_markup_never_fails() {
    for m in [
        "<",
        "<<<<",
        "<a ",
        "<a href=",
        "<a href=\"",
        "<input name=",
        "<b>",
        "<p",
        "&nbsp",
        "\u{1b}<>",
        "<a href='x",
    ] {
        let page = transduce(m);
        assert_eq!(page.line_count, page.buf.lines().count());
    }
}

#[test]
fn line_count_matches_lines_present() {
    for m in [
        "",
        "a",
        "a<br>b",
        "<p>x</p><p>y</p>",
        "<input name=\"n\">",
        "one<br><br>two<br>",
        "a\nliteral\nnewline",
    ] {
        let page = transduce(m);
        assert_eq!(page.line_count, page.buf.lines().count(), "input: {m:?}");
    }
}

#[test]
fn control_characters_stripped_from_trailing_text() {
    let page = transduce("<span>a\tb\rc</span>");
    assert_eq!(page.buf, "abc\n");
}

#[test]
fn table_row_starts_new_line() {
    let page = transduce("<tr><td>x<tr><td>y");
    assert_eq!(page.buf, "\nx\ny");
    assert_eq!(page.line_count, 3);
}

#[test]
fn nbsp_survives_inside_attribute_value() {
    let page = transduce("<a href=\"/a&nbsp;b\">t</a>");
    assert_eq!(page.anchors, vec!["/a\u{a0}b".to_string()]);
}

#[test]
fn new_page_is_empty() {
    let page = Page::new();
    assert_eq!(page.buf, "");
    assert_eq!(page.line_count, 0);
    assert_eq!(page.url, "");
    assert!(page.anchors.is_empty());
}

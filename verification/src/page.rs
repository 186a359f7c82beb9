//! The markup-to-text transducer: it turns raw markup into a rendered page,
//! a styled text buffer together with the list of anchor targets.
//!
//! The markup is split on the tag-open delimiter `<`; each token carries a tag
//! name and the text up to the next delimiter. A small fixed entity set is
//! unescaped, consecutive `input` tokens are coalesced onto one line, and
//! every anchor with an `href` attribute is numbered in emission order.

use vstd::prelude::*;

use crate::text::{
    append_all, chars_of, copy_range, eq_pred, find_at, find_char_at, find_sub, find_sub_at,
    has_prefix, lemma_find_sub_at, match_at, replace_all, replace_chars, split_char,
    split_on_char, starts_with, string_of,
};

verus! {

/// Predicate satisfied by the two quote characters.
pub open spec fn quote_pred() -> spec_fn(char) -> bool {
    |c: char| c == '"' || c == '\''
}

/// Predicate satisfied by the literal control characters that trailing text
/// is cleansed of.
pub open spec fn ctl_pred() -> spec_fn(char) -> bool {
    |c: char| c == '\n' || c == '\r' || c == '\t'
}

/// Whether `c` is a quote character.
pub fn is_quote(c: char) -> (b: bool)
    ensures
        b == quote_pred()(c),
{
    c == '"' || c == '\''
}

/// Whether `c` is a space.
pub fn is_space(c: char) -> (b: bool)
    ensures
        b == eq_pred(' ')(c),
{
    c == ' '
}

/// The first index at or after `from` holding a quote character, or `s.len()`.
fn find_quote_at(s: &Vec<char>, from: usize) -> (r: usize)
    requires
        from <= s@.len(),
    ensures
        r == find_at(s@, from as int, quote_pred()),
{
    let mut i: usize = from;
    while i < s.len()
        invariant
            from <= i <= s@.len(),
            find_at(s@, from as int, quote_pred()) == find_at(s@, i as int, quote_pred()),
        decreases s@.len() - i,
    {
        if is_quote(s[i]) {
            assert(find_at(s@, i as int, quote_pred()) == i);
            return i;
        }
        assert(find_at(s@, i as int, quote_pred()) == find_at(s@, i + 1, quote_pred()));
        i += 1;
    }
    assert(find_at(s@, i as int, quote_pred()) == s@.len());
    i
}

/// The value of the attribute `name` in the token `tok`: from the first
/// occurrence of `name`, the text between the first quote character and the
/// next one; with no quote present, the text after the name (and an `=`,
/// when one follows) up to the next space. `None` when `name` does not occur
/// or the terminating delimiter is absent.
pub open spec fn get_attr_spec(tok: Seq<char>, name: Seq<char>) -> Option<Seq<char>> {
    let idx = find_sub_at(tok, name, 0);
    if idx == tok.len() {
        None
    } else {
        let s1 = tok.skip(idx);
        let q = find_at(s1, 0, quote_pred());
        if q < s1.len() {
            let s2 = s1.skip(q + 1);
            let q2 = find_at(s2, 0, quote_pred());
            if q2 < s2.len() {
                Some(s2.take(q2))
            } else {
                None
            }
        } else {
            let start: int = if name.len() < s1.len() && s1[name.len() as int] == '=' {
                name.len() as int + 1
            } else {
                name.len() as int
            };
            let s2 = s1.skip(start);
            let sp = find_at(s2, 0, eq_pred(' '));
            if sp < s2.len() {
                Some(s2.take(sp))
            } else {
                None
            }
        }
    }
}

/// Looks the attribute `name` up in `tok`, character vectors throughout.
fn get_attr_chars(tok: &Vec<char>, name: &Vec<char>) -> (r: Option<Vec<char>>)
    ensures
        (r is None) == (get_attr_spec(tok@, name@) is None),
        r matches Some(v) ==> get_attr_spec(tok@, name@) == Some(v@),
{
    let idx = find_sub(tok, name, 0);
    proof {
        lemma_find_sub_at(tok@, name@, 0);
    }
    if idx == tok.len() {
        return None;
    }
    assert(match_at(tok@, name@, idx as int));
    let s1 = copy_range(tok, idx, tok.len());
    assert(s1@ =~= tok@.skip(idx as int));
    let q = find_quote_at(&s1, 0);
    if q < s1.len() {
        let s2 = copy_range(&s1, q + 1, s1.len());
        assert(s2@ =~= s1@.skip(q + 1));
        let q2 = find_quote_at(&s2, 0);
        if q2 < s2.len() {
            let v = copy_range(&s2, 0, q2);
            assert(v@ =~= s2@.take(q2 as int));
            Some(v)
        } else {
            None
        }
    } else {
        let mut start: usize = name.len();
        if start < s1.len() && s1[start] == '=' {
            start += 1;
        }
        let s2 = copy_range(&s1, start, s1.len());
        assert(s2@ =~= s1@.skip(start as int));
        let sp = find_char_at(&s2, 0, ' ');
        if sp < s2.len() {
            let v = copy_range(&s2, 0, sp);
            assert(v@ =~= s2@.take(sp as int));
            Some(v)
        } else {
            None
        }
    }
}

/// Looks the attribute `attr` up in the token `input`; a missing name or a
/// missing terminating delimiter is a recoverable "no value" outcome.
pub fn get_attr(input: &str, attr: &str) -> (r: Option<String>)
    ensures
        (r is None) == (get_attr_spec(input@, attr@) is None),
        r matches Some(v) ==> get_attr_spec(input@, attr@) == Some(v@),
{
    let tok = chars_of(input);
    let name = chars_of(attr);
    match get_attr_chars(&tok, &name) {
        Some(v) => Some(string_of(&v)),
        None => None,
    }
}

/// `s` with every literal newline, carriage return and tab removed.
pub open spec fn strip_ctl(s: Seq<char>) -> Seq<char>
    decreases s.len(),
{
    if s.len() == 0 {
        Seq::empty()
    } else if ctl_pred()(s[0]) {
        strip_ctl(s.skip(1))
    } else {
        seq![s[0]] + strip_ctl(s.skip(1))
    }
}

/// The trailing text of a token: everything after the first `>`, cleansed of
/// literal control characters; a token without `>` is plain text, kept whole.
pub open spec fn trailing_text(tok: Seq<char>) -> Seq<char> {
    let g = find_at(tok, 0, eq_pred('>'));
    if g == tok.len() {
        tok
    } else {
        strip_ctl(tok.skip(g + 1))
    }
}

/// Emits the trailing text of the token `tok` into `buf`.
pub fn print_rest(tok: &Vec<char>, buf: &mut Vec<char>)
    ensures
        final(buf)@ == old(buf)@ + trailing_text(tok@),
{
    let ghost pre = buf@;
    let g = find_char_at(tok, 0, '>');
    proof {
        crate::text::lemma_find_at(tok@, 0, eq_pred('>'));
    }
    if g == tok.len() {
        append_all(buf, tok);
        return ;
    }
    let mut i: usize = g + 1;
    proof {
        assert(pre + strip_ctl(tok@.skip(g + 1)) =~= buf@ + strip_ctl(tok@.skip(g + 1)));
    }
    while i < tok.len()
        invariant
            g + 1 <= i <= tok@.len(),
            pre + strip_ctl(tok@.skip(g + 1)) == buf@ + strip_ctl(tok@.skip(i as int)),
        decreases tok@.len() - i,
    {
        let ghost cur = buf@;
        let c = tok[i];
        proof {
            assert(tok@.skip(i as int)[0] == c);
            assert(tok@.skip(i as int).skip(1) =~= tok@.skip(i + 1));
        }
        if !(c == '\n' || c == '\r' || c == '\t') {
            buf.push(c);
            assert(buf@ + strip_ctl(tok@.skip(i + 1)) =~= cur + (seq![c] + strip_ctl(
                tok@.skip(i + 1),
            )));
        }
        i += 1;
    }
    proof {
        assert(tok@.skip(i as int) =~= Seq::<char>::empty());
        assert(buf@ + strip_ctl(tok@.skip(i as int)) =~= buf@);
        assert(buf@ =~= pre + trailing_text(tok@));
    }
}

/// The character for the decimal digit `d`.
pub open spec fn digit_char(d: int) -> char {
    if d == 0 {
        '0'
    } else if d == 1 {
        '1'
    } else if d == 2 {
        '2'
    } else if d == 3 {
        '3'
    } else if d == 4 {
        '4'
    } else if d == 5 {
        '5'
    } else if d == 6 {
        '6'
    } else if d == 7 {
        '7'
    } else if d == 8 {
        '8'
    } else {
        '9'
    }
}

/// The decimal digits of `n`, most significant first.
pub open spec fn dec_digits(n: int) -> Seq<char>
    decreases n,
{
    if n < 10 {
        seq![digit_char(n)]
    } else {
        dec_digits(n / 10).push(digit_char(n % 10))
    }
}

/// The character for the decimal digit `d`.
fn digit_char_of(d: usize) -> (c: char)
    requires
        d < 10,
    ensures
        c == digit_char(d as int),
{
    if d == 0 {
        '0'
    } else if d == 1 {
        '1'
    } else if d == 2 {
        '2'
    } else if d == 3 {
        '3'
    } else if d == 4 {
        '4'
    } else if d == 5 {
        '5'
    } else if d == 6 {
        '6'
    } else if d == 7 {
        '7'
    } else if d == 8 {
        '8'
    } else {
        '9'
    }
}

/// Appends the decimal digits of `n` to `buf`.
fn push_dec_digits(buf: &mut Vec<char>, n: usize)
    ensures
        final(buf)@ == old(buf)@ + dec_digits(n as int),
    decreases n,
{
    let ghost pre = buf@;
    if n < 10 {
        buf.push(digit_char_of(n));
        assert(buf@ =~= pre + seq![digit_char(n as int)]);
    } else {
        push_dec_digits(buf, n / 10);
        buf.push(digit_char_of(n % 10));
        assert(buf@ =~= pre + dec_digits(n as int / 10).push(digit_char(n as int % 10)));
    }
}

/// How many times `c` occurs in `s`.
pub open spec fn count_char(s: Seq<char>, c: char) -> int
    decreases s.len(),
{
    if s.len() == 0 {
        0
    } else {
        count_char(s.skip(1), c) + if s[0] == c {
            1int
        } else {
            0int
        }
    }
}

/// The count of a character lies between 0 and the length, strictly below it
/// when the last character is another one.
pub proof fn lemma_count_char_bounds(s: Seq<char>, c: char)
    ensures
        0 <= count_char(s, c) <= s.len(),
        s.len() > 0 && s[s.len() - 1] != c ==> count_char(s, c) < s.len(),
    decreases s.len(),
{
    if s.len() > 0 {
        lemma_count_char_bounds(s.skip(1), c);
        assert(s.len() > 1 ==> s.skip(1)[s.skip(1).len() - 1] == s[s.len() - 1]);
    }
}

/// The number of newline-delimited lines in `s`: every newline ends one, and
/// a nonempty tail without a final newline is one more.
pub open spec fn line_count_spec(s: Seq<char>) -> int {
    if s.len() == 0 {
        0
    } else {
        count_char(s, '\n') + if s[s.len() - 1] == '\n' {
            0int
        } else {
            1int
        }
    }
}

/// The newline-delimited lines of `s`: the pieces of a split on `'\n'`,
/// except that a final newline closes its line rather than opening an empty
/// one, and empty text holds no line at all.
pub open spec fn lines_spec(s: Seq<char>) -> Seq<Seq<char>> {
    let pieces = split_char(s, '\n');
    if s.len() == 0 {
        Seq::empty()
    } else if s[s.len() - 1] == '\n' {
        pieces.take(pieces.len() - 1)
    } else {
        pieces
    }
}

/// A split on `d` yields one piece more than `s` holds occurrences of `d`.
pub proof fn lemma_split_char_len(s: Seq<char>, d: char)
    ensures
        split_char(s, d).len() == count_char(s, d) + 1,
    decreases s.len(),
{
    if s.len() > 0 {
        lemma_split_char_len(s.skip(1), d);
        crate::text::lemma_split_char_nonempty(s.skip(1), d);
    }
}

/// The line count is the number of newline-delimited lines present.
pub proof fn lemma_line_count_is_lines(s: Seq<char>)
    ensures
        line_count_spec(s) == lines_spec(s).len(),
{
    lemma_split_char_len(s, '\n');
    lemma_count_char_bounds(s, '\n');
}

/// Counts the newline-delimited lines present in `buf`.
pub fn line_count_of(buf: &Vec<char>) -> (n: usize)
    ensures
        n == line_count_spec(buf@),
{
    let mut cnt: usize = 0;
    let mut i: usize = 0;
    assert(buf@.skip(0) =~= buf@);
    while i < buf.len()
        invariant
            i <= buf@.len(),
            cnt <= i,
            count_char(buf@, '\n') == cnt + count_char(buf@.skip(i as int), '\n'),
        decreases buf@.len() - i,
    {
        proof {
            assert(buf@.skip(i as int)[0] == buf@[i as int]);
            assert(buf@.skip(i as int).skip(1) =~= buf@.skip(i + 1));
            lemma_count_char_bounds(buf@.skip(i + 1), '\n');
        }
        if buf[i] == '\n' {
            cnt += 1;
        }
        i += 1;
    }
    proof {
        assert(buf@.skip(i as int) =~= Seq::<char>::empty());
        lemma_count_char_bounds(buf@, '\n');
    }
    if buf.len() == 0 {
        0
    } else if buf[buf.len() - 1] == '\n' {
        cnt
    } else {
        cnt + 1
    }
}

/// The placeholder a form field is rendered as: `__name__`, or
/// `__name=value__` when a `value` attribute is present; nothing without a
/// `name` attribute.
pub open spec fn input_placeholder(tok: Seq<char>) -> Seq<char> {
    match get_attr_spec(tok, "name"@) {
        Some(nm) => {
            let val = match get_attr_spec(tok, "value"@) {
                Some(v) => seq!['='] + v,
                None => Seq::<char>::empty(),
            };
            seq!['_', '_'] + nm + val + seq!['_', '_']
        },
        None => Seq::<char>::empty(),
    }
}

/// The text a single token renders to, together with the anchor target it
/// contributes (at most one). `idx` is the index the next anchor receives.
/// Dispatch is on the tag-name prefix; an unrecognized token passes its
/// trailing text through verbatim.
pub open spec fn render_token(tok: Seq<char>, idx: int) -> (Seq<char>, Seq<Seq<char>>) {
    if starts_with(tok, "br>"@) {
        (seq!['\n'] + trailing_text(tok), Seq::<Seq<char>>::empty())
    } else if starts_with(tok, "p>"@) {
        (seq!['\n'] + trailing_text(tok), Seq::<Seq<char>>::empty())
    } else if starts_with(tok, "/p>"@) {
        (trailing_text(tok) + seq!['\n'], Seq::<Seq<char>>::empty())
    } else if starts_with(tok, "input"@) {
        (input_placeholder(tok) + trailing_text(tok), Seq::<Seq<char>>::empty())
    } else if starts_with(tok, "b>"@) {
        (crate::style::styled_bold(tok.skip(2)), Seq::<Seq<char>>::empty())
    } else if starts_with(tok, "i>"@) {
        (crate::style::styled_italic(tok.skip(2)), Seq::<Seq<char>>::empty())
    } else if starts_with(tok, "script"@) || starts_with(tok, "style"@) || starts_with(
        tok,
        "option"@,
    ) {
        (Seq::<char>::empty(), Seq::<Seq<char>>::empty())
    } else if starts_with(tok, "tr"@) {
        (seq!['\n'] + trailing_text(tok), Seq::<Seq<char>>::empty())
    } else if starts_with(tok, "a "@) {
        match get_attr_spec(tok, "href"@) {
            Some(h) => (
                seq!['['] + dec_digits(idx) + seq![':', ' '] + trailing_text(tok) + seq![']'],
                seq![h],
            ),
            None => (Seq::<char>::empty(), Seq::<Seq<char>>::empty()),
        }
    } else if starts_with(tok, "span"@) || starts_with(tok, "h2"@) {
        (trailing_text(tok) + seq!['\n'], Seq::<Seq<char>>::empty())
    } else {
        (trailing_text(tok), Seq::<Seq<char>>::empty())
    }
}

/// Renders one token into `buf`, appending the anchor target it contributes,
/// if any, to `anchors`; the anchor's index is the count of anchors so far.
pub fn write_elem(tok: &Vec<char>, buf: &mut Vec<char>, anchors: &mut Vec<String>)
    ensures
        final(buf)@ == old(buf)@ + render_token(tok@, old(anchors)@.len() as int).0,
        final(anchors).deep_view() == old(anchors).deep_view() + render_token(
            tok@,
            old(anchors)@.len() as int,
        ).1,
{
    let ghost pre = buf@;
    let ghost adv = anchors.deep_view();
    let mut same_anchors = true;
    if has_prefix(tok, &chars_of("br>")) {
        buf.push('\n');
        print_rest(tok, buf);
        assert(buf@ =~= pre + (seq!['\n'] + trailing_text(tok@)));
    } else if has_prefix(tok, &chars_of("p>")) {
        buf.push('\n');
        print_rest(tok, buf);
        assert(buf@ =~= pre + (seq!['\n'] + trailing_text(tok@)));
    } else if has_prefix(tok, &chars_of("/p>")) {
        print_rest(tok, buf);
        buf.push('\n');
        assert(buf@ =~= pre + (trailing_text(tok@) + seq!['\n']));
    } else if has_prefix(tok, &chars_of("input")) {
        if let Some(nm) = get_attr_chars(tok, &chars_of("name")) {
            buf.push('_');
            buf.push('_');
            append_all(buf, &nm);
            if let Some(v) = get_attr_chars(tok, &chars_of("value")) {
                buf.push('=');
                append_all(buf, &v);
            }
            buf.push('_');
            buf.push('_');
        }
        assert(buf@ =~= pre + input_placeholder(tok@));
        print_rest(tok, buf);
        assert(buf@ =~= pre + (input_placeholder(tok@) + trailing_text(tok@)));
    } else if has_prefix(tok, &chars_of("b>")) {
        proof {
            reveal_strlit("b>");
        }
        let text = copy_range(tok, 2, tok.len());
        assert(text@ =~= tok@.skip(2));
        if text.len() > 0 {
            let styled = crate::style::bold_chars(&text);
            append_all(buf, &styled);
        }
        assert(buf@ =~= pre + crate::style::styled_bold(tok@.skip(2)));
    } else if has_prefix(tok, &chars_of("i>")) {
        proof {
            reveal_strlit("i>");
        }
        let text = copy_range(tok, 2, tok.len());
        assert(text@ =~= tok@.skip(2));
        if text.len() > 0 {
            let styled = crate::style::italic_chars(&text);
            append_all(buf, &styled);
        }
        assert(buf@ =~= pre + crate::style::styled_italic(tok@.skip(2)));
    } else if has_prefix(tok, &chars_of("script")) || has_prefix(tok, &chars_of("style"))
        || has_prefix(tok, &chars_of("option")) {
        assert(buf@ =~= pre + Seq::<char>::empty());
    } else if has_prefix(tok, &chars_of("tr")) {
        buf.push('\n');
        print_rest(tok, buf);
        assert(buf@ =~= pre + (seq!['\n'] + trailing_text(tok@)));
    } else if has_prefix(tok, &chars_of("a ")) {
        if let Some(h) = get_attr_chars(tok, &chars_of("href")) {
            buf.push('[');
            push_dec_digits(buf, anchors.len());
            buf.push(':');
            buf.push(' ');
            print_rest(tok, buf);
            buf.push(']');
            anchors.push(string_of(&h));
            same_anchors = false;
            assert(buf@ =~= pre + (seq!['['] + dec_digits(adv.len() as int) + seq![':', ' ']
                + trailing_text(tok@) + seq![']']));
            assert(anchors.deep_view() =~~= adv.push(h@));
            assert(adv.push(h@) =~~= adv + seq![h@]);
        } else {
            assert(buf@ =~= pre + Seq::<char>::empty());
        }
    } else if has_prefix(tok, &chars_of("span")) || has_prefix(tok, &chars_of("h2")) {
        print_rest(tok, buf);
        buf.push('\n');
        assert(buf@ =~= pre + (trailing_text(tok@) + seq!['\n']));
    } else {
        print_rest(tok, buf);
    }
    if same_anchors {
        assert(anchors.deep_view() =~~= adv + Seq::<Seq<char>>::empty());
    }
}

/// The text and anchor list a token stream renders to. `in_group` says
/// whether the previous token was an `input` token: consecutive `input`
/// tokens share one output line, closed by a newline the moment a token of
/// another kind arrives, and at the end of the stream. `idx` is the index
/// the next anchor receives.
pub open spec fn render_stream(toks: Seq<Seq<char>>, in_group: bool, idx: int) -> (
    Seq<char>,
    Seq<Seq<char>>,
)
    decreases toks.len(),
{
    if toks.len() == 0 {
        (
            if in_group {
                seq!['\n']
            } else {
                Seq::<char>::empty()
            },
            Seq::<Seq<char>>::empty(),
        )
    } else {
        let tok = toks[0];
        let cur = starts_with(tok, "input"@);
        let close: Seq<char> = if in_group && !cur {
            seq!['\n']
        } else {
            Seq::<char>::empty()
        };
        let rt = render_token(tok, idx);
        let rest = render_stream(toks.skip(1), cur, idx + rt.1.len());
        (close + rt.0 + rest.0, rt.1 + rest.1)
    }
}

/// The anchor indices a token stream emits, in emission order: a token
/// contributes its current `idx` exactly when it contributes an anchor.
pub open spec fn anchor_indices(toks: Seq<Seq<char>>, idx: int) -> Seq<int>
    decreases toks.len(),
{
    if toks.len() == 0 {
        Seq::empty()
    } else {
        let rt = render_token(toks[0], idx);
        let own: Seq<int> = if rt.1.len() > 0 {
            seq![idx]
        } else {
            Seq::empty()
        };
        own + anchor_indices(toks.skip(1), idx + rt.1.len())
    }
}

/// Anchor indices are consecutive: one index per collected anchor, and the
/// j-th anchor of the stream carries the index `idx + j`, whatever the
/// grouping state. A token that contributes no anchor (in particular an `a`
/// element without an `href` attribute) consumes no index.
pub proof fn lemma_anchor_indices(toks: Seq<Seq<char>>, g: bool, idx: int)
    ensures
        anchor_indices(toks, idx).len() == render_stream(toks, g, idx).1.len(),
        forall|j: int|
            0 <= j < anchor_indices(toks, idx).len() ==> anchor_indices(toks, idx)[j] == idx + j,
    decreases toks.len(),
{
    if toks.len() > 0 {
        let rt = render_token(toks[0], idx);
        assert(rt.1.len() == 0 || rt.1.len() == 1);
        let cur = starts_with(toks[0], "input"@);
        lemma_anchor_indices(toks.skip(1), cur, idx + rt.1.len());
    }
}

/// The anchors of a transduced page are numbered 0, 1, 2, ... in emission
/// order: the j-th anchor marker placed in the text carries the index j.
pub proof fn lemma_transduce_anchor_indices(m: Seq<char>)
    ensures
        ({
            let ids = anchor_indices(split_char(pre_entities(m), '<'), 0);
            &&& ids.len() == transduce_anchors(m).len()
            &&& forall|j: int| 0 <= j < ids.len() ==> ids[j] == j
        }),
{
    lemma_anchor_indices(split_char(pre_entities(m), '<'), false, 0);
}

/// The entity replacements made before tokenizing: `&nbsp;` and `&quot;`
/// may appear inside attribute values and must not survive to the split.
pub open spec fn pre_entities(m: Seq<char>) -> Seq<char> {
    replace_all(replace_all(m, "&nbsp;"@, "\u{a0}"@), "&quot;"@, "\""@)
}

/// The entity replacements made on the rendered buffer: `&lt;` and `&gt;`
/// are decoded only after the split, so that they are never mistaken for
/// tag delimiters.
pub open spec fn post_entities(t: Seq<char>) -> Seq<char> {
    replace_all(replace_all(t, "&lt;"@, "<"@), "&gt;"@, ">"@)
}

/// The text buffer `transduce` produces for the markup `m`.
pub open spec fn transduce_text(m: Seq<char>) -> Seq<char> {
    post_entities(render_stream(split_char(pre_entities(m), '<'), false, 0).0)
}

/// The anchor targets `transduce` collects from the markup `m`.
pub open spec fn transduce_anchors(m: Seq<char>) -> Seq<Seq<char>> {
    render_stream(split_char(pre_entities(m), '<'), false, 0).1
}

/// A rendered page: the styled text buffer, the count of its lines, the URL
/// it was fetched from, and the anchor targets in emission order.
pub struct Page {
    pub buf: String,
    pub line_count: usize,
    pub url: String,
    pub anchors: Vec<String>,
}

impl Page {
    /// A page is well formed when its recorded line count matches its text.
    pub open spec fn wf(self) -> bool {
        self.line_count == line_count_spec(self.buf@)
    }

    /// The empty page.
    pub fn new() -> (page: Page)
        ensures
            page.wf(),
            page.buf@ == Seq::<char>::empty(),
            page.line_count == 0,
            page.url@ == Seq::<char>::empty(),
            page.anchors@.len() == 0,
    {
        Page { buf: String::new(), line_count: 0, url: String::new(), anchors: Vec::new() }
    }
}

/// Converts raw markup into a rendered page. Total: any input, however
/// malformed, yields a page, possibly with an empty anchor list. The caller
/// fills in the source URL from its fetch metadata.
pub fn transduce(markup: &str) -> (page: Page)
    ensures
        page.wf(),
        page.buf@ == transduce_text(markup@),
        page.anchors.deep_view() == transduce_anchors(markup@),
        page.url@ == Seq::<char>::empty(),
{
    proof {
        reveal_strlit("&nbsp;");
        reveal_strlit("&quot;");
        reveal_strlit("&lt;");
        reveal_strlit("&gt;");
    }
    let m = chars_of(markup);
    let m1 = replace_chars(&m, &chars_of("&nbsp;"), &chars_of("\u{a0}"));
    let m2 = replace_chars(&m1, &chars_of("&quot;"), &chars_of("\""));
    let toks = split_on_char(&m2, '<');
    let ghost tseq = toks.deep_view();

    let mut buf: Vec<char> = Vec::new();
    let mut anchors: Vec<String> = Vec::new();
    let mut in_group = false;
    let mut t: usize = 0;
    let p_input = chars_of("input");
    proof {
        assert(tseq.skip(0) =~~= tseq);
        assert(Seq::<char>::empty() + render_stream(tseq, false, 0).0 =~= render_stream(
            tseq,
            false,
            0,
        ).0);
        assert(Seq::<Seq<char>>::empty() + render_stream(tseq, false, 0).1 =~~= render_stream(
            tseq,
            false,
            0,
        ).1);
    }
    while t < toks.len()
        invariant
            t <= toks@.len(),
            tseq == toks.deep_view(),
            p_input@ == "input"@,
            anchors.deep_view().len() == anchors@.len(),
            render_stream(tseq, false, 0).0 == buf@ + render_stream(
                tseq.skip(t as int),
                in_group,
                anchors@.len() as int,
            ).0,
            render_stream(tseq, false, 0).1 == anchors.deep_view() + render_stream(
                tseq.skip(t as int),
                in_group,
                anchors@.len() as int,
            ).1,
        decreases toks@.len() - t,
    {
        let ghost rem = tseq.skip(t as int);
        let ghost idx0 = anchors@.len() as int;
        let ghost pre_buf = buf@;
        let ghost pre_anchors = anchors.deep_view();
        proof {
            assert(rem[0] == tseq[t as int]);
            assert(tseq[t as int] == toks@[t as int]@);
            assert(rem.skip(1) =~~= tseq.skip(t + 1));
        }
        let cur = has_prefix(&toks[t], &p_input);
        if in_group && !cur {
            buf.push('\n');
        }
        let ghost close: Seq<char> = if in_group && !cur {
            seq!['\n']
        } else {
            Seq::<char>::empty()
        };
        proof {
            assert(buf@ =~= pre_buf + close);
        }
        write_elem(&toks[t], &mut buf, &mut anchors);
        proof {
            let rt = render_token(rem[0], idx0);
            let rest = render_stream(rem.skip(1), cur, idx0 + rt.1.len());
            assert(render_stream(rem, in_group, idx0).0 == close + rt.0 + rest.0);
            assert(render_stream(rem, in_group, idx0).1 == rt.1 + rest.1);
            assert(buf@ =~= pre_buf + (close + rt.0));
            assert(pre_buf + (close + rt.0) + rest.0 =~= pre_buf + (close + rt.0 + rest.0));
            assert(pre_anchors + (rt.1 + rest.1) =~~= (pre_anchors + rt.1) + rest.1);
            assert(anchors.deep_view() =~~= pre_anchors + rt.1);
        }
        in_group = cur;
        t += 1;
    }
    proof {
        assert(tseq.skip(t as int) =~~= Seq::<Seq<char>>::empty());
    }
    if in_group {
        buf.push('\n');
    }
    proof {
        assert(buf@ =~= render_stream(tseq, false, 0).0);
        assert(anchors.deep_view() =~~= render_stream(tseq, false, 0).1);
    }
    let out1 = replace_chars(&buf, &chars_of("&lt;"), &chars_of("<"));
    let out2 = replace_chars(&out1, &chars_of("&gt;"), &chars_of(">"));
    let line_count = line_count_of(&out2);
    Page { buf: string_of(&out2), line_count, url: String::new(), anchors }
}

} // verus!

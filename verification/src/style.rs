//! Terminal text styling. The transducer marks bold and italic spans with the
//! SGR control sequences that crossterm emits when a styled value is printed.

use crossterm::style::Stylize;
use vstd::prelude::*;

verus! {

/// The SGR sequence that switches bold (increased intensity) on.
pub open spec fn sgr_bold_on() -> Seq<char> {
    seq!['\u{1b}', '[', '1', 'm']
}

/// The SGR sequence that switches italic on.
pub open spec fn sgr_italic_on() -> Seq<char> {
    seq!['\u{1b}', '[', '3', 'm']
}

/// The SGR sequence that resets all attributes.
pub open spec fn sgr_reset() -> Seq<char> {
    seq!['\u{1b}', '[', '0', 'm']
}

/// `text` wrapped in the bold-on and reset sequences; empty text stays empty.
pub open spec fn styled_bold(text: Seq<char>) -> Seq<char> {
    if text.len() == 0 {
        Seq::empty()
    } else {
        sgr_bold_on() + text + sgr_reset()
    }
}

/// `text` wrapped in the italic-on and reset sequences; empty text stays empty.
pub open spec fn styled_italic(text: Seq<char>) -> Seq<char> {
    if text.len() == 0 {
        Seq::empty()
    } else {
        sgr_italic_on() + text + sgr_reset()
    }
}

/// Relies on crossterm's `Stylize::bold` and the `Display` of `StyledContent`:
/// printing a span whose only attribute is `Bold` yields the SGR bold-on
/// sequence (`CSI 1 m`), the text, and the SGR reset sequence (`CSI 0 m`).
#[verifier::external_body]
pub(crate) fn bold_chars(text: &Vec<char>) -> (r: Vec<char>)
    requires
        text@.len() > 0,
    ensures
        r@ == sgr_bold_on() + text@ + sgr_reset(),
{
    let s: String = text.iter().collect();
    format!("{}", s.as_str().bold()).chars().collect()
}

/// Relies on crossterm's `Stylize::italic` and the `Display` of `StyledContent`:
/// printing a span whose only attribute is `Italic` yields the SGR italic-on
/// sequence (`CSI 3 m`), the text, and the SGR reset sequence (`CSI 0 m`).
#[verifier::external_body]
pub(crate) fn italic_chars(text: &Vec<char>) -> (r: Vec<char>)
    requires
        text@.len() > 0,
    ensures
        r@ == sgr_italic_on() + text@ + sgr_reset(),
{
    let s: String = text.iter().collect();
    format!("{}", s.as_str().italic()).chars().collect()
}

} // verus!

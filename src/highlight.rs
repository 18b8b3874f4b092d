//! Syntax highlighting of fenced code through `syntect`.

use vstd::prelude::*;
use syntect::easy::HighlightLines;
use syntect::highlighting::ThemeSet;
use syntect::parsing::SyntaxSet;
use syntect::util::{as_24_bit_terminal_escaped, LinesWithEndings};

verus! {

/// Whether `syntect`'s default theme set holds a theme of this name.
pub uninterp spec fn builtin_theme(name: Seq<char>) -> bool;

/// What `syntect` makes of `code` in the language `lang` (grammar found by file extension,
/// plain text where none is) with the theme `theme`, as 24-bit terminal escapes, with the
/// theme's background where `bg`.
pub uninterp spec fn highlighted(lang: Seq<char>, code: Seq<char>, theme: Seq<char>, bg: bool) -> Seq<char>;

/// Relies on `ThemeSet::load_defaults` and the `themes` map it returns: whether a theme of
/// that name is among the defaults.
#[verifier::external_body]
pub(crate) fn has_theme(name: &str) -> (r: bool)
    ensures
        r == builtin_theme(name@),
{
    ThemeSet::load_defaults().themes.contains_key(name)
}

/// Relies on `syntect`'s documented terminal pipeline: `SyntaxSet::load_defaults_newlines`,
/// `find_syntax_by_extension` (plain text where it finds none), `HighlightLines::highlight_line`
/// on each line of `LinesWithEndings`, and `as_24_bit_terminal_escaped`. A line that fails to
/// highlight contributes nothing.
#[verifier::external_body]
pub(crate) fn highlight(lang: &str, code: &str, theme: &str, bg: bool) -> (r: String)
    requires
        builtin_theme(theme@),
    ensures
        r@ == highlighted(lang@, code@, theme@, bg),
{
    let ps = SyntaxSet::load_defaults_newlines();
    let ts = ThemeSet::load_defaults();
    let syntax = ps.find_syntax_by_extension(lang).unwrap_or(ps.find_syntax_plain_text());
    let mut h = HighlightLines::new(syntax, &ts.themes[theme]);
    let mut out = String::new();
    for line in LinesWithEndings::from(code) {
        let ranges = h.highlight_line(line, &ps).unwrap_or_default();
        out.push_str(&as_24_bit_terminal_escaped(&ranges[..], bg));
    }
    out
}

} // verus!

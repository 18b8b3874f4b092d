//! The whole rendering pass of a slide: styling, then layout.

use vstd::prelude::*;
use crate::layout::{align_content, laid_out, vertical_blank, LayoutOptions, Rendered};
use crate::style::StyleConfig;
use crate::styler::{codes, document_text, style_document_chars, CodeRegistry, MdNode};
use crate::text::{lines_of, string_of};

verus! {

/// A rendered slide and the code blocks it holds.
pub struct Slide {
    pub rendered: Rendered,
    pub codes: CodeRegistry,
}

/// Styles and lays out a parsed slide. Fails only where the styled text is too long for its
/// line count and padding to be counted in a `usize`.
pub fn prettify(
    document: &MdNode,
    style: &StyleConfig,
    options: &LayoutOptions,
    highlight_line_num: u32,
    width: u16,
    height: u16,
) -> (r: Result<Slide, String>)
    ensures
        ({
            let t = document_text(*document, style@);
            if t.len() + 65536 <= usize::MAX {
                r matches Ok(s) && s.codes@ == codes(*document)
                    && s.rendered.text@ == laid_out(t, *options, highlight_line_num as nat, width as nat, height as nat)
                    && s.rendered.upper_bound == lines_of(t).len() + (if options.boxed { 2nat } else { 0 })
                        + vertical_blank(t, *options, highlight_line_num as nat, width as nat, height as nat)
                    && s.rendered.lower_bound == vertical_blank(t, *options, highlight_line_num as nat, width as nat, height as nat)
            } else {
                r is Err
            }
        }),
{
    let (text, codes) = style_document_chars(document, style);
    if text.len() > usize::MAX - 65536 {
        return Err(String::from_str("slide too large to lay out"));
    }
    let styled = string_of(&text);
    let rendered = align_content(styled.as_str(), options, highlight_line_num, width, height);
    Ok(Slide { rendered, codes })
}

} // verus!

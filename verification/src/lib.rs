//! Rendering of a Markdown document tree to HTML, together with the slide
//! document (a front section and an ordered list of content sections) that
//! the same walk over the tree derives from the headings it meets.

use vstd::prelude::*;

pub mod ctype;
pub mod writer;
pub mod escape;
pub mod tagfilter;
pub mod decimal;
pub mod text;
pub mod anchorizer;
pub mod nodes;
pub mod metadata;
pub mod options;
pub mod slide;
pub mod rules;
pub mod walk;
pub mod html_slide_format;

pub use anchorizer::Anchorizer;
pub use html_slide_format::format_document_slide as format_slide;
pub use options::{ComrakExtensionOptions, ComrakOptions, ComrakRenderOptions};

verus! {

/// The number after `a`.
pub fn test_echo(a: i32) -> (r: i32)
    requires
        a < i32::MAX,
    ensures
        r == a + 1,
{
    a + 1
}

} // verus!

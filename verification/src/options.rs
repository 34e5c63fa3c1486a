//! The options of a render pass.

use vstd::prelude::*;

verus! {

/// Options to select extensions.
#[derive(Debug)]
pub struct ComrakExtensionOptions {
    /// Enables the strikethrough extension.
    pub strikethrough: bool,
    /// Enables the tag filter: raw HTML of a few elements is made harmless.
    pub tagfilter: bool,
    /// Enables the table extension.
    pub table: bool,
    /// Enables the autolink extension.
    pub autolink: bool,
    /// Enables the task list items extension.
    pub tasklist: bool,
    /// Enables the superscript extension.
    pub superscript: bool,
    /// Enables the header IDs extension: each heading gets an anchor, whose
    /// id starts with the given prefix.
    pub header_ids: Option<String>,
    /// Enables the footnotes extension.
    pub footnotes: bool,
    /// Enables the description lists extension.
    pub description_lists: bool,
}

/// Options for formatter functions.
#[derive(Debug, Clone, Copy)]
pub struct ComrakRenderOptions {
    /// Soft line breaks in the input become hard line breaks in the output.
    pub hardbreaks: bool,
    /// GitHub-style `<pre lang="xyz">` is used for fenced code blocks with
    /// info tags.
    pub github_pre_lang: bool,
    /// Allow rendering of raw HTML and potentially dangerous links.
    pub unsafe_: bool,
    /// Escape raw HTML instead of clobbering it.
    pub escape: bool,
}

/// Options for both the extensions and the formatter.
#[derive(Debug)]
pub struct ComrakOptions {
    /// Enable extensions.
    pub extension: ComrakExtensionOptions,
    /// Configure render-time options.
    pub render: ComrakRenderOptions,
}

impl Default for ComrakExtensionOptions {
    fn default() -> (o: Self)
        ensures
            o == (ComrakExtensionOptions {
                strikethrough: false,
                tagfilter: false,
                table: false,
                autolink: false,
                tasklist: false,
                superscript: false,
                header_ids: None,
                footnotes: false,
                description_lists: false,
            }),
    {
        ComrakExtensionOptions {
            strikethrough: false,
            tagfilter: false,
            table: false,
            autolink: false,
            tasklist: false,
            superscript: false,
            header_ids: None,
            footnotes: false,
            description_lists: false,
        }
    }
}

impl Default for ComrakRenderOptions {
    fn default() -> (o: Self)
        ensures
            o == (ComrakRenderOptions {
                hardbreaks: false,
                github_pre_lang: false,
                unsafe_: false,
                escape: false,
            }),
    {
        ComrakRenderOptions {
            hardbreaks: false,
            github_pre_lang: false,
            unsafe_: false,
            escape: false,
        }
    }
}

impl Default for ComrakOptions {
    fn default() -> (o: Self)
        ensures
            o.extension == (ComrakExtensionOptions {
                strikethrough: false,
                tagfilter: false,
                table: false,
                autolink: false,
                tasklist: false,
                superscript: false,
                header_ids: None,
                footnotes: false,
                description_lists: false,
            }),
            o.render == (ComrakRenderOptions {
                hardbreaks: false,
                github_pre_lang: false,
                unsafe_: false,
                escape: false,
            }),
    {
        ComrakOptions {
            extension: ComrakExtensionOptions::default(),
            render: ComrakRenderOptions::default(),
        }
    }
}

/// The options for slides: every extension but header ids is switched on,
/// and soft breaks are rendered as hard breaks.
pub fn comrak_opt() -> (opts: ComrakOptions)
    ensures
        opts.extension == (ComrakExtensionOptions {
            strikethrough: true,
            tagfilter: true,
            table: true,
            autolink: true,
            tasklist: true,
            superscript: true,
            header_ids: None,
            footnotes: true,
            description_lists: true,
        }),
        opts.render == (ComrakRenderOptions {
            hardbreaks: true,
            github_pre_lang: false,
            unsafe_: false,
            escape: false,
        }),
{
    ComrakOptions {
        extension: ComrakExtensionOptions {
            strikethrough: true,
            tagfilter: true,
            table: true,
            autolink: true,
            tasklist: true,
            superscript: true,
            footnotes: true,
            description_lists: true,
            ..ComrakExtensionOptions::default()
        },
        render: ComrakRenderOptions { hardbreaks: true, ..ComrakRenderOptions::default() },
    }
}

} // verus!

//! The render pass: one walk over the document tree that emits HTML and
//! builds the slide document.

use vstd::prelude::*;
use vstd::slice::slice_subrange;
use vstd::string::StringExecFns;
use vstd::string::StringSliceAdditionalSpecFns;
use crate::anchorizer::Anchorizer;
use crate::ctype::isspace;
use crate::decimal::{decimal, write_decimal};
use crate::escape::{
    escaped,
    hex_digit,
    href_escape_byte,
    href_escaped,
    href_safe,
    lemma_escaped_run,
    lemma_escaped_step,
    lemma_href_escaped_run,
    lemma_href_escaped_step,
    needs_escaped,
};
use crate::nodes::{
    children_events,
    events,
    AstNode,
    Context,
    Event,
    ListType,
    NodeCodeBlock,
    NodeList,
    NodeValue,
    TableAlignment,
    Visit,
};
use crate::options::ComrakOptions;
use crate::rules::{
    children_text,
    collected_text,
    html_block_output,
    html_inline_output,
    html_run,
    html_step,
    in_table,
    table_alignments,
    visit_ok,
    word_end,
    FormatterView,
};
use crate::slide::{
    headings,
    lemma_headings_counted,
    lemma_section_count,
    meta_of,
    slide_document,
    slide_run,
    slide_step,
    Meta,
    SlideHtmlDom,
    SlideSectionHtmlDom,
};
use crate::walk::{
    can_render,
    frame_events,
    lemma_can_render,
    lemma_stack_push,
    renderable,
    stack_events,
    step_ok,
    Frame,
    Phase,
};
use crate::tagfilter::{dangerous_url, tagfilter, tagfilter_block};
use crate::text::from_utf8_lossy;
use crate::writer::WriteWithLast;

verus! {

/// A render pass in progress: the output, the options, and what the pass
/// has to remember from one node to the next.
pub struct HtmlSlideFormatter<'o> {
    output: WriteWithLast,
    options: &'o ComrakOptions,
    anchorizer: Anchorizer,
    footnote_ix: u32,
    written_footnote_ix: u32,
    last_is_effect: bool,
}

impl<'o> View for HtmlSlideFormatter<'o> {
    type V = FormatterView;

    closed spec fn view(&self) -> FormatterView {
        FormatterView {
            out: self.output@,
            anchors: self.anchorizer@,
            footnote_ix: self.footnote_ix as nat,
            written_footnote_ix: self.written_footnote_ix as nat,
            last_is_effect: self.last_is_effect,
        }
    }
}

impl<'o> HtmlSlideFormatter<'o> {
    /// The output buffer is consistent, and no back reference was written
    /// for a footnote that is yet to come.
    pub closed spec fn wf(&self) -> bool {
        &&& self.output.wf()
        &&& self.written_footnote_ix <= self.footnote_ix
    }

    /// The options of the pass.
    pub closed spec fn options(&self) -> &'o ComrakOptions {
        self.options
    }

    /// A pass that writes behind what `output` holds.
    pub fn new(options: &'o ComrakOptions, output: WriteWithLast) -> (f: Self)
        requires
            output.wf(),
        ensures
            f.wf(),
            f.options() == options,
            f@ == FormatterView::start(output@),
    {
        HtmlSlideFormatter {
            options,
            output,
            anchorizer: Anchorizer::new(),
            footnote_ix: 0,
            written_footnote_ix: 0,
            last_is_effect: false,
        }
    }

    /// Ends the pass and hands out the output.
    pub fn into_output(self) -> (output: WriteWithLast)
        requires
            self.wf(),
        ensures
            output.wf(),
            output@ == self@.out,
    {
        self.output
    }

    fn lit(&mut self, s: &str)
        requires
            old(self).wf(),
        ensures
            final(self).wf(),
            final(self).options() == old(self).options(),
            final(self)@ == old(self)@.put(s.spec_bytes()),
    {
        self.output.write_str(s);
    }

    fn bytes(&mut self, b: &[u8])
        requires
            old(self).wf(),
        ensures
            final(self).wf(),
            final(self).options() == old(self).options(),
            final(self)@ == old(self)@.put(b@),
    {
        self.output.write(b);
    }

    fn number(&mut self, n: u64)
        requires
            old(self).wf(),
        ensures
            final(self).wf(),
            final(self).options() == old(self).options(),
            final(self)@ == old(self)@.put(decimal(n as nat)),
    {
        write_decimal(&mut self.output, n);
    }

    /// Starts a new line unless the output is at the start of one.
    pub fn cr(&mut self)
        requires
            old(self).wf(),
        ensures
            final(self).wf(),
            final(self).options() == old(self).options(),
            final(self)@ == old(self)@.cr(),
    {
        if !self.output.last_was_lf() {
            self.output.write_byte(10);
            assert(self@.out =~= old(self)@.out + seq![10u8]);
        }
    }

    /// Writes `buffer` as text: `"`, `&`, `<` and `>` are replaced by their
    /// entities, all else is copied.
    pub fn escape(&mut self, buffer: &[u8])
        requires
            old(self).wf(),
        ensures
            final(self).wf(),
            final(self).options() == old(self).options(),
            final(self)@ == old(self)@.put(escaped(buffer@)),
    {
        let size: usize = buffer.len();
        let mut offset: usize = 0;
        let mut i: usize = 0;
        assert(buffer@.subrange(0, 0) =~= Seq::<u8>::empty());
        assert(old(self)@.out + escaped(Seq::<u8>::empty()) =~= old(self)@.out);
        while i < size
            invariant
                offset <= i <= size,
                size == buffer@.len(),
                self.wf(),
                self.options() == old(self).options(),
                self@ == old(self)@.put(escaped(buffer@.subrange(0, offset as int))),
                forall|k: int| offset <= k < i ==> !needs_escaped(buffer@[k]),
            decreases size - i,
        {
            let byte: u8 = buffer[i];
            if byte == 34 || byte == 38 || byte == 60 || byte == 62 {
                let esc: &str = if byte == 34 {
                    "&quot;"
                } else if byte == 38 {
                    "&amp;"
                } else if byte == 60 {
                    "&lt;"
                } else {
                    "&gt;"
                };
                proof {
                    lemma_escaped_run(buffer@, offset as int, i as int);
                    lemma_escaped_step(buffer@, i as int);
                }
                self.bytes(slice_subrange(buffer, offset, i));
                self.lit(esc);
                offset = i + 1;
                assert(self@.out =~= old(self)@.out + escaped(buffer@.subrange(0, offset as int)));
            }
            i += 1;
        }
        proof {
            lemma_escaped_run(buffer@, offset as int, size as int);
            assert(buffer@.subrange(0, size as int) =~= buffer@);
        }
        self.bytes(slice_subrange(buffer, offset, size));
        assert(self@.out =~= old(self)@.out + escaped(buffer@));
    }

    /// Writes `buffer` as a link target: safe bytes are copied, `&` and `'`
    /// are replaced by entities, every other byte is percent-encoded.
    pub fn escape_href(&mut self, buffer: &[u8])
        requires
            old(self).wf(),
        ensures
            final(self).wf(),
            final(self).options() == old(self).options(),
            final(self)@ == old(self)@.put(href_escaped(buffer@)),
    {
        let size: usize = buffer.len();
        let mut i: usize = 0;
        assert(buffer@.subrange(0, 0) =~= Seq::<u8>::empty());
        assert(old(self)@.out + href_escaped(Seq::<u8>::empty()) =~= old(self)@.out);
        while i < size
            invariant
                i <= size,
                size == buffer@.len(),
                self.wf(),
                self.options() == old(self).options(),
                self@ == old(self)@.put(href_escaped(buffer@.subrange(0, i as int))),
            decreases size - i,
        {
            let org: usize = i;
            while i < size && is_href_safe(buffer[i])
                invariant
                    org <= i <= size,
                    size == buffer@.len(),
                    forall|k: int| org <= k < i ==> href_safe(buffer@[k]),
                decreases size - i,
            {
                i += 1;
            }
            proof {
                lemma_href_escaped_run(buffer@, org as int, i as int);
            }
            if i > org {
                self.bytes(slice_subrange(buffer, org, i));
            }
            assert(self@.out =~= old(self)@.out + href_escaped(buffer@.subrange(0, i as int)));
            if i < size {
                let byte: u8 = buffer[i];
                proof {
                    lemma_href_escaped_step(buffer@, i as int);
                }
                if byte == 38 {
                    self.lit("&amp;");
                } else if byte == 39 {
                    self.lit("&#x27;");
                } else {
                    self.output.write_byte(37);
                    self.output.write_byte(upper_hex(byte / 16));
                    self.output.write_byte(upper_hex(byte % 16));
                    assert(self@.out =~= old(self)@.out + href_escaped(
                        buffer@.subrange(0, i as int),
                    ) + href_escape_byte(byte));
                }
                assert(self@.out =~= old(self)@.out + href_escaped(
                    buffer@.subrange(0, i + 1),
                ));
                i += 1;
            }
        }
        assert(buffer@.subrange(0, size as int) =~= buffer@);
    }

    /// Collects the text of `node` in `output`: the literals of the text
    /// nodes and code spans below it, and a space for each line break.
    pub fn collect_text(&self, node: &AstNode, output: &mut Vec<u8>)
        ensures
            final(output)@ == old(output)@ + collected_text(node),
        decreases node, 1nat, 0nat,
    {
        match &node.value {
            NodeValue::Text(literal) => {
                output.extend_from_slice(literal.as_slice());
            },
            NodeValue::Code(code) => {
                output.extend_from_slice(code.literal.as_slice());
            },
            NodeValue::LineBreak | NodeValue::SoftBreak => {
                output.push(32);
            },
            _ => {
                let n: usize = node.children.len();
                let mut i: usize = 0;
                assert(old(output)@ + Seq::<u8>::empty() =~= old(output)@);
                while i < n
                    invariant
                        i <= n,
                        n == node.children@.len(),
                        output@ + children_text(node, i as int) == old(output)@ + children_text(
                            node,
                            0,
                        ),
                    decreases n - i,
                {
                    let ghost before = output@;
                    self.collect_text(&node.children[i], output);
                    assert((before + collected_text(&node.children@[i as int])) + children_text(
                        node,
                        i + 1,
                    ) =~= before + children_text(node, i as int));
                    i += 1;
                }
                assert(output@ + Seq::<u8>::empty() =~= output@);
            },
        }
    }

    /// Flushes what has been collected for the open section: before the
    /// first heading it is dropped, after the first it becomes the front
    /// section, after a later one it is added to the content sections.
    #[allow(non_snake_case)]
    pub fn setupSlideDomContent(&mut self, dom: &mut SlideHtmlDom)
        ensures
            *final(self) == *old(self),
            final(dom)@ == old(dom)@.flushed(),
    {
        let mut content = String::new();
        let mut meta = Meta::new();
        std::mem::swap(&mut dom.pending_content, &mut content);
        std::mem::swap(&mut dom.pending_meta, &mut meta);
        if dom.pending_level == 1 {
            dom.front = SlideSectionHtmlDom { meta, content };
        } else if dom.pending_level > 1 {
            dom.content.push(SlideSectionHtmlDom { meta, content });
            assert(dom@.content =~= old(dom)@.content.push(old(dom)@.pending()));
        }
    }

    fn close_effect(&mut self)
        requires
            old(self).wf(),
        ensures
            final(self).wf(),
            final(self).options() == old(self).options(),
            final(self)@ == old(self)@.effect_closed(),
    {
        if self.last_is_effect {
            self.last_is_effect = false;
            self.lit("\n</effect>\n");
        }
    }

    fn open_list(&mut self, nl: &NodeList)
        requires
            old(self).wf(),
        ensures
            final(self).wf(),
            final(self).options() == old(self).options(),
            final(self)@ == old(self)@.list_open(*nl),
    {
        self.cr();
        match nl.list_type {
            ListType::Bullet => {
                self.lit("<ul>\n");
            },
            ListType::Ordered => {
                if nl.start == 1 {
                    self.lit("<ol>\n");
                } else {
                    self.lit("<ol start=\"");
                    self.number(nl.start as u64);
                    self.lit("\">\n");
                }
            },
        }
    }

    fn open_heading(&mut self, node: &AstNode, level: u32)
        requires
            old(self).wf(),
        ensures
            final(self).wf(),
            final(self).options() == old(self).options(),
            final(self)@ == old(self)@.heading_open(old(self).options(), node, level),
    {
        self.close_effect();
        self.cr();
        self.lit("<h");
        self.number(level as u64);
        self.lit(">");
        let options: &'o ComrakOptions = self.options;
        match &options.extension.header_ids {
            Some(prefix) => {
                let mut text_content: Vec<u8> = Vec::new();
                self.collect_text(node, &mut text_content);
                assert(text_content@ =~= collected_text(node));
                let header = from_utf8_lossy(text_content.as_slice());
                let id = self.anchorizer.anchorize(header);
                self.lit("<a href=\"#");
                self.lit(id.as_str());
                self.lit("\" aria-hidden=\"true\" class=\"anchor\" id=\"");
                self.lit(prefix.as_str());
                self.lit(id.as_str());
                self.lit("\"></a>");
            },
            None => {},
        }
    }

    fn code_block(&mut self, ncb: &NodeCodeBlock)
        requires
            old(self).wf(),
        ensures
            final(self).wf(),
            final(self).options() == old(self).options(),
            final(self)@ == old(self)@.code_block(old(self).options(), ncb),
    {
        self.cr();
        let info: &[u8] = ncb.info.as_slice();
        if info.len() == 0 {
            self.lit("<pre><code>");
        } else {
            let mut first_tag: usize = 0;
            while first_tag < info.len() && !isspace(info[first_tag])
                invariant
                    first_tag <= info@.len(),
                    word_end(info@, first_tag as int) == word_end(info@, 0),
                decreases info@.len() - first_tag,
            {
                first_tag += 1;
            }
            if self.options.render.github_pre_lang {
                self.lit("<pre lang=\"");
                self.escape(slice_subrange(info, 0, first_tag));
                self.lit("\"><code>");
            } else {
                self.lit("<pre><code class=\"language-");
                self.escape(slice_subrange(info, 0, first_tag));
                self.lit("\">");
            }
        }
        self.escape(ncb.literal.as_slice());
        self.lit("</code></pre>\n");
    }

    fn html_block(&mut self, literal: &[u8])
        requires
            old(self).wf(),
        ensures
            final(self).wf(),
            final(self).options() == old(self).options(),
            final(self)@ == old(self)@.cr().put(
                html_block_output(old(self).options(), literal@),
            ).cr(),
    {
        self.cr();
        if self.options.render.escape {
            self.escape(literal);
        } else if !self.options.render.unsafe_ {
            self.lit("<!-- raw HTML omitted -->");
        } else if self.options.extension.tagfilter {
            tagfilter_block(literal, &mut self.output);
        } else {
            self.bytes(literal);
        }
        self.cr();
    }

    fn html_inline(&mut self, literal: &[u8])
        requires
            old(self).wf(),
        ensures
            final(self).wf(),
            final(self).options() == old(self).options(),
            final(self)@ == old(self)@.put(html_inline_output(old(self).options(), literal@)),
    {
        if self.options.render.escape {
            self.escape(literal);
        } else if !self.options.render.unsafe_ {
            self.lit("<!-- raw HTML omitted -->");
        } else if self.options.extension.tagfilter && tagfilter(literal) {
            self.lit("&lt;");
            self.bytes(slice_subrange(literal, 1, literal.len()));
            assert(self@.out =~= old(self)@.out + html_inline_output(
                old(self).options(),
                literal@,
            ));
        } else {
            self.bytes(literal);
        }
    }

    fn url(&mut self, url: &[u8])
        requires
            old(self).wf(),
        ensures
            final(self).wf(),
            final(self).options() == old(self).options(),
            final(self)@ == old(self)@.put(crate::rules::url_output(old(self).options(), url@)),
    {
        if self.options.render.unsafe_ || !dangerous_url(url) {
            self.escape_href(url);
        } else {
            assert(self@.out + Seq::<u8>::empty() =~= self@.out);
        }
    }

    fn title(&mut self, title: &[u8])
        requires
            old(self).wf(),
        ensures
            final(self).wf(),
            final(self).options() == old(self).options(),
            final(self)@ == old(self)@.put(crate::rules::title_output(title@)),
    {
        if title.len() > 0 {
            self.lit("\" title=\"");
            self.escape(title);
            assert(self@.out =~= old(self)@.out + crate::rules::title_output(title@));
        } else {
            assert(self@.out + Seq::<u8>::empty() =~= self@.out);
        }
    }

    fn paragraph(&mut self, ctx: Context, entering: bool)
        requires
            old(self).wf(),
            entering || ctx.parent is Some,
        ensures
            final(self).wf(),
            final(self).options() == old(self).options(),
            final(self)@ == old(self)@.paragraph(ctx, entering),
    {
        self.close_effect();
        let in_tight_list = match ctx.parent {
            Some(_) => match ctx.grandparent {
                Some(g) => match &g.value {
                    NodeValue::List(nl) => nl.tight,
                    _ => false,
                },
                None => false,
            },
            None => false,
        };
        let in_term = match ctx.parent {
            Some(p) => match &p.value {
                NodeValue::DescriptionTerm => true,
                _ => false,
            },
            None => false,
        };
        if !(in_tight_list || in_term) {
            if entering {
                self.cr();
                self.lit("<p>");
            } else {
                let ends_footnote = match ctx.parent {
                    Some(p) => match &p.value {
                        NodeValue::FootnoteDefinition(_) => ctx.index < p.children.len()
                            && ctx.index + 1 == p.children.len(),
                        _ => false,
                    },
                    None => false,
                };
                if ends_footnote {
                    self.lit(" ");
                    self.put_footnote_backref();
                }
                self.lit("</p>\n");
            }
        }
    }

    fn open_row(&mut self, ctx: Context, header: bool)
        requires
            old(self).wf(),
        ensures
            final(self).wf(),
            final(self).options() == old(self).options(),
            final(self)@ == old(self)@.row_open(ctx, header),
    {
        self.cr();
        if header {
            self.lit("<thead>\n");
        } else {
            let after_header = match ctx.parent {
                Some(p) => if 0 < ctx.index && ctx.index <= p.children.len() {
                    match &p.children[ctx.index - 1].value {
                        NodeValue::TableRow(h) => *h,
                        _ => false,
                    }
                } else {
                    false
                },
                None => false,
            };
            if after_header {
                self.lit("<tbody>\n");
            }
        }
        self.lit("<tr>");
    }

    fn cell(&mut self, ctx: Context, entering: bool)
        requires
            old(self).wf(),
            in_table(ctx),
            entering ==> ctx.index < table_alignments(ctx).len(),
        ensures
            final(self).wf(),
            final(self).options() == old(self).options(),
            final(self)@ == if entering {
                old(self)@.cell_open(ctx)
            } else {
                old(self)@.cell_close(ctx)
            },
    {
        let in_header = match ctx.parent {
            Some(p) => match &p.value {
                NodeValue::TableRow(header) => *header,
                _ => false,
            },
            None => false,
        };
        if entering {
            self.cr();
            if in_header {
                self.lit("<th");
            } else {
                self.lit("<td");
            }
            match ctx.grandparent {
                Some(g) => match &g.value {
                    NodeValue::Table(alignments) => {
                        match alignments[ctx.index] {
                            TableAlignment::Left => {
                                self.lit(" align=\"left\"");
                            },
                            TableAlignment::Right => {
                                self.lit(" align=\"right\"");
                            },
                            TableAlignment::Center => {
                                self.lit(" align=\"center\"");
                            },
                            TableAlignment::Unaligned => {
                                assert(self@.out + Seq::<u8>::empty() =~= self@.out);
                            },
                        }
                    },
                    _ => {},
                },
                None => {},
            }
            self.lit(">");
        } else if in_header {
            self.lit("</th>");
        } else {
            self.lit("</td>");
        }
    }

    fn open_definition(&mut self)
        requires
            old(self).wf(),
            old(self)@.footnote_ix < u32::MAX,
        ensures
            final(self).wf(),
            final(self).options() == old(self).options(),
            final(self)@ == old(self)@.definition_open(),
    {
        if self.footnote_ix == 0 {
            self.lit("<section class=\"footnotes\">\n<ol>\n");
        }
        self.footnote_ix += 1;
        self.lit("<li id=\"fn");
        self.number(self.footnote_ix as u64);
        self.lit("\">\n");
    }

    fn reference(&mut self, label: &[u8])
        requires
            old(self).wf(),
        ensures
            final(self).wf(),
            final(self).options() == old(self).options(),
            final(self)@ == old(self)@.reference(label@),
    {
        let r = from_utf8_lossy(label);
        self.lit("<sup class=\"footnote-ref\"><a href=\"#fn");
        self.lit(r.as_str());
        self.lit("\" id=\"fnref");
        self.lit(r.as_str());
        self.lit("\">");
        self.lit(r.as_str());
        self.lit("</a></sup>");
    }

    fn enter(&mut self, node: &AstNode, ctx: Context)
        requires
            old(self).wf(),
            visit_ok(node, ctx, true),
            node.value is FootnoteDefinition ==> old(self)@.footnote_ix < u32::MAX,
        ensures
            final(self).wf(),
            final(self).options() == old(self).options(),
            final(self)@ == crate::rules::enter_html(old(self).options(), old(self)@, node, ctx),
    {
        match &node.value {
            NodeValue::BlockQuote => {
                self.cr();
                self.lit("<blockquote>\n");
            },
            NodeValue::List(nl) => {
                self.open_list(nl);
            },
            NodeValue::Item(_) => {
                self.cr();
                self.lit("<li>");
            },
            NodeValue::DescriptionList => {
                self.cr();
                self.lit("<dl>");
            },
            NodeValue::DescriptionTerm => {
                self.lit("<dt>");
            },
            NodeValue::DescriptionDetails => {
                self.lit("<dd>");
            },
            NodeValue::Effect(effect) => {
                self.last_is_effect = true;
                self.cr();
                let effcontent = from_utf8_lossy(effect.literal.as_slice());
                self.lit("<effect ");
                self.lit(effcontent.as_str());
                self.lit(">\n");
            },
            NodeValue::Heading(nch) => {
                self.open_heading(node, nch.level);
            },
            NodeValue::CodeBlock(ncb) => {
                self.code_block(ncb);
            },
            NodeValue::HtmlBlock(nhb) => {
                self.html_block(nhb.literal.as_slice());
            },
            NodeValue::ThematicBreak => {
                self.cr();
                self.lit("<hr />\n");
            },
            NodeValue::Text(literal) => {
                self.escape(literal.as_slice());
            },
            NodeValue::Paragraph => {
                self.paragraph(ctx, true);
            },
            NodeValue::LineBreak => {
                self.lit("<br />\n");
            },
            NodeValue::SoftBreak => {
                if self.options.render.hardbreaks {
                    self.lit("<br />\n");
                } else {
                    self.lit("\n");
                }
            },
            NodeValue::Code(code) => {
                self.lit("<code>");
                self.escape(code.literal.as_slice());
                self.lit("</code>");
            },
            NodeValue::HtmlInline(literal) => {
                self.html_inline(literal.as_slice());
            },
            NodeValue::Strong => {
                self.lit("<strong>");
            },
            NodeValue::Emph => {
                self.lit("<em>");
            },
            NodeValue::Strikethrough => {
                self.lit("<del>");
            },
            NodeValue::Superscript => {
                self.lit("<sup>");
            },
            NodeValue::Link(nl) => {
                self.lit("<a href=\"");
                self.url(nl.url.as_slice());
                self.title(nl.title.as_slice());
                self.lit("\">");
            },
            NodeValue::Image(nl) => {
                self.lit("<img src=\"");
                self.url(nl.url.as_slice());
                self.lit("\" alt=\"");
            },
            NodeValue::Table(_) => {
                self.cr();
                self.lit("<table>\n");
            },
            NodeValue::TableRow(header) => {
                self.open_row(ctx, *header);
            },
            NodeValue::TableCell => {
                self.cell(ctx, true);
            },
            NodeValue::FootnoteDefinition(_) => {
                self.open_definition();
            },
            NodeValue::FootnoteReference(r) => {
                self.reference(r.as_slice());
            },
            NodeValue::TaskItem(checked) => {
                if *checked {
                    self.lit("<input type=\"checkbox\" disabled=\"\" checked=\"\" /> ");
                } else {
                    self.lit("<input type=\"checkbox\" disabled=\"\" /> ");
                }
            },
            _ => {},
        }
    }

    fn exit(&mut self, node: &AstNode, ctx: Context)
        requires
            old(self).wf(),
            visit_ok(node, ctx, false),
        ensures
            final(self).wf(),
            final(self).options() == old(self).options(),
            final(self)@ == crate::rules::exit_html(old(self).options(), old(self)@, node, ctx),
    {
        match &node.value {
            NodeValue::BlockQuote => {
                self.cr();
                self.lit("</blockquote>\n");
            },
            NodeValue::List(nl) => {
                match nl.list_type {
                    ListType::Bullet => {
                        self.lit("</ul>\n");
                    },
                    ListType::Ordered => {
                        self.lit("</ol>\n");
                    },
                }
            },
            NodeValue::Item(_) => {
                self.lit("</li>\n");
            },
            NodeValue::DescriptionList => {
                self.lit("</dl>\n");
            },
            NodeValue::DescriptionTerm => {
                self.lit("</dt>\n");
            },
            NodeValue::DescriptionDetails => {
                self.lit("</dd>\n");
            },
            NodeValue::Heading(nch) => {
                self.lit("</h");
                self.number(nch.level as u64);
                self.lit(">tttt\n");
            },
            NodeValue::Paragraph => {
                self.paragraph(ctx, false);
            },
            NodeValue::Strong => {
                self.lit("</strong>");
            },
            NodeValue::Emph => {
                self.lit("</em>");
            },
            NodeValue::Strikethrough => {
                self.lit("</del>");
            },
            NodeValue::Superscript => {
                self.lit("</sup>");
            },
            NodeValue::Link(_) => {
                self.lit("</a>");
            },
            NodeValue::Image(nl) => {
                self.title(nl.title.as_slice());
                self.lit("\" />");
            },
            NodeValue::Table(_) => {
                if node.children.len() != 1 {
                    self.cr();
                    self.lit("</tbody>\n");
                }
                self.cr();
                self.lit("</table>\n");
            },
            NodeValue::TableRow(header) => {
                self.cr();
                self.lit("</tr>");
                if *header {
                    self.cr();
                    self.lit("</thead>");
                }
            },
            NodeValue::TableCell => {
                self.cell(ctx, false);
            },
            NodeValue::FootnoteDefinition(_) => {
                if self.put_footnote_backref() {
                    self.lit("\n");
                }
                self.lit("</li>\n");
            },
            _ => {},
        }
    }

    /// Writes the HTML of one visit to `node`: its opening where `entering`
    /// is set, else its closing. Returns whether the children of the node
    /// are to be rendered in plain mode, which is so for an image that is
    /// entered.
    pub fn format_node_v2(&mut self, node: &AstNode, ctx: Context, entering: bool) -> (plain: bool)
        requires
            old(self).wf(),
            visit_ok(node, ctx, entering),
            entering && node.value is FootnoteDefinition ==> old(self)@.footnote_ix < u32::MAX,
        ensures
            final(self).wf(),
            final(self).options() == old(self).options(),
            final(self)@ == html_step(
                old(self).options(),
                old(self)@,
                (Event { node, ctx, visit: if entering { Visit::Enter } else { Visit::Exit } }),
            ),
            plain == (entering && node.value is Image),
    {
        if entering {
            self.enter(node, ctx);
            match &node.value {
                NodeValue::Image(_) => true,
                _ => false,
            }
        } else {
            self.exit(node, ctx);
            false
        }
    }

    fn project(&mut self, node: &AstNode, ctx: Context, dom: &mut SlideHtmlDom, entering: bool)
        requires
            entering && node.value is Heading ==> old(dom)@.pending_level < u64::MAX,
        ensures
            *final(self) == *old(self),
            final(dom)@ == slide_step(
                old(self).options(),
                old(dom)@,
                (Event { node, ctx, visit: if entering { Visit::Enter } else { Visit::Exit } }),
            ),
    {
        if entering {
            match &node.value {
                NodeValue::Heading(nch) => {
                    self.setupSlideDomContent(dom);
                    if nch.level == 1 {
                        dom.pending_content.append("# ");
                    } else if nch.level == 2 {
                        dom.pending_content.append("## ");
                    }
                    dom.pending_level += 1;
                    assert(dom@.pending_content =~= crate::slide::heading_prefix(nch.level));
                },
                NodeValue::SlideMetaDataBlock(smd) => {
                    let mut meta = Meta::new();
                    let n: usize = smd.metadatas.len();
                    let mut i: usize = 0;
                    assert(smd.metadatas@.take(0) =~= Seq::empty());
                    while i < n
                        invariant
                            i <= n,
                            n == smd.metadatas@.len(),
                            meta@ == meta_of(smd.metadatas@.take(i as int)),
                        decreases n - i,
                    {
                        let kv = &smd.metadatas[i];
                        meta.insert(
                            from_utf8_lossy(kv.key.as_slice()),
                            from_utf8_lossy(kv.value.as_slice()),
                        );
                        assert(smd.metadatas@.take(i + 1).drop_last() =~= smd.metadatas@.take(
                            i as int,
                        ));
                        i += 1;
                    }
                    assert(smd.metadatas@.take(n as int) =~= smd.metadatas@);
                    dom.pending_meta = meta;
                },
                NodeValue::DescriptionList
                | NodeValue::Paragraph
                | NodeValue::LineBreak
                | NodeValue::SoftBreak
                | NodeValue::Strong
                | NodeValue::FootnoteDefinition(_) => {
                    dom.pending_content.append("\n");
                },
                NodeValue::HtmlInline(literal) => {
                    if !self.options.render.escape && !self.options.render.unsafe_ {
                        let raw = from_utf8_lossy(literal.as_slice());
                        dom.pending_content.append(" ");
                        dom.pending_content.append(raw.as_str());
                        assert(dom@.pending_content =~= old(dom)@.pending_content + (" "@
                            + raw@));
                    }
                },
                _ => {},
            }
        } else {
            match &node.value {
                NodeValue::Text(literal) => {
                    let text = from_utf8_lossy(literal.as_slice());
                    let in_link = match ctx.parent {
                        Some(p) => match &p.value {
                            NodeValue::Link(_) => true,
                            _ => false,
                        },
                        None => false,
                    };
                    let in_item = match ctx.parent {
                        Some(_) => match ctx.grandparent {
                            Some(g) => match &g.value {
                                NodeValue::Item(_) => true,
                                _ => false,
                            },
                            None => false,
                        },
                        None => false,
                    };
                    if in_link {
                        dom.pending_content.append("[");
                        dom.pending_content.append(text.as_str());
                        dom.pending_content.append("]");
                        assert(dom@.pending_content =~= old(dom)@.pending_content + ("["@ + text@
                            + "]"@));
                    } else if in_item {
                        dom.pending_content.append("- ");
                        dom.pending_content.append(text.as_str());
                        assert(dom@.pending_content =~= old(dom)@.pending_content + ("- "@
                            + text@));
                    } else {
                        dom.pending_content.append(text.as_str());
                    }
                },
                NodeValue::Link(nl) => {
                    let ghost start = dom@.pending_content;
                    dom.pending_content.append("\n");
                    if nl.title.len() > 0 {
                        let title = from_utf8_lossy(nl.title.as_slice());
                        dom.pending_content.append("[");
                        dom.pending_content.append(title.as_str());
                        dom.pending_content.append("]");
                    }
                    if self.options.render.unsafe_ || !dangerous_url(nl.url.as_slice()) {
                        let url = from_utf8_lossy(nl.url.as_slice());
                        dom.pending_content.append("(");
                        dom.pending_content.append(url.as_str());
                        dom.pending_content.append(")");
                    }
                    assert(dom@.pending_content =~= start + crate::slide::link_projection(
                        self.options,
                        nl,
                    ));
                },
                NodeValue::Image(nl) => {
                    let ghost start = dom@.pending_content;
                    dom.pending_content.append("![");
                    if node.children.len() > 0 {
                        match &node.children[0].value {
                            NodeValue::Text(text) => {
                                let alt = from_utf8_lossy(text.as_slice());
                                dom.pending_content.append(alt.as_str());
                            },
                            _ => {},
                        }
                    }
                    dom.pending_content.append("]");
                    if self.options.render.unsafe_ || !dangerous_url(nl.url.as_slice()) {
                        let url = from_utf8_lossy(nl.url.as_slice());
                        dom.pending_content.append("(");
                        dom.pending_content.append(url.as_str());
                        dom.pending_content.append(")");
                    }
                    assert(dom@.pending_content =~= start + crate::slide::image_projection(
                        self.options,
                        node,
                        nl,
                    ));
                },
                _ => {},
            }
        }
    }

    /// Makes one visit to `node`: adds what the visit gives to the slide
    /// document, and writes its HTML. Returns whether the children of the
    /// node are to be rendered in plain mode.
    pub fn format_node(
        &mut self,
        node: &AstNode,
        ctx: Context,
        dom: &mut SlideHtmlDom,
        entering: bool,
    ) -> (plain: bool)
        requires
            old(self).wf(),
            step_ok(
                old(self)@,
                old(dom)@,
                (Event { node, ctx, visit: if entering { Visit::Enter } else { Visit::Exit } }),
            ),
        ensures
            final(self).wf(),
            final(self).options() == old(self).options(),
            final(self)@ == html_step(
                old(self).options(),
                old(self)@,
                (Event { node, ctx, visit: if entering { Visit::Enter } else { Visit::Exit } }),
            ),
            final(dom)@ == slide_step(
                old(self).options(),
                old(dom)@,
                (Event { node, ctx, visit: if entering { Visit::Enter } else { Visit::Exit } }),
            ),
            plain == (entering && node.value is Image),
    {
        self.project(node, ctx, dom, entering);
        self.format_node_v2(node, ctx, entering)
    }

    fn plain(&mut self, node: &AstNode)
        requires
            old(self).wf(),
        ensures
            final(self).wf(),
            final(self).options() == old(self).options(),
            final(self)@ == crate::rules::plain_html(old(self)@, node),
    {
        match &node.value {
            NodeValue::Text(literal) => {
                self.escape(literal.as_slice());
            },
            NodeValue::Code(code) => {
                self.escape(code.literal.as_slice());
            },
            NodeValue::HtmlInline(literal) => {
                self.escape(literal.as_slice());
            },
            NodeValue::LineBreak | NodeValue::SoftBreak => {
                self.lit(" ");
            },
            _ => {},
        }
    }

    /// Renders `node` and all below it, in plain mode where `plain` is
    /// set: writes the HTML and builds up the slide document, visit by
    /// visit in document order. The walk keeps its own stack of work, so
    /// that the depth of the tree does not bear on the call stack.
    pub fn format<'a>(
        &mut self,
        node: &'a AstNode,
        ctx: Context<'a>,
        dom: &mut SlideHtmlDom,
        plain: bool,
    )
        requires
            old(self).wf(),
            can_render(old(self).options(), old(self)@, old(dom)@, events(node, ctx, plain)),
        ensures
            final(self).wf(),
            final(self).options() == old(self).options(),
            final(self)@ == html_run(old(self).options(), old(self)@, events(node, ctx, plain)),
            final(dom)@ == slide_run(old(self).options(), old(dom)@, events(node, ctx, plain)),
    {
        let ghost all = events(node, ctx, plain);
        let ghost options = self.options();
        let ghost s0 = self@;
        let ghost d0 = dom@;
        let ghost mut done: Seq<Event<'a>> = Seq::empty();
        let mut stack: Vec<Frame<'a>> = Vec::new();
        stack.push(Frame { node, ctx, plain, phase: Phase::Pre });
        proof {
            lemma_stack_push(Seq::<Frame<'a>>::empty(), stack@[0]);
            assert(stack@ =~= Seq::<Frame<'a>>::empty().push(stack@[0]));
            assert(done + stack_events(stack@) =~= all);
        }
        while stack.len() > 0
            invariant
                self.wf(),
                self.options() == options,
                done + stack_events(stack@) == all,
                self@ == html_run(options, s0, done),
                dom@ == slide_run(options, d0, done),
                can_render(options, s0, d0, all),
            decreases stack_events(stack@).len(),
        {
            let ghost before = stack@;
            let frame = stack.pop().unwrap();
            let ghost rest = stack@;
            proof {
                assert(before.drop_last() =~= rest);
                assert(stack_events(before) == frame_events(frame) + stack_events(rest));
            }
            let ghost ev = frame_events(frame)[0];
            proof {
                assert(all.take(done.len() as int) =~= done);
                assert(all[done.len() as int] == ev);
                assert(step_ok(self@, dom@, ev));
                assert(done.push(ev).drop_last() =~= done);
            }
            match frame.phase {
                Phase::Pre => {
                    let new_plain: bool;
                    if frame.plain {
                        self.plain(frame.node);
                        new_plain = true;
                    } else {
                        stack.push(
                            Frame {
                                node: frame.node,
                                ctx: frame.ctx,
                                plain: false,
                                phase: Phase::Post,
                            },
                        );
                        new_plain = self.format_node(frame.node, frame.ctx, dom, true);
                    }
                    let ghost base = stack@;
                    let n: usize = frame.node.children.len();
                    let mut i: usize = n;
                    proof {
                        done = done.push(ev);
                        if !frame.plain {
                            lemma_stack_push(rest, stack@.last());
                        }
                        assert(children_events(frame.node, frame.ctx, new_plain, n as int)
                            =~= Seq::<Event<'a>>::empty());
                        assert(done + (children_events(frame.node, frame.ctx, new_plain, 0)
                            + stack_events(base)) =~= all);
                    }
                    while i > 0
                        invariant
                            i <= n,
                            n == frame.node.children@.len(),
                            stack_events(stack@) == children_events(
                                frame.node,
                                frame.ctx,
                                new_plain,
                                i as int,
                            ) + stack_events(base),
                        decreases i,
                    {
                        i -= 1;
                        let child = Frame {
                            node: &frame.node.children[i],
                            ctx: frame.ctx.child(frame.node, i),
                            plain: new_plain,
                            phase: Phase::Pre,
                        };
                        proof {
                            lemma_stack_push(stack@, child);
                            assert(frame_events(child) + (children_events(
                                frame.node,
                                frame.ctx,
                                new_plain,
                                i + 1,
                            ) + stack_events(base)) =~= children_events(
                                frame.node,
                                frame.ctx,
                                new_plain,
                                i as int,
                            ) + stack_events(base));
                        }
                        stack.push(child);
                    }
                },
                Phase::Post => {
                    self.format_node(frame.node, frame.ctx, dom, false);
                    proof {
                        done = done.push(ev);
                        assert(done + stack_events(rest) =~= all);
                    }
                },
            }
        }
        proof {
            assert(done =~= all);
        }
    }

    /// Writes the back reference of the current footnote, unless it was
    /// written before. Returns whether it was written now.
    pub fn put_footnote_backref(&mut self) -> (written: bool)
        requires
            old(self).wf(),
        ensures
            final(self).wf(),
            final(self).options() == old(self).options(),
            final(self)@ == old(self)@.backref(),
            written == (old(self)@.written_footnote_ix < old(self)@.footnote_ix),
    {
        if self.written_footnote_ix >= self.footnote_ix {
            return false;
        }
        self.written_footnote_ix = self.footnote_ix;
        self.lit("<a href=\"#fnref");
        self.number(self.footnote_ix as u64);
        self.lit("\" class=\"footnote-backref\">↩</a>");
        true
    }
}

/// Formats a document tree as HTML and derives its slide document: the
/// first part of the result is the HTML, the second the slide document,
/// flushed once more when the walk is over so that its last section is in
/// it.
pub fn format_document_slide(root: &AstNode, options: &ComrakOptions) -> (r: (
    Vec<u8>,
    SlideHtmlDom,
))
    requires
        renderable(root, Context::root(), false),
    ensures
        r.0@ == html_run(
            options,
            FormatterView::start(Seq::empty()),
            events(root, Context::root(), false),
        ).out,
        r.1@ == slide_document(options, events(root, Context::root(), false)),
        headings(root, false) >= 1 ==> r.1@.content.len() == headings(root, false) - 1,
        headings(root, false) == 0 ==> r.1@.content.len() == 0,
{
    let writer = WriteWithLast::new();
    let mut dom = SlideHtmlDom::new();
    let mut f = HtmlSlideFormatter::new(options, writer);
    proof {
        lemma_can_render(options, f@, dom@, events(root, Context::root(), false));
    }
    f.format(root, Context::root(), &mut dom, false);
    f.setupSlideDomContent(&mut dom);
    proof {
        lemma_headings_counted(root, Context::root(), false);
        lemma_section_count(options, events(root, Context::root(), false));
    }
    (f.into_output().into_bytes(), dom)
}

/// Whether a byte passes through href escaping unchanged.
fn is_href_safe(b: u8) -> (r: bool)
    ensures
        r == href_safe(b),
{
    (97 <= b && b <= 122) || (65 <= b && b <= 90) || (48 <= b && b <= 57) || b == 45 || b == 95
        || b == 46 || b == 43 || b == 33 || b == 42 || b == 40 || b == 41 || b == 44 || b == 37
        || b == 35 || b == 64 || b == 63 || b == 61 || b == 59 || b == 58 || b == 47 || b == 36
        || b == 126
}

/// The upper-case hexadecimal digit for a value below sixteen.
fn upper_hex(d: u8) -> (r: u8)
    requires
        d < 16,
    ensures
        r == hex_digit(d),
{
    if d < 10 {
        48 + d
    } else {
        55 + d
    }
}

} // verus!

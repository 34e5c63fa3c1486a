//! What a render pass writes at each node: the HTML rules, stated over the
//! state of the pass as a value.

use vstd::prelude::*;
use vstd::string::StringSliceAdditionalSpecFns;
use vstd::utf8::encode_utf8;
use crate::anchorizer::{slug_base, unique_anchor};
use crate::ctype::is_space;
use crate::decimal::decimal;
use crate::escape::{escaped, href_escaped};
use crate::nodes::{
    children_events,
    events,
    AstNode,
    Context,
    Event,
    ListType,
    NodeCodeBlock,
    NodeLink,
    NodeList,
    NodeValue,
    TableAlignment,
    Visit,
};
use crate::options::ComrakOptions;
use crate::slide::url_shown;
use crate::tagfilter::{filtered, is_filtered_tag};
use crate::text::utf8_lossy;
use crate::writer::ends_with_lf;

verus! {

/// The state of a render pass, as a value.
pub struct FormatterView {
    /// The HTML written so far.
    pub out: Seq<u8>,
    /// The heading anchors given out so far.
    pub anchors: Set<Seq<char>>,
    /// The number of footnote definitions entered.
    pub footnote_ix: nat,
    /// The number of the last footnote for which a back reference was
    /// written.
    pub written_footnote_ix: nat,
    /// Whether an effect is open.
    pub last_is_effect: bool,
}

impl FormatterView {
    /// The state at the start of a pass that has `out` before it.
    pub open spec fn start(out: Seq<u8>) -> FormatterView {
        FormatterView {
            out,
            anchors: Set::empty(),
            footnote_ix: 0,
            written_footnote_ix: 0,
            last_is_effect: false,
        }
    }

    /// The state after `bytes` have been written.
    pub open spec fn put(self, bytes: Seq<u8>) -> FormatterView {
        FormatterView { out: self.out + bytes, ..self }
    }

    /// The state after the UTF-8 bytes of `s` have been written.
    pub open spec fn text(self, s: &str) -> FormatterView {
        self.put(s.spec_bytes())
    }

    /// The state after a line feed has been written, unless the output is
    /// empty or ends in one already.
    pub open spec fn cr(self) -> FormatterView {
        if ends_with_lf(self.out) {
            self
        } else {
            self.put(seq![10u8])
        }
    }

    /// The state after an open effect, if there is one, has been closed.
    pub open spec fn effect_closed(self) -> FormatterView {
        if self.last_is_effect {
            FormatterView { last_is_effect: false, ..self.text("\n</effect>\n") }
        } else {
            self
        }
    }

    /// The state after the back reference of the current footnote has been
    /// written, unless it was written before.
    pub open spec fn backref(self) -> FormatterView {
        if self.written_footnote_ix >= self.footnote_ix {
            self
        } else {
            FormatterView { written_footnote_ix: self.footnote_ix, ..self }.text(
                "<a href=\"#fnref",
            ).put(decimal(self.footnote_ix)).text("\" class=\"footnote-backref\">↩</a>")
        }
    }
}

/// The text of a node: the literal of a text node or a code span, a space
/// for a line break, and for any other node the text of its children.
pub open spec fn collected_text(node: &AstNode) -> Seq<u8>
    decreases node, 1nat, 0nat,
{
    match node.value {
        NodeValue::Text(literal) => literal@,
        NodeValue::Code(code) => code.literal@,
        NodeValue::LineBreak | NodeValue::SoftBreak => seq![32u8],
        _ => children_text(node, 0),
    }
}

/// The text of the children of `node` from the `from`-th on.
pub open spec fn children_text(node: &AstNode, from: int) -> Seq<u8>
    decreases node, 0nat, node.children@.len() - from,
{
    if 0 <= from < node.children@.len() {
        collected_text(&node.children@[from]) + children_text(node, from + 1)
    } else {
        Seq::<u8>::empty()
    }
}

/// The offset at which the word of an info string that holds offset `from`
/// ends: that of the first whitespace from `from` on, or the length of the
/// string.
pub open spec fn word_end(info: Seq<u8>, from: int) -> int
    decreases info.len() - from,
{
    if 0 <= from < info.len() && !is_space(info[from]) {
        word_end(info, from + 1)
    } else {
        from
    }
}

/// Whether a paragraph is rendered without `<p>` around it: its parent's
/// parent is a tight list, or its parent is the term of a description.
pub open spec fn is_tight(ctx: Context) -> bool {
    (match (ctx.parent, ctx.grandparent) {
        (Some(_), Some(g)) => match g.value {
            NodeValue::List(nl) => nl.tight,
            _ => false,
        },
        _ => false,
    }) || (match ctx.parent {
        Some(p) => p.value is DescriptionTerm,
        None => false,
    })
}

/// Whether a node is the last child of a footnote definition.
pub open spec fn ends_footnote(ctx: Context) -> bool {
    match ctx.parent {
        Some(p) => p.value is FootnoteDefinition && ctx.is_last(),
        None => false,
    }
}

/// Whether the sibling right before a node is the header row of a table.
pub open spec fn follows_header_row(ctx: Context) -> bool {
    match ctx.previous() {
        Some(prev) => match prev.value {
            NodeValue::TableRow(header) => header,
            _ => false,
        },
        None => false,
    }
}

/// Whether a table cell stands in the header row.
pub open spec fn in_header_row(ctx: Context) -> bool {
    match ctx.parent {
        Some(p) => match p.value {
            NodeValue::TableRow(header) => header,
            _ => false,
        },
        None => false,
    }
}

/// Whether a table cell stands where one belongs: in a row of a table.
pub open spec fn in_table(ctx: Context) -> bool {
    (match ctx.parent {
        Some(p) => p.value is TableRow,
        None => false,
    }) && (match ctx.grandparent {
        Some(g) => g.value is Table,
        None => false,
    })
}

/// The column alignments of the table that a cell stands in.
pub open spec fn table_alignments(ctx: Context) -> Seq<TableAlignment> {
    match ctx.grandparent {
        Some(g) => match g.value {
            NodeValue::Table(alignments) => alignments@,
            _ => Seq::empty(),
        },
        None => Seq::empty(),
    }
}

/// The attribute that a column alignment gives a cell.
pub open spec fn alignment_attribute(alignment: TableAlignment) -> Seq<u8> {
    match alignment {
        TableAlignment::Left => " align=\"left\"".spec_bytes(),
        TableAlignment::Right => " align=\"right\"".spec_bytes(),
        TableAlignment::Center => " align=\"center\"".spec_bytes(),
        TableAlignment::Unaligned => Seq::empty(),
    }
}

/// What stands for raw HTML where it is neither escaped nor let through.
pub open spec fn raw_html_omitted() -> Seq<u8> {
    "<!-- raw HTML omitted -->".spec_bytes()
}

/// What a block of raw HTML is rendered as: escaped where escaping is on;
/// a placeholder unless unsafe mode is on; else filtered where the tag
/// filter is on; else as it stands.
pub open spec fn html_block_output(options: &ComrakOptions, literal: Seq<u8>) -> Seq<u8> {
    if options.render.escape {
        escaped(literal)
    } else if !options.render.unsafe_ {
        raw_html_omitted()
    } else if options.extension.tagfilter {
        filtered(literal)
    } else {
        literal
    }
}

/// What inline raw HTML is rendered as: as a block of raw HTML, but that
/// the tag filter looks at the start of the literal only.
pub open spec fn html_inline_output(options: &ComrakOptions, literal: Seq<u8>) -> Seq<u8> {
    if options.render.escape {
        escaped(literal)
    } else if !options.render.unsafe_ {
        raw_html_omitted()
    } else if options.extension.tagfilter && is_filtered_tag(literal) {
        "&lt;".spec_bytes() + literal.subrange(1, literal.len() as int)
    } else {
        literal
    }
}

/// The target of a link or an image as it is written: escaped, or nothing
/// where it may not be shown.
pub open spec fn url_output(options: &ComrakOptions, url: Seq<u8>) -> Seq<u8> {
    if url_shown(options, url) {
        href_escaped(url)
    } else {
        Seq::empty()
    }
}

/// The title attribute of a link or an image, from the quote that closes
/// the attribute before it; nothing where there is no title.
pub open spec fn title_output(title: Seq<u8>) -> Seq<u8> {
    if title.len() > 0 {
        "\" title=\"".spec_bytes() + escaped(title)
    } else {
        Seq::empty()
    }
}

impl FormatterView {
    /// The opening tag of a list.
    pub open spec fn list_open(self, nl: NodeList) -> FormatterView {
        match nl.list_type {
            ListType::Bullet => self.cr().text("<ul>\n"),
            ListType::Ordered => if nl.start == 1 {
                self.cr().text("<ol>\n")
            } else {
                self.cr().text("<ol start=\"").put(decimal(nl.start as nat)).text("\">\n")
            },
        }
    }

    /// The closing tag of a list.
    pub open spec fn list_close(self, nl: NodeList) -> FormatterView {
        match nl.list_type {
            ListType::Bullet => self.text("</ul>\n"),
            ListType::Ordered => self.text("</ol>\n"),
        }
    }

    /// The opening tag of a heading, with its anchor where the options ask
    /// for heading ids. The anchor is made of the heading's text and
    /// recorded as given out.
    pub open spec fn heading_open(
        self,
        options: &ComrakOptions,
        node: &AstNode,
        level: u32,
    ) -> FormatterView {
        let tag = self.effect_closed().cr().text("<h").put(decimal(level as nat)).text(">");
        match options.extension.header_ids {
            None => tag,
            Some(prefix) => {
                let id = unique_anchor(self.anchors, slug_base(utf8_lossy(collected_text(node))));
                FormatterView { anchors: self.anchors.insert(id), ..tag }.text("<a href=\"#").put(
                    encode_utf8(id),
                ).text("\" aria-hidden=\"true\" class=\"anchor\" id=\"").put(
                    encode_utf8(prefix@),
                ).put(encode_utf8(id)).text("\"></a>")
            },
        }
    }

    /// The closing tag of a heading, with the suffix `tttt` behind it.
    pub open spec fn heading_close(self, level: u32) -> FormatterView {
        self.text("</h").put(decimal(level as nat)).text(">tttt\n")
    }

    /// A code block: the language of its info string goes into a `lang`
    /// attribute of `<pre>` or a `class` of `<code>`, as the options say.
    pub open spec fn code_block(self, options: &ComrakOptions, ncb: &NodeCodeBlock) -> FormatterView {
        let lang = ncb.info@.subrange(0, word_end(ncb.info@, 0));
        let open = if ncb.info@.len() == 0 {
            self.cr().text("<pre><code>")
        } else if options.render.github_pre_lang {
            self.cr().text("<pre lang=\"").put(escaped(lang)).text("\"><code>")
        } else {
            self.cr().text("<pre><code class=\"language-").put(escaped(lang)).text("\">")
        };
        open.put(escaped(ncb.literal@)).text("</code></pre>\n")
    }

    /// A paragraph's opening tag (entering) or closing tag (leaving). A
    /// tight paragraph has neither. The last paragraph of a footnote
    /// definition gets the back reference before its closing tag.
    pub open spec fn paragraph(self, ctx: Context, entering: bool) -> FormatterView {
        let s = self.effect_closed();
        if is_tight(ctx) {
            s
        } else if entering {
            s.cr().text("<p>")
        } else if ends_footnote(ctx) {
            s.text(" ").backref().text("</p>\n")
        } else {
            s.text("</p>\n")
        }
    }

    /// The opening of a table row.
    pub open spec fn row_open(self, ctx: Context, header: bool) -> FormatterView {
        if header {
            self.cr().text("<thead>\n").text("<tr>")
        } else if follows_header_row(ctx) {
            self.cr().text("<tbody>\n").text("<tr>")
        } else {
            self.cr().text("<tr>")
        }
    }

    /// The closing of a table row.
    pub open spec fn row_close(self, header: bool) -> FormatterView {
        if header {
            self.cr().text("</tr>").cr().text("</thead>")
        } else {
            self.cr().text("</tr>")
        }
    }

    /// The opening tag of a table cell, with the alignment of its column.
    pub open spec fn cell_open(self, ctx: Context) -> FormatterView {
        (if in_header_row(ctx) {
            self.cr().text("<th")
        } else {
            self.cr().text("<td")
        }).put(alignment_attribute(table_alignments(ctx)[ctx.index as int])).text(">")
    }

    /// The closing tag of a table cell.
    pub open spec fn cell_close(self, ctx: Context) -> FormatterView {
        if in_header_row(ctx) {
            self.text("</th>")
        } else {
            self.text("</td>")
        }
    }

    /// The closing of a table: of its body, where it has rows besides the
    /// first, and of the table.
    pub open spec fn table_close(self, node: &AstNode) -> FormatterView {
        if node.children@.len() != 1 {
            self.cr().text("</tbody>\n").cr().text("</table>\n")
        } else {
            self.cr().text("</table>\n")
        }
    }

    /// The opening of a footnote definition: the list of footnotes is
    /// opened before the first, and each gets the next number.
    pub open spec fn definition_open(self) -> FormatterView {
        let s = if self.footnote_ix == 0 {
            self.text("<section class=\"footnotes\">\n<ol>\n")
        } else {
            self
        };
        FormatterView { footnote_ix: self.footnote_ix + 1, ..s }.text("<li id=\"fn").put(
            decimal(self.footnote_ix + 1),
        ).text("\">\n")
    }

    /// The closing of a footnote definition, with the back reference
    /// before it unless that was written already.
    pub open spec fn definition_close(self) -> FormatterView {
        if self.written_footnote_ix < self.footnote_ix {
            self.backref().text("\n").text("</li>\n")
        } else {
            self.text("</li>\n")
        }
    }

    /// A reference to a footnote: a link made of the label.
    pub open spec fn reference(self, label: Seq<u8>) -> FormatterView {
        let r = encode_utf8(utf8_lossy(label));
        self.text("<sup class=\"footnote-ref\"><a href=\"#fn").put(r).text("\" id=\"fnref").put(
            r,
        ).text("\">").put(r).text("</a></sup>")
    }

    /// The opening tag of an effect, which stays open.
    pub open spec fn effect_open(self, literal: Seq<u8>) -> FormatterView {
        FormatterView { last_is_effect: true, ..self }.cr().text("<effect ").put(
            encode_utf8(utf8_lossy(literal)),
        ).text(">\n")
    }

    /// The opening tag of a link.
    pub open spec fn link_open(self, options: &ComrakOptions, link: &NodeLink) -> FormatterView {
        self.text("<a href=\"").put(url_output(options, link.url@)).put(
            title_output(link.title@),
        ).text("\">")
    }

    /// The start of an image tag, up to the opening quote of `alt`.
    pub open spec fn image_open(self, options: &ComrakOptions, link: &NodeLink) -> FormatterView {
        self.text("<img src=\"").put(url_output(options, link.url@)).text("\" alt=\"")
    }

    /// The end of an image tag, from the closing quote of `alt`.
    pub open spec fn image_close(self, link: &NodeLink) -> FormatterView {
        self.put(title_output(link.title@)).text("\" />")
    }
}

/// The state after a node has been entered.
pub open spec fn enter_html(
    options: &ComrakOptions,
    s: FormatterView,
    node: &AstNode,
    ctx: Context,
) -> FormatterView {
    match node.value {
        NodeValue::BlockQuote => s.cr().text("<blockquote>\n"),
        NodeValue::List(nl) => s.list_open(nl),
        NodeValue::Item(_) => s.cr().text("<li>"),
        NodeValue::DescriptionList => s.cr().text("<dl>"),
        NodeValue::DescriptionTerm => s.text("<dt>"),
        NodeValue::DescriptionDetails => s.text("<dd>"),
        NodeValue::Effect(effect) => s.effect_open(effect.literal@),
        NodeValue::Heading(h) => s.heading_open(options, node, h.level),
        NodeValue::CodeBlock(ncb) => s.code_block(options, &ncb),
        NodeValue::HtmlBlock(nhb) => s.cr().put(html_block_output(options, nhb.literal@)).cr(),
        NodeValue::ThematicBreak => s.cr().text("<hr />\n"),
        NodeValue::Text(literal) => s.put(escaped(literal@)),
        NodeValue::Paragraph => s.paragraph(ctx, true),
        NodeValue::LineBreak => s.text("<br />\n"),
        NodeValue::SoftBreak => if options.render.hardbreaks {
            s.text("<br />\n")
        } else {
            s.text("\n")
        },
        NodeValue::Code(code) => s.text("<code>").put(escaped(code.literal@)).text("</code>"),
        NodeValue::HtmlInline(literal) => s.put(html_inline_output(options, literal@)),
        NodeValue::Strong => s.text("<strong>"),
        NodeValue::Emph => s.text("<em>"),
        NodeValue::Strikethrough => s.text("<del>"),
        NodeValue::Superscript => s.text("<sup>"),
        NodeValue::Link(link) => s.link_open(options, &link),
        NodeValue::Image(link) => s.image_open(options, &link),
        NodeValue::Table(_) => s.cr().text("<table>\n"),
        NodeValue::TableRow(header) => s.row_open(ctx, header),
        NodeValue::TableCell => s.cell_open(ctx),
        NodeValue::FootnoteDefinition(_) => s.definition_open(),
        NodeValue::FootnoteReference(label) => s.reference(label@),
        NodeValue::TaskItem(checked) => if checked {
            s.text("<input type=\"checkbox\" disabled=\"\" checked=\"\" /> ")
        } else {
            s.text("<input type=\"checkbox\" disabled=\"\" /> ")
        },
        _ => s,
    }
}

/// The state after a node has been left.
pub open spec fn exit_html(
    options: &ComrakOptions,
    s: FormatterView,
    node: &AstNode,
    ctx: Context,
) -> FormatterView {
    match node.value {
        NodeValue::BlockQuote => s.cr().text("</blockquote>\n"),
        NodeValue::List(nl) => s.list_close(nl),
        NodeValue::Item(_) => s.text("</li>\n"),
        NodeValue::DescriptionList => s.text("</dl>\n"),
        NodeValue::DescriptionTerm => s.text("</dt>\n"),
        NodeValue::DescriptionDetails => s.text("</dd>\n"),
        NodeValue::Heading(h) => s.heading_close(h.level),
        NodeValue::Paragraph => s.paragraph(ctx, false),
        NodeValue::Strong => s.text("</strong>"),
        NodeValue::Emph => s.text("</em>"),
        NodeValue::Strikethrough => s.text("</del>"),
        NodeValue::Superscript => s.text("</sup>"),
        NodeValue::Link(_) => s.text("</a>"),
        NodeValue::Image(link) => s.image_close(&link),
        NodeValue::Table(_) => s.table_close(node),
        NodeValue::TableRow(header) => s.row_close(header),
        NodeValue::TableCell => s.cell_close(ctx),
        NodeValue::FootnoteDefinition(_) => s.definition_close(),
        _ => s,
    }
}

/// The state after a node has been visited in plain mode: text, code and
/// inline HTML give their literal, escaped; a line break gives a space.
pub open spec fn plain_html(s: FormatterView, node: &AstNode) -> FormatterView {
    match node.value {
        NodeValue::Text(literal) => s.put(escaped(literal@)),
        NodeValue::Code(code) => s.put(escaped(code.literal@)),
        NodeValue::HtmlInline(literal) => s.put(escaped(literal@)),
        NodeValue::LineBreak | NodeValue::SoftBreak => s.text(" "),
        _ => s,
    }
}

/// What one visit does to the state of the pass.
pub open spec fn html_step(options: &ComrakOptions, s: FormatterView, ev: Event) -> FormatterView {
    match ev.visit {
        Visit::Enter => enter_html(options, s, ev.node, ev.ctx),
        Visit::Exit => exit_html(options, s, ev.node, ev.ctx),
        Visit::Plain => plain_html(s, ev.node),
    }
}

/// The state of the pass after a run of visits.
pub open spec fn html_run(options: &ComrakOptions, s: FormatterView, evs: Seq<Event>) -> FormatterView
    decreases evs.len(),
{
    if evs.len() == 0 {
        s
    } else {
        html_step(options, html_run(options, s, evs.drop_last()), evs.last())
    }
}

/// Whether a node can be visited at its place in the tree: a table cell
/// stands in a row of a table that has a column for it, a table has a row
/// when it is left, and a paragraph has a parent when it is left.
pub open spec fn visit_ok(node: &AstNode, ctx: Context, entering: bool) -> bool {
    match node.value {
        NodeValue::TableCell => in_table(ctx) && (entering ==> ctx.index < table_alignments(
            ctx,
        ).len()),
        NodeValue::Table(_) => entering || node.children@.len() >= 1,
        NodeValue::Paragraph => entering || ctx.parent is Some,
        _ => true,
    }
}

/// Whether a visit enters a footnote definition.
pub open spec fn enters_definition(ev: Event) -> bool {
    ev.visit == Visit::Enter && ev.node.value is FootnoteDefinition
}

/// The number of visits in a run that enter a footnote definition.
pub open spec fn definitions_entered(evs: Seq<Event>) -> nat
    decreases evs.len(),
{
    if evs.len() == 0 {
        0
    } else {
        definitions_entered(evs.drop_last()) + (if enters_definition(evs.last()) {
            1nat
        } else {
            0nat
        })
    }
}

/// The number of footnote definitions in the tree below `node`, `node`
/// included, that a render pass enters: all but those in plain mode, that
/// is, in the alternative text of an image.
pub open spec fn footnote_definitions(node: &AstNode, plain: bool) -> nat
    decreases node, 1nat, 0nat,
{
    if plain {
        0
    } else {
        (if node.value is FootnoteDefinition {
            1nat
        } else {
            0nat
        }) + children_definitions(node, node.value is Image, 0)
    }
}

/// The number of footnote definitions that a render pass enters in the
/// trees below the children of `node` from the `from`-th on.
pub open spec fn children_definitions(node: &AstNode, plain: bool, from: int) -> nat
    decreases node, 0nat, node.children@.len() - from,
{
    if 0 <= from < node.children@.len() {
        footnote_definitions(&node.children@[from], plain) + children_definitions(
            node,
            plain,
            from + 1,
        )
    } else {
        0
    }
}

/// A run of visits can be made in two parts.
pub proof fn lemma_html_run_concat(
    options: &ComrakOptions,
    s: FormatterView,
    first: Seq<Event>,
    second: Seq<Event>,
)
    ensures
        html_run(options, s, first + second) == html_run(
            options,
            html_run(options, s, first),
            second,
        ),
    decreases second.len(),
{
    if second.len() == 0 {
        assert(first + second =~= first);
    } else {
        lemma_html_run_concat(options, s, first, second.drop_last());
        assert((first + second).drop_last() =~= first + second.drop_last());
    }
}

/// The footnote definitions entered in a run are those entered in its
/// parts.
pub proof fn lemma_definitions_entered_concat(first: Seq<Event>, second: Seq<Event>)
    ensures
        definitions_entered(first + second) == definitions_entered(first) + definitions_entered(
            second,
        ),
    decreases second.len(),
{
    if second.len() == 0 {
        assert(first + second =~= first);
    } else {
        lemma_definitions_entered_concat(first, second.drop_last());
        assert((first + second).drop_last() =~= first + second.drop_last());
    }
}

/// The footnote counter goes up by one with each definition entered and
/// by nothing else, and the mark of the last back reference written never
/// passes it.
pub proof fn lemma_footnote_count(options: &ComrakOptions, s: FormatterView, evs: Seq<Event>)
    requires
        s.written_footnote_ix <= s.footnote_ix,
    ensures
        html_run(options, s, evs).footnote_ix == s.footnote_ix + definitions_entered(evs),
        html_run(options, s, evs).written_footnote_ix <= html_run(options, s, evs).footnote_ix,
    decreases evs.len(),
{
    if evs.len() > 0 {
        lemma_footnote_count(options, s, evs.drop_last());
    }
}

/// Footnote definitions are numbered in document order, without gaps:
/// where the `i`-th visit of a run enters a footnote definition, it opens
/// the list item whose number is one more than the number of definitions
/// entered before it, in the run and before the run. A pass starts at
/// zero, so its first item has the number one.
pub proof fn lemma_footnote_numbers(
    options: &ComrakOptions,
    s: FormatterView,
    evs: Seq<Event>,
    i: int,
)
    requires
        s.written_footnote_ix <= s.footnote_ix,
        0 <= i < evs.len(),
        enters_definition(evs[i]),
    ensures
        html_run(options, s, evs.take(i + 1)) == html_run(
            options,
            s,
            evs.take(i),
        ).definition_open(),
        html_run(options, s, evs.take(i)).footnote_ix == s.footnote_ix + definitions_entered(
            evs.take(i),
        ),
        html_run(options, s, evs.take(i + 1)).footnote_ix == s.footnote_ix + definitions_entered(
            evs.take(i),
        ) + 1,
{
    lemma_footnote_count(options, s, evs.take(i));
    assert(evs.take(i + 1).drop_last() =~= evs.take(i));
    assert(evs.take(i + 1).last() == evs[i]);
}

proof fn lemma_plain_node(node: &AstNode, ctx: Context)
    ensures
        definitions_entered(events(node, ctx, true)) == 0,
    decreases node, 1nat, 0nat,
{
    let first = seq![Event { node, ctx, visit: Visit::Plain }];
    assert(first.drop_last() =~= Seq::<Event>::empty());
    assert(definitions_entered(first.drop_last()) == 0);
    lemma_plain_children(node, ctx, 0);
    lemma_definitions_entered_concat(first, children_events(node, ctx, true, 0));
}

proof fn lemma_plain_children(node: &AstNode, ctx: Context, from: int)
    ensures
        definitions_entered(children_events(node, ctx, true, from)) == 0,
    decreases node, 0nat, node.children@.len() - from,
{
    if 0 <= from < node.children@.len() {
        let child_ctx = Context { parent: Some(node), grandparent: ctx.parent, index: from as usize };
        lemma_plain_node(&node.children@[from], child_ctx);
        lemma_plain_children(node, ctx, from + 1);
        lemma_definitions_entered_concat(
            events(&node.children@[from], child_ctx, true),
            children_events(node, ctx, true, from + 1),
        );
    }
}

proof fn lemma_children_definitions(node: &AstNode, ctx: Context, plain: bool, from: int)
    ensures
        definitions_entered(children_events(node, ctx, plain, from)) == children_definitions(
            node,
            plain,
            from,
        ),
    decreases node, 0nat, node.children@.len() - from,
{
    if 0 <= from < node.children@.len() {
        let child_ctx = Context { parent: Some(node), grandparent: ctx.parent, index: from as usize };
        lemma_definitions_counted(&node.children@[from], child_ctx, plain);
        lemma_children_definitions(node, ctx, plain, from + 1);
        lemma_definitions_entered_concat(
            events(&node.children@[from], child_ctx, plain),
            children_events(node, ctx, plain, from + 1),
        );
    }
}

/// A render pass enters each footnote definition of a tree once, but for
/// those in the alternative text of an image, which it does not enter: as
/// many list items are opened as the tree has such definitions.
pub proof fn lemma_definitions_counted(node: &AstNode, ctx: Context, plain: bool)
    ensures
        definitions_entered(events(node, ctx, plain)) == footnote_definitions(node, plain),
    decreases node, 1nat, 0nat,
{
    if plain {
        lemma_plain_node(node, ctx);
    } else {
        let enter = seq![Event { node, ctx, visit: Visit::Enter }];
        let exit = seq![Event { node, ctx, visit: Visit::Exit }];
        let inner = children_events(node, ctx, node.value is Image, 0);
        lemma_children_definitions(node, ctx, node.value is Image, 0);
        lemma_definitions_entered_concat(enter, inner);
        lemma_definitions_entered_concat(enter + inner, exit);
        assert(enter.drop_last() =~= Seq::<Event>::empty());
        assert(exit.drop_last() =~= Seq::<Event>::empty());
        assert(definitions_entered(enter.drop_last()) == 0);
        assert(definitions_entered(exit.drop_last()) == 0);
    }
}

} // verus!

use slidemark::html_slide_format::{format_document_slide, HtmlSlideFormatter};
use slidemark::nodes::{
    AstNode, Context, ListType, NodeCode, NodeCodeBlock, NodeEffect, NodeHeading, NodeHtmlBlock,
    NodeKV, NodeLink, NodeList, NodeSlideMetaDataBlock, NodeValue, TableAlignment,
};
use slidemark::options::ComrakOptions;
use slidemark::slide::SlideHtmlDom;
use slidemark::walk::can_format;
use slidemark::writer::WriteWithLast;

fn node(value: NodeValue, children: Vec<AstNode>) -> AstNode {
    AstNode { value, children }
}

fn text(s: &str) -> AstNode {
    node(NodeValue::Text(s.as_bytes().to_vec()), vec![])
}

fn para(children: Vec<AstNode>) -> AstNode {
    node(NodeValue::Paragraph, children)
}

fn heading(level: u32, s: &str) -> AstNode {
    node(NodeValue::Heading(NodeHeading { level }), vec![text(s)])
}

fn doc(children: Vec<AstNode>) -> AstNode {
    node(NodeValue::Document, children)
}

fn link(url: &str, title: &str, children: Vec<AstNode>) -> AstNode {
    node(
        NodeValue::Link(NodeLink { url: url.as_bytes().to_vec(), title: title.as_bytes().to_vec() }),
        children,
    )
}

fn image(url: &str, title: &str, children: Vec<AstNode>) -> AstNode {
    node(
        NodeValue::Image(NodeLink { url: url.as_bytes().to_vec(), title: title.as_bytes().to_vec() }),
        children,
    )
}

fn render(root: &AstNode, options: &ComrakOptions) -> (String, SlideHtmlDom) {
    assert!(can_format(root, Context::root(), false));
    let (html, dom) = format_document_slide(root, options);
    (String::from_utf8(html).unwrap(), dom)
}

fn html(root: &AstNode, options: &ComrakOptions) -> String {
    render(root, options).0
}

fn unsafe_options() -> ComrakOptions {
    let mut options = ComrakOptions::default();
    options.render.unsafe_ = true;
    options
}

#[test]
fn hello_world_strong() {
    let root = doc(vec![para(vec![
        text("Hello, "),
        node(NodeValue::Strong, vec![text("世界")]),
        text("!"),
    ])]);
    assert_eq!(html(&root, &ComrakOptions::default()), "<p>Hello, <strong>世界</strong>!</p>\n");
}

#[test]
fn title_and_section() {
    let root = doc(vec![
        heading(1, "Title"),
        para(vec![text("Body text")]),
        heading(2, "Section"),
        para(vec![text("More text")]),
    ]);
    let (out, dom) = render(&root, &ComrakOptions::default());
    assert_eq!(
        out,
        "<h1>Title</h1>tttt\n<p>Body text</p>\n<h2>Section</h2>tttt\n<p>More text</p>\n"
    );
    assert!(dom.front.content.starts_with("# "));
    assert!(dom.front.content.contains("Body text"));
    assert_eq!(dom.front.content, "# Title\nBody text");
    assert_eq!(dom.content.len(), 1);
    assert!(dom.content[0].content.starts_with("## "));
    assert!(dom.content[0].content.contains("More text"));
    assert_eq!(dom.content[0].content, "## Section\nMore text");
    assert_eq!(dom.pending_level, 2);
    assert_eq!(dom.pending_content, "");
}

#[test]
fn dangerous_link_is_emptied() {
    let root = doc(vec![
        heading(1, "T"),
        para(vec![link("javascript:alert(1)", "", vec![text("x")])]),
    ]);
    let (out, dom) = render(&root, &ComrakOptions::default());
    assert_eq!(out, "<h1>T</h1>tttt\n<p><a href=\"\">x</a></p>\n");
    assert_eq!(dom.front.content, "# T\n[x]\n");
    assert!(!dom.front.content.contains("javascript"));
    assert!(!dom.front.content.contains("("));
}

#[test]
fn dangerous_link_is_kept_in_unsafe_mode() {
    let root = doc(vec![
        heading(1, "T"),
        para(vec![link("javascript:alert(1)", "", vec![text("x")])]),
    ]);
    let (out, dom) = render(&root, &unsafe_options());
    assert_eq!(out, "<h1>T</h1>tttt\n<p><a href=\"javascript:alert(1)\">x</a></p>\n");
    assert_eq!(dom.front.content, "# T\n[x]\n(javascript:alert(1))");
}

#[test]
fn two_equal_headings_get_distinct_anchors() {
    let root = doc(vec![heading(1, "Intro"), heading(1, "Intro")]);
    let mut options = ComrakOptions::default();
    options.extension.header_ids = Some("user-".to_string());
    let out = html(&root, &options);
    assert_eq!(
        out,
        "<h1><a href=\"#intro\" aria-hidden=\"true\" class=\"anchor\" id=\"user-intro\"></a>Intro</h1>tttt\n\
         <h1><a href=\"#intro-1\" aria-hidden=\"true\" class=\"anchor\" id=\"user-intro-1\"></a>Intro</h1>tttt\n"
    );
}

#[test]
fn heading_anchor_collects_text_of_descendants() {
    let h = node(
        NodeValue::Heading(NodeHeading { level: 2 }),
        vec![
            text("Big "),
            node(NodeValue::Emph, vec![text("Deal")]),
            node(NodeValue::SoftBreak, vec![]),
            node(NodeValue::Code(NodeCode { literal: b"x&y".to_vec() }), vec![]),
        ],
    );
    let root = doc(vec![h]);
    let mut options = ComrakOptions::default();
    options.extension.header_ids = Some(String::new());
    assert_eq!(
        html(&root, &options),
        "<h2><a href=\"#big-deal-xy\" aria-hidden=\"true\" class=\"anchor\" id=\"big-deal-xy\"></a>Big <em>Deal</em>\n<code>x&amp;y</code></h2>tttt\n"
    );
}

#[test]
fn footnote_definitions_are_numbered_from_one() {
    let def = |name: &str, body: &str| {
        node(NodeValue::FootnoteDefinition(name.as_bytes().to_vec()), vec![para(vec![text(body)])])
    };
    let root = doc(vec![
        para(vec![
            text("a"),
            node(NodeValue::FootnoteReference(b"1".to_vec()), vec![]),
        ]),
        def("x", "first"),
        def("y", "second"),
        def("z", "third"),
    ]);
    let out = html(&root, &ComrakOptions::default());
    assert_eq!(
        out,
        "<p>a<sup class=\"footnote-ref\"><a href=\"#fn1\" id=\"fnref1\">1</a></sup></p>\n\
         <section class=\"footnotes\">\n<ol>\n\
         <li id=\"fn1\">\n<p>first <a href=\"#fnref1\" class=\"footnote-backref\">↩</a></p>\n</li>\n\
         <li id=\"fn2\">\n<p>second <a href=\"#fnref2\" class=\"footnote-backref\">↩</a></p>\n</li>\n\
         <li id=\"fn3\">\n<p>third <a href=\"#fnref3\" class=\"footnote-backref\">↩</a></p>\n</li>\n"
    );
    assert_eq!(out.matches("<li id=\"fn").count(), 3);
    let first = out.find("<li id=\"fn1\">").unwrap();
    let second = out.find("<li id=\"fn2\">").unwrap();
    let third = out.find("<li id=\"fn3\">").unwrap();
    assert!(first < second && second < third);
}

#[test]
fn footnote_back_reference_is_written_once() {
    let def = node(
        NodeValue::FootnoteDefinition(b"x".to_vec()),
        vec![para(vec![text("p")]), node(NodeValue::ThematicBreak, vec![])],
    );
    let out = html(&doc(vec![def]), &ComrakOptions::default());
    assert_eq!(
        out,
        "<section class=\"footnotes\">\n<ol>\n<li id=\"fn1\">\n<p>p</p>\n<hr />\n\
         <a href=\"#fnref1\" class=\"footnote-backref\">↩</a>\n</li>\n"
    );
    assert_eq!(out.matches("footnote-backref").count(), 1);
}

#[test]
fn footnote_reference_uses_its_label() {
    let root = doc(vec![para(vec![node(NodeValue::FootnoteReference(b"note".to_vec()), vec![])])]);
    assert_eq!(
        html(&root, &ComrakOptions::default()),
        "<p><sup class=\"footnote-ref\"><a href=\"#fnnote\" id=\"fnrefnote\">note</a></sup></p>\n"
    );
}

#[test]
fn content_before_first_heading_is_dropped() {
    let meta = node(
        NodeValue::SlideMetaDataBlock(NodeSlideMetaDataBlock {
            literal: b"k:v".to_vec(),
            metadatas: vec![NodeKV { key: b"k".to_vec(), value: b"v".to_vec() }],
        }),
        vec![],
    );
    let root = doc(vec![
        para(vec![text("early")]),
        meta,
        heading(1, "One"),
        para(vec![text("kept")]),
        heading(2, "Two"),
        para(vec![text("late")]),
    ]);
    let (_, dom) = render(&root, &ComrakOptions::default());
    assert_eq!(dom.front.content, "# One\nkept");
    assert!(dom.front.meta.entries().is_empty());
    assert_eq!(dom.content.len(), 1);
    assert_eq!(dom.content[0].content, "## Two\nlate");
    assert!(dom.content[0].meta.entries().is_empty());
}

#[test]
fn content_before_a_deep_first_heading_is_dropped() {
    let root = doc(vec![para(vec![text("early")]), heading(3, "Deep"), para(vec![text("in")])]);
    let (_, dom) = render(&root, &ComrakOptions::default());
    assert_eq!(dom.front.content, "Deep\nin");
    assert_eq!(dom.content.len(), 0);
}

#[test]
fn document_without_heading_has_empty_slide_document() {
    let root = doc(vec![para(vec![text("only")])]);
    let (out, dom) = render(&root, &ComrakOptions::default());
    assert_eq!(out, "<p>only</p>\n");
    assert_eq!(dom.front.content, "");
    assert_eq!(dom.content.len(), 0);
    assert_eq!(dom.pending_level, 0);
    assert_eq!(dom.pending_content, "");
}

#[test]
fn content_sections_number_one_less_than_headings() {
    for count in 1..6usize {
        let mut children = Vec::new();
        for i in 0..count {
            children.push(heading(2, &format!("H{}", i)));
            children.push(para(vec![text("p")]));
        }
        let (_, dom) = render(&doc(children), &ComrakOptions::default());
        assert_eq!(dom.content.len(), count - 1);
        assert_eq!(dom.front.content, "## H0\np");
        assert_eq!(dom.pending_level as usize, count);
    }
}

#[test]
fn metadata_block_sets_the_section_metadata() {
    let block = |pairs: &[(&str, &str)]| {
        node(
            NodeValue::SlideMetaDataBlock(NodeSlideMetaDataBlock {
                literal: Vec::new(),
                metadatas: pairs
                    .iter()
                    .map(|(k, v)| NodeKV { key: k.as_bytes().to_vec(), value: v.as_bytes().to_vec() })
                    .collect(),
            }),
            vec![],
        )
    };
    let root = doc(vec![
        heading(1, "A"),
        block(&[("lost", "1")]),
        block(&[("theme", "dark"), ("theme", "light"), ("size", "2")]),
        heading(2, "B"),
    ]);
    let (out, dom) = render(&root, &ComrakOptions::default());
    assert_eq!(out, "<h1>A</h1>tttt\n<h2>B</h2>tttt\n");
    assert_eq!(dom.front.meta.get(&"theme".to_string()), Some(&"light".to_string()));
    assert_eq!(dom.front.meta.get(&"size".to_string()), Some(&"2".to_string()));
    assert_eq!(dom.front.meta.get(&"lost".to_string()), None);
    assert_eq!(dom.front.meta.entries().len(), 2);
    assert_eq!(dom.content.len(), 1);
    assert_eq!(dom.content[0].content, "## B");
    assert!(dom.content[0].meta.entries().is_empty());
}

#[test]
fn slide_projection_of_text_links_and_images() {
    let item = node(
        NodeValue::Item(NodeList { list_type: ListType::Bullet, start: 1, tight: true }),
        vec![para(vec![text("point")])],
    );
    let list = node(
        NodeValue::List(NodeList { list_type: ListType::Bullet, start: 1, tight: true }),
        vec![item],
    );
    let root = doc(vec![
        heading(1, "S"),
        list,
        para(vec![
            link("http://a.b/", "tip", vec![text("here")]),
            image("pic.png", "ignored", vec![text("alt"), text("more")]),
            image("file:///x", "", vec![node(NodeValue::Emph, vec![text("e")])]),
            node(NodeValue::LineBreak, vec![]),
            node(NodeValue::SoftBreak, vec![]),
            node(NodeValue::Strong, vec![text("b")]),
        ]),
        node(NodeValue::DescriptionList, vec![]),
    ]);
    let (out, dom) = render(&root, &ComrakOptions::default());
    assert_eq!(
        dom.front.content,
        "# S\n- point\n[here]\n[tip](http://a.b/)![alt](pic.png)![]\n\n\nb\n"
    );
    assert_eq!(
        out,
        "<h1>S</h1>tttt\n<ul>\n<li>point</li>\n</ul>\n\
         <p><a href=\"http://a.b/\" title=\"tip\">here</a>\
         <img src=\"pic.png\" alt=\"altmore\" title=\"ignored\" />\
         <img src=\"\" alt=\"e\" /><br />\n\n<strong>b</strong></p>\n<dl></dl>\n"
    );
}

#[test]
fn slide_projection_decodes_lossily() {
    let root = doc(vec![
        heading(1, "S"),
        para(vec![node(NodeValue::Text(vec![b'a', 0xff, b'b']), vec![])]),
    ]);
    assert!(can_format(&root, Context::root(), false));
    let (out, dom) = format_document_slide(&root, &ComrakOptions::default());
    assert_eq!(dom.front.content, "# S\na\u{fffd}b");
    assert_eq!(out, b"<h1>S</h1>tttt\n<p>a\xffb</p>\n".to_vec());
}

#[test]
fn image_alt_text_is_plain() {
    let img = image(
        "a b.png",
        "",
        vec![
            text("x<y"),
            node(NodeValue::Strong, vec![text("bold")]),
            node(NodeValue::LineBreak, vec![]),
            node(NodeValue::Code(NodeCode { literal: b"c".to_vec() }), vec![]),
            node(NodeValue::HtmlInline(b"<i>".to_vec()), vec![]),
            node(NodeValue::FootnoteDefinition(b"f".to_vec()), vec![]),
        ],
    );
    let root = doc(vec![para(vec![img])]);
    assert_eq!(
        html(&root, &ComrakOptions::default()),
        "<p><img src=\"a%20b.png\" alt=\"x&lt;ybold c&lt;i&gt;\" /></p>\n"
    );
}

#[test]
fn lists_tight_and_loose() {
    let item = |tight: bool, s: &str| {
        node(
            NodeValue::Item(NodeList { list_type: ListType::Ordered, start: 1, tight }),
            vec![para(vec![text(s)])],
        )
    };
    let tight = node(
        NodeValue::List(NodeList { list_type: ListType::Ordered, start: 1, tight: true }),
        vec![item(true, "a"), item(true, "b")],
    );
    let loose = node(
        NodeValue::List(NodeList { list_type: ListType::Ordered, start: 42, tight: false }),
        vec![item(false, "c")],
    );
    let bullets = node(
        NodeValue::List(NodeList { list_type: ListType::Bullet, start: 7, tight: false }),
        vec![],
    );
    let out = html(&doc(vec![tight, loose, bullets]), &ComrakOptions::default());
    assert_eq!(
        out,
        "<ol>\n<li>a</li>\n<li>b</li>\n</ol>\n\
         <ol start=\"42\">\n<li>\n<p>c</p>\n</li>\n</ol>\n\
         <ul>\n</ul>\n"
    );
}

#[test]
fn list_start_is_written_in_decimal() {
    let list = |start: usize| {
        node(
            NodeValue::List(NodeList { list_type: ListType::Ordered, start, tight: true }),
            vec![],
        )
    };
    let out = html(&doc(vec![list(0), list(10), list(1234567890)]), &ComrakOptions::default());
    assert_eq!(
        out,
        "<ol start=\"0\">\n</ol>\n<ol start=\"10\">\n</ol>\n<ol start=\"1234567890\">\n</ol>\n"
    );
}

#[test]
fn block_quote_and_breaks() {
    let root = doc(vec![
        node(NodeValue::BlockQuote, vec![para(vec![text("q")])]),
        node(NodeValue::ThematicBreak, vec![]),
        para(vec![text("a"), node(NodeValue::SoftBreak, vec![]), text("b")]),
    ]);
    assert_eq!(
        html(&root, &ComrakOptions::default()),
        "<blockquote>\n<p>q</p>\n</blockquote>\n<hr />\n<p>a\nb</p>\n"
    );
    let mut hard = ComrakOptions::default();
    hard.render.hardbreaks = true;
    assert_eq!(
        html(&root, &hard),
        "<blockquote>\n<p>q</p>\n</blockquote>\n<hr />\n<p>a<br />\nb</p>\n"
    );
}

#[test]
fn newline_is_written_once_between_blocks() {
    let inner = node(NodeValue::BlockQuote, vec![node(NodeValue::BlockQuote, vec![])]);
    let root = doc(vec![node(NodeValue::BlockQuote, vec![inner]), para(vec![])]);
    assert_eq!(
        html(&root, &ComrakOptions::default()),
        "<blockquote>\n<blockquote>\n<blockquote>\n</blockquote>\n</blockquote>\n</blockquote>\n<p></p>\n"
    );
    let inline = doc(vec![
        node(NodeValue::Emph, vec![text("e")]),
        node(NodeValue::BlockQuote, vec![]),
    ]);
    assert_eq!(
        html(&inline, &ComrakOptions::default()),
        "<em>e</em>\n<blockquote>\n</blockquote>\n"
    );
}

#[test]
fn inline_styles() {
    let root = doc(vec![para(vec![
        node(NodeValue::Emph, vec![text("e")]),
        node(NodeValue::Strikethrough, vec![text("d")]),
        node(NodeValue::Superscript, vec![text("s")]),
        node(NodeValue::Code(NodeCode { literal: b"a<b".to_vec() }), vec![]),
        node(NodeValue::LineBreak, vec![]),
        text("\"q\" & <t>"),
    ])]);
    assert_eq!(
        html(&root, &ComrakOptions::default()),
        "<p><em>e</em><del>d</del><sup>s</sup><code>a&lt;b</code><br />\n&quot;q&quot; &amp; &lt;t&gt;</p>\n"
    );
}

#[test]
fn code_blocks() {
    let block = |info: &str, literal: &str| {
        node(
            NodeValue::CodeBlock(NodeCodeBlock {
                info: info.as_bytes().to_vec(),
                literal: literal.as_bytes().to_vec(),
            }),
            vec![],
        )
    };
    let root = doc(vec![block("", "a<b\n"), block("rust\"x extra", "fn f() {}\n"), block(" lead", "x")]);
    assert_eq!(
        html(&root, &ComrakOptions::default()),
        "<pre><code>a&lt;b\n</code></pre>\n\
         <pre><code class=\"language-rust&quot;x\">fn f() {}\n</code></pre>\n\
         <pre><code class=\"language-\">x</code></pre>\n"
    );
    let mut gh = ComrakOptions::default();
    gh.render.github_pre_lang = true;
    assert_eq!(
        html(&root, &gh),
        "<pre><code>a&lt;b\n</code></pre>\n\
         <pre lang=\"rust&quot;x\"><code>fn f() {}\n</code></pre>\n\
         <pre lang=\"\"><code>x</code></pre>\n"
    );
}

#[test]
fn omitted_inline_html_and_footnote_definitions_reach_the_slide_text() {
    let root = doc(vec![
        heading(1, "H"),
        para(vec![node(NodeValue::HtmlInline(b"<b>".to_vec()), vec![])]),
        node(NodeValue::FootnoteDefinition(b"f".to_vec()), vec![]),
    ]);
    let (_, dom) = render(&root, &ComrakOptions::default());
    assert_eq!(dom.front.content, "# H\n <b>\n");
    let (_, dom) = render(&root, &unsafe_options());
    assert_eq!(dom.front.content, "# H\n\n");
    let mut escape = ComrakOptions::default();
    escape.render.escape = true;
    let (_, dom) = render(&root, &escape);
    assert_eq!(dom.front.content, "# H\n\n");
}

#[test]
fn raw_html_modes() {
    let root = doc(vec![
        node(
            NodeValue::HtmlBlock(NodeHtmlBlock { literal: b"<div><script>x</script></div>".to_vec() }),
            vec![],
        ),
        para(vec![
            node(NodeValue::HtmlInline(b"<SCRIPT src=a>".to_vec()), vec![]),
            node(NodeValue::HtmlInline(b"<b>".to_vec()), vec![]),
        ]),
    ]);
    assert_eq!(
        html(&root, &ComrakOptions::default()),
        "<!-- raw HTML omitted -->\n<p><!-- raw HTML omitted --><!-- raw HTML omitted --></p>\n"
    );
    let mut escape = ComrakOptions::default();
    escape.render.escape = true;
    escape.render.unsafe_ = true;
    assert_eq!(
        html(&root, &escape),
        "&lt;div&gt;&lt;script&gt;x&lt;/script&gt;&lt;/div&gt;\n<p>&lt;SCRIPT src=a&gt;&lt;b&gt;</p>\n"
    );
    assert_eq!(
        html(&root, &unsafe_options()),
        "<div><script>x</script></div>\n<p><SCRIPT src=a><b></p>\n"
    );
    let mut filter = unsafe_options();
    filter.extension.tagfilter = true;
    assert_eq!(
        html(&root, &filter),
        "<div>&lt;script>x&lt;/script></div>\n<p>&lt;SCRIPT src=a><b></p>\n"
    );
}

#[test]
fn tables() {
    let cell = |s: &str| node(NodeValue::TableCell, vec![text(s)]);
    let table = node(
        NodeValue::Table(vec![
            TableAlignment::Left,
            TableAlignment::Center,
            TableAlignment::Right,
            TableAlignment::Unaligned,
        ]),
        vec![
            node(NodeValue::TableRow(true), vec![cell("a"), cell("b"), cell("c"), cell("d")]),
            node(NodeValue::TableRow(false), vec![cell("1"), cell("2"), cell("3"), cell("4")]),
            node(NodeValue::TableRow(false), vec![cell("5")]),
        ],
    );
    assert_eq!(
        html(&doc(vec![table]), &ComrakOptions::default()),
        "<table>\n<thead>\n<tr>\n<th align=\"left\">a</th>\n<th align=\"center\">b</th>\n\
         <th align=\"right\">c</th>\n<th>d</th>\n</tr>\n</thead>\n\
         <tbody>\n<tr>\n<td align=\"left\">1</td>\n<td align=\"center\">2</td>\n\
         <td align=\"right\">3</td>\n<td>4</td>\n</tr>\n\
         <tr>\n<td align=\"left\">5</td>\n</tr>\n</tbody>\n</table>\n"
    );
    let header_only = node(
        NodeValue::Table(vec![TableAlignment::Unaligned]),
        vec![node(NodeValue::TableRow(true), vec![cell("h")])],
    );
    assert_eq!(
        html(&doc(vec![header_only]), &ComrakOptions::default()),
        "<table>\n<thead>\n<tr>\n<th>h</th>\n</tr>\n</thead>\n</table>\n"
    );
}

#[test]
fn description_lists_and_task_items() {
    let root = doc(vec![
        node(
            NodeValue::DescriptionList,
            vec![node(
                NodeValue::DescriptionItem,
                vec![
                    node(NodeValue::DescriptionTerm, vec![para(vec![text("term")])]),
                    node(NodeValue::DescriptionDetails, vec![para(vec![text("details")])]),
                ],
            )],
        ),
        para(vec![node(NodeValue::TaskItem(true), vec![]), node(NodeValue::TaskItem(false), vec![])]),
    ]);
    assert_eq!(
        html(&root, &ComrakOptions::default()),
        "<dl><dt>term</dt>\n<dd>\n<p>details</p>\n</dd>\n</dl>\n\
         <p><input type=\"checkbox\" disabled=\"\" checked=\"\" /> \
         <input type=\"checkbox\" disabled=\"\" /> </p>\n"
    );
}

#[test]
fn effects_are_closed_by_the_next_heading_or_paragraph() {
    let effect = |s: &str| node(NodeValue::Effect(NodeEffect { literal: s.as_bytes().to_vec() }), vec![]);
    let root = doc(vec![
        effect("fade in=\"1\""),
        heading(1, "H"),
        effect("zoom"),
        para(vec![text("p")]),
        para(vec![text("q")]),
    ]);
    assert_eq!(
        html(&root, &ComrakOptions::default()),
        "<effect fade in=\"1\">\n\n</effect>\n<h1>H</h1>tttt\n<effect zoom>\n\n</effect>\n<p>p</p>\n<p>q</p>\n"
    );
}

#[test]
fn nodes_without_markup() {
    let root = doc(vec![
        node(NodeValue::FrontMatter(b"---\n".to_vec()), vec![]),
        node(NodeValue::KV(NodeKV { key: b"k".to_vec(), value: b"v".to_vec() }), vec![]),
    ]);
    assert_eq!(html(&root, &ComrakOptions::default()), "");
}

#[test]
fn format_node_v2_writes_html_only() {
    let options = ComrakOptions::default();
    let mut f = HtmlSlideFormatter::new(&options, WriteWithLast::new());
    let h = heading(1, "T");
    assert!(!f.format_node_v2(&h, Context::root(), true));
    assert!(!f.format_node_v2(&h, Context::root(), false));
    let img = image("u", "t", vec![]);
    assert!(f.format_node_v2(&img, Context::root(), true));
    assert!(!f.format_node_v2(&img, Context::root(), false));
    assert_eq!(
        f.into_output().into_bytes(),
        b"<h1></h1>tttt\n<img src=\"u\" alt=\"\" title=\"t\" />".to_vec()
    );
}

#[test]
fn format_node_updates_both_outputs() {
    let options = ComrakOptions::default();
    let mut f = HtmlSlideFormatter::new(&options, WriteWithLast::new());
    let mut dom = SlideHtmlDom::new();
    let h = heading(2, "T");
    assert!(!f.format_node(&h, Context::root(), &mut dom, true));
    assert_eq!(dom.pending_level, 1);
    assert_eq!(dom.pending_content, "## ");
    let t = text("x");
    let ctx = Context::root().child(&h, 0);
    assert!(!f.format_node(&t, ctx, &mut dom, true));
    assert!(!f.format_node(&t, ctx, &mut dom, false));
    assert!(!f.format_node(&h, Context::root(), &mut dom, false));
    assert_eq!(dom.pending_content, "## x");
    f.setupSlideDomContent(&mut dom);
    assert_eq!(dom.front.content, "## x");
    assert_eq!(dom.pending_content, "");
    assert_eq!(f.into_output().into_bytes(), b"<h2>x</h2>tttt\n".to_vec());
}

#[test]
fn format_in_plain_mode_writes_text_only() {
    let options = ComrakOptions::default();
    let mut f = HtmlSlideFormatter::new(&options, WriteWithLast::new());
    let mut dom = SlideHtmlDom::new();
    let root = para(vec![text("a&"), heading(1, "h"), node(NodeValue::SoftBreak, vec![])]);
    f.format(&root, Context::root(), &mut dom, true);
    assert_eq!(dom.pending_level, 0);
    assert_eq!(dom.pending_content, "");
    assert_eq!(f.into_output().into_bytes(), b"a&amp;h ".to_vec());
}

#[test]
fn collect_text_gathers_literals() {
    let options = ComrakOptions::default();
    let f = HtmlSlideFormatter::new(&options, WriteWithLast::new());
    let h = node(
        NodeValue::Heading(NodeHeading { level: 1 }),
        vec![
            text("a"),
            node(NodeValue::Strong, vec![text("b"), node(NodeValue::LineBreak, vec![])]),
            node(NodeValue::Code(NodeCode { literal: b"c".to_vec() }), vec![]),
            node(NodeValue::HtmlInline(b"<x>".to_vec()), vec![]),
        ],
    );
    let mut out = b">".to_vec();
    f.collect_text(&h, &mut out);
    assert_eq!(out, b">ab c".to_vec());
}

#[test]
fn malformed_trees_are_recognised() {
    let cell = node(NodeValue::TableCell, vec![]);
    assert!(!can_format(&doc(vec![cell]), Context::root(), false));
    let row = node(NodeValue::TableRow(false), vec![node(NodeValue::TableCell, vec![])]);
    assert!(!can_format(&doc(vec![row]), Context::root(), false));
    let narrow = node(
        NodeValue::Table(vec![]),
        vec![node(NodeValue::TableRow(false), vec![node(NodeValue::TableCell, vec![])])],
    );
    assert!(!can_format(&narrow, Context::root(), false));
    let empty_table = node(NodeValue::Table(vec![]), vec![]);
    assert!(!can_format(&empty_table, Context::root(), false));
    assert!(!can_format(&para(vec![]), Context::root(), false));
    assert!(can_format(&doc(vec![para(vec![])]), Context::root(), false));
    let hidden = image("u", "", vec![node(NodeValue::TableCell, vec![])]);
    assert!(can_format(&hidden, Context::root(), false));
    assert!(can_format(&node(NodeValue::TableCell, vec![]), Context::root(), true));
}

//! The slide document: a front section and an ordered list of content
//! sections, built from the headings and the text that a render pass meets.

use vstd::prelude::*;
use crate::nodes::{
    children_events,
    events,
    AstNode,
    Context,
    Event,
    NodeKV,
    NodeLink,
    NodeValue,
    Visit,
};
use crate::options::ComrakOptions;
use crate::tagfilter::is_dangerous_url;
use crate::text::utf8_lossy;

verus! {

/// The mapping that a list of entries stands for: a later entry replaces an
/// earlier one with the same key.
pub open spec fn entries_map(entries: Seq<(String, String)>) -> Map<Seq<char>, Seq<char>>
    decreases entries.len(),
{
    if entries.len() == 0 {
        Map::<Seq<char>, Seq<char>>::empty()
    } else {
        entries_map(entries.drop_last()).insert(entries.last().0@, entries.last().1@)
    }
}

proof fn lemma_entries_map_absent(entries: Seq<(String, String)>, key: Seq<char>)
    requires
        forall|j: int| 0 <= j < entries.len() ==> entries[j].0@ != key,
    ensures
        !entries_map(entries).contains_key(key),
    decreases entries.len(),
{
    if entries.len() > 0 {
        lemma_entries_map_absent(entries.drop_last(), key);
    }
}

proof fn lemma_entries_map_last(entries: Seq<(String, String)>, i: int)
    requires
        0 <= i < entries.len(),
        forall|j: int| i < j < entries.len() ==> entries[j].0@ != entries[i].0@,
    ensures
        entries_map(entries).contains_key(entries[i].0@),
        entries_map(entries)[entries[i].0@] == entries[i].1@,
    decreases entries.len(),
{
    if i < entries.len() - 1 {
        lemma_entries_map_last(entries.drop_last(), i);
    }
}

proof fn lemma_entries_map_update(entries: Seq<(String, String)>, i: int, entry: (String, String))
    requires
        0 <= i < entries.len(),
        entries[i].0@ == entry.0@,
        forall|j: int| i < j < entries.len() ==> entries[j].0@ != entry.0@,
    ensures
        entries_map(entries.update(i, entry)) == entries_map(entries).insert(entry.0@, entry.1@),
    decreases entries.len(),
{
    let updated = entries.update(i, entry);
    if i == entries.len() - 1 {
        assert(updated.drop_last() =~= entries.drop_last());
        assert(entries_map(updated) =~= entries_map(entries).insert(entry.0@, entry.1@));
    } else {
        lemma_entries_map_update(entries.drop_last(), i, entry);
        assert(updated.drop_last() =~= entries.drop_last().update(i, entry));
        assert(updated.last() == entries.last());
        assert(entries_map(updated) =~= entries_map(entries).insert(entry.0@, entry.1@));
    }
}

/// The metadata of a section: a mapping from keys to values.
#[derive(Debug)]
pub struct Meta {
    entries: Vec<(String, String)>,
}

impl View for Meta {
    type V = Map<Seq<char>, Seq<char>>;

    closed spec fn view(&self) -> Map<Seq<char>, Seq<char>> {
        entries_map(self.entries@)
    }
}

impl Meta {
    /// The empty mapping.
    pub fn new() -> (m: Self)
        ensures
            m@ == Map::<Seq<char>, Seq<char>>::empty(),
    {
        Meta { entries: Vec::new() }
    }

    /// Maps `key` to `value`; an earlier value of `key` is replaced.
    pub fn insert(&mut self, key: String, value: String)
        ensures
            final(self)@ == old(self)@.insert(key@, value@),
    {
        let mut i: usize = self.entries.len();
        while i > 0
            invariant
                i <= self.entries@.len(),
                self.entries@ == old(self).entries@,
                forall|j: int| i <= j < self.entries@.len() ==> self.entries@[j].0@ != key@,
            decreases i,
        {
            if self.entries[i - 1].0 == key {
                proof {
                    lemma_entries_map_update(self.entries@, i - 1, (key, value));
                }
                self.entries.set(i - 1, (key, value));
                return ;
            }
            i -= 1;
        }
        self.entries.push((key, value));
        assert(self.entries@.drop_last() =~= old(self).entries@);
    }

    /// The value of `key`, if it has one.
    pub fn get(&self, key: &String) -> (r: Option<&String>)
        ensures
            match r {
                Some(value) => self@.contains_key(key@) && self@[key@] == value@,
                None => !self@.contains_key(key@),
            },
    {
        let mut i: usize = self.entries.len();
        while i > 0
            invariant
                i <= self.entries@.len(),
                forall|j: int| i <= j < self.entries@.len() ==> self.entries@[j].0@ != key@,
            decreases i,
        {
            if self.entries[i - 1].0 == *key {
                proof {
                    lemma_entries_map_last(self.entries@, i - 1);
                }
                return Some(&self.entries[i - 1].1);
            }
            i -= 1;
        }
        proof {
            lemma_entries_map_absent(self.entries@, key@);
        }
        None
    }

    /// The entries that make up the mapping; where a key occurs twice, the
    /// later entry counts.
    pub fn entries(&self) -> (entries: &Vec<(String, String)>)
        ensures
            entries_map(entries@) == self@,
    {
        &self.entries
    }
}

/// A section of a slide document, as a value.
pub struct SectionView {
    /// The metadata of the section.
    pub meta: Map<Seq<char>, Seq<char>>,
    /// The text of the section.
    pub content: Seq<char>,
}

/// One section of a slide document: its metadata and its text.
#[derive(Debug)]
pub struct SlideSectionHtmlDom {
    /// The metadata of the section.
    pub meta: Meta,
    /// The text of the section.
    pub content: String,
}

impl View for SlideSectionHtmlDom {
    type V = SectionView;

    open spec fn view(&self) -> SectionView {
        SectionView { meta: self.meta@, content: self.content@ }
    }
}

impl SlideSectionHtmlDom {
    /// A section without metadata and without text.
    pub fn new() -> (s: Self)
        ensures
            s@ == SectionView::empty(),
    {
        SlideSectionHtmlDom { meta: Meta::new(), content: String::new() }
    }
}

impl SectionView {
    /// The section without metadata and without text.
    pub open spec fn empty() -> SectionView {
        SectionView { meta: Map::empty(), content: Seq::empty() }
    }
}

/// A slide document, as a value.
pub struct SlideView {
    /// The front section.
    pub front: SectionView,
    /// The content sections, in document order.
    pub content: Seq<SectionView>,
    /// The number of headings seen.
    pub pending_level: nat,
    /// The text collected since the last flush.
    pub pending_content: Seq<char>,
    /// The metadata collected since the last flush.
    pub pending_meta: Map<Seq<char>, Seq<char>>,
}

/// A slide document under construction: the sections committed so far, and
/// what has been collected for the section that is open.
#[derive(Debug)]
pub struct SlideHtmlDom {
    /// The front section.
    pub front: SlideSectionHtmlDom,
    /// The content sections, in document order.
    pub content: Vec<SlideSectionHtmlDom>,
    /// The number of headings seen.
    pub pending_level: u64,
    /// The text collected since the last flush.
    pub pending_content: String,
    /// The metadata collected since the last flush.
    pub pending_meta: Meta,
}

impl View for SlideHtmlDom {
    type V = SlideView;

    open spec fn view(&self) -> SlideView {
        SlideView {
            front: self.front@,
            content: self.content@.map_values(|s: SlideSectionHtmlDom| s@),
            pending_level: self.pending_level as nat,
            pending_content: self.pending_content@,
            pending_meta: self.pending_meta@,
        }
    }
}

impl SlideHtmlDom {
    /// A slide document with nothing in it.
    pub fn new() -> (dom: Self)
        ensures
            dom@ == SlideView::empty(),
    {
        let dom = SlideHtmlDom {
            front: SlideSectionHtmlDom { meta: Meta::new(), content: String::new() },
            content: Vec::new(),
            pending_level: 0,
            pending_content: String::new(),
            pending_meta: Meta::new(),
        };
        assert(dom@.content =~= Seq::<SectionView>::empty());
        dom
    }
}

/// The mapping that a block of slide metadata stands for: keys and values
/// decoded lossily, a later entry replacing an earlier one with its key.
pub open spec fn meta_of(metadatas: Seq<NodeKV>) -> Map<Seq<char>, Seq<char>>
    decreases metadatas.len(),
{
    if metadatas.len() == 0 {
        Map::<Seq<char>, Seq<char>>::empty()
    } else {
        meta_of(metadatas.drop_last()).insert(
            utf8_lossy(metadatas.last().key@),
            utf8_lossy(metadatas.last().value@),
        )
    }
}

/// Whether the target of a link or an image may be shown: always in unsafe
/// mode, else only where it is not dangerous.
pub open spec fn url_shown(options: &ComrakOptions, url: Seq<u8>) -> bool {
    options.render.unsafe_ || !is_dangerous_url(url)
}

/// Whether the parent of a node is a link.
pub open spec fn parent_is_link(ctx: Context) -> bool {
    match ctx.parent {
        Some(p) => p.value is Link,
        None => false,
    }
}

/// Whether a node has a parent and its parent's parent is a list item.
pub open spec fn grandparent_is_item(ctx: Context) -> bool {
    match (ctx.parent, ctx.grandparent) {
        (Some(_), Some(g)) => g.value is Item,
        _ => false,
    }
}

/// What a text node adds to the text of a section: in a link `[text]`, in a
/// list item `- text`, else the text.
pub open spec fn text_projection(ctx: Context, text: Seq<char>) -> Seq<char> {
    if parent_is_link(ctx) {
        "["@ + text + "]"@
    } else if grandparent_is_item(ctx) {
        "- "@ + text
    } else {
        text
    }
}

/// What `(url)` adds for a link or an image: nothing where the target may
/// not be shown.
pub open spec fn url_projection(options: &ComrakOptions, url: Seq<u8>) -> Seq<char> {
    if url_shown(options, url) {
        "("@ + utf8_lossy(url) + ")"@
    } else {
        Seq::<char>::empty()
    }
}

/// What a link adds to the text of a section when it is left: a line
/// break, `[title]` where it has a title, and `(url)`.
pub open spec fn link_projection(options: &ComrakOptions, link: &NodeLink) -> Seq<char> {
    "\n"@ + (if link.title@.len() > 0 {
        "["@ + utf8_lossy(link.title@) + "]"@
    } else {
        Seq::<char>::empty()
    }) + url_projection(options, link.url@)
}

/// The text of the first child of a node where that child is a text node,
/// else the empty text.
pub open spec fn first_child_text(node: &AstNode) -> Seq<char> {
    if node.children@.len() > 0 {
        match node.children@[0].value {
            NodeValue::Text(literal) => utf8_lossy(literal@),
            _ => Seq::<char>::empty(),
        }
    } else {
        Seq::<char>::empty()
    }
}

/// What an image adds to the text of a section when it is left:
/// `![text]` and `(url)`.
pub open spec fn image_projection(
    options: &ComrakOptions,
    node: &AstNode,
    link: &NodeLink,
) -> Seq<char> {
    "!["@ + first_child_text(node) + "]"@ + url_projection(options, link.url@)
}

/// The text with which the section of a heading starts: `# ` at level 1,
/// `## ` at level 2, nothing at the other levels.
pub open spec fn heading_prefix(level: u32) -> Seq<char> {
    if level == 1 {
        "# "@
    } else if level == 2 {
        "## "@
    } else {
        Seq::<char>::empty()
    }
}

impl SlideView {
    /// The slide document with nothing in it.
    pub open spec fn empty() -> SlideView {
        SlideView {
            front: SectionView::empty(),
            content: Seq::empty(),
            pending_level: 0,
            pending_content: Seq::empty(),
            pending_meta: Map::empty(),
        }
    }

    /// The section that is open.
    pub open spec fn pending(self) -> SectionView {
        SectionView { meta: self.pending_meta, content: self.pending_content }
    }

    /// The document after a flush. Before the first heading what has been
    /// collected is dropped; after the first it becomes the front section;
    /// after a later one it is added to the content sections. In each case
    /// nothing is left collected.
    pub open spec fn flushed(self) -> SlideView {
        SlideView {
            front: if self.pending_level == 1 {
                self.pending()
            } else {
                self.front
            },
            content: if self.pending_level > 1 {
                self.content.push(self.pending())
            } else {
                self.content
            },
            pending_level: self.pending_level,
            pending_content: Seq::empty(),
            pending_meta: Map::empty(),
        }
    }

    /// The document after `text` has been added to what is collected.
    pub open spec fn appended(self, text: Seq<char>) -> SlideView {
        SlideView { pending_content: self.pending_content + text, ..self }
    }

    /// The document after a heading of the given level has been entered:
    /// a flush, then the heading's prefix as the text collected, and one
    /// heading more seen.
    pub open spec fn heading(self, level: u32) -> SlideView {
        SlideView {
            pending_level: self.pending_level + 1,
            pending_content: heading_prefix(level),
            ..self.flushed()
        }
    }
}

/// Whether raw HTML is replaced by a placeholder: it is neither escaped
/// nor let through.
pub open spec fn omits_raw_html(options: &ComrakOptions) -> bool {
    !options.render.escape && !options.render.unsafe_
}

/// What one visit does to the slide document. Entering a heading flushes
/// and starts a section; entering a block of slide metadata sets the
/// metadata collected; entering a description list, a paragraph, a line
/// break, strong emphasis or a footnote definition adds a line feed, and
/// entering inline HTML that is replaced by a placeholder adds a space and
/// the HTML; leaving a text, a link or an image adds its projection.
/// Visits in plain mode leave the document as it is.
pub open spec fn slide_step(options: &ComrakOptions, dom: SlideView, ev: Event) -> SlideView {
    match ev.visit {
        Visit::Plain => dom,
        Visit::Enter => match ev.node.value {
            NodeValue::Heading(h) => dom.heading(h.level),
            NodeValue::SlideMetaDataBlock(smd) => SlideView {
                pending_meta: meta_of(smd.metadatas@),
                ..dom
            },
            NodeValue::DescriptionList
            | NodeValue::Paragraph
            | NodeValue::LineBreak
            | NodeValue::SoftBreak
            | NodeValue::Strong
            | NodeValue::FootnoteDefinition(_) => dom.appended("\n"@),
            NodeValue::HtmlInline(literal) => if omits_raw_html(options) {
                dom.appended(" "@ + utf8_lossy(literal@))
            } else {
                dom
            },
            _ => dom,
        },
        Visit::Exit => match ev.node.value {
            NodeValue::Text(literal) => dom.appended(
                text_projection(ev.ctx, utf8_lossy(literal@)),
            ),
            NodeValue::Link(link) => dom.appended(link_projection(options, &link)),
            NodeValue::Image(link) => dom.appended(image_projection(options, ev.node, &link)),
            _ => dom,
        },
    }
}

/// The slide document after a run of visits.
pub open spec fn slide_run(options: &ComrakOptions, dom: SlideView, evs: Seq<Event>) -> SlideView
    decreases evs.len(),
{
    if evs.len() == 0 {
        dom
    } else {
        slide_step(options, slide_run(options, dom, evs.drop_last()), evs.last())
    }
}

/// The slide document of a whole run of visits: what the run builds from
/// an empty document, flushed once at the end.
pub open spec fn slide_document(options: &ComrakOptions, evs: Seq<Event>) -> SlideView {
    slide_run(options, SlideView::empty(), evs).flushed()
}

/// Whether a visit enters a heading.
pub open spec fn enters_heading(ev: Event) -> bool {
    ev.visit == Visit::Enter && ev.node.value is Heading
}

/// The number of visits in a run that enter a heading.
pub open spec fn headings_entered(evs: Seq<Event>) -> nat
    decreases evs.len(),
{
    if evs.len() == 0 {
        0
    } else {
        headings_entered(evs.drop_last()) + (if enters_heading(evs.last()) {
            1nat
        } else {
            0nat
        })
    }
}

/// A run of visits can be made in two parts.
pub proof fn lemma_slide_run_concat(
    options: &ComrakOptions,
    dom: SlideView,
    first: Seq<Event>,
    second: Seq<Event>,
)
    ensures
        slide_run(options, dom, first + second) == slide_run(
            options,
            slide_run(options, dom, first),
            second,
        ),
    decreases second.len(),
{
    if second.len() == 0 {
        assert(first + second =~= first);
    } else {
        lemma_slide_run_concat(options, dom, first, second.drop_last());
        assert((first + second).drop_last() =~= first + second.drop_last());
    }
}

/// The headings entered in a run are those entered in its parts.
pub proof fn lemma_headings_entered_concat(first: Seq<Event>, second: Seq<Event>)
    ensures
        headings_entered(first + second) == headings_entered(first) + headings_entered(second),
    decreases second.len(),
{
    if second.len() == 0 {
        assert(first + second =~= first);
    } else {
        lemma_headings_entered_concat(first, second.drop_last());
        assert((first + second).drop_last() =~= first + second.drop_last());
    }
}

/// The number of headings seen goes up by one with each heading entered,
/// and the content sections number two less than the headings seen, once
/// there are two.
pub proof fn lemma_slide_run_counts(options: &ComrakOptions, dom: SlideView, evs: Seq<Event>)
    ensures
        slide_run(options, dom, evs).pending_level == dom.pending_level + headings_entered(evs),
        slide_run(options, dom, evs).content.len() == dom.content.len() + sections_added(
            dom.pending_level,
            headings_entered(evs),
        ),
    decreases evs.len(),
{
    if evs.len() > 0 {
        lemma_slide_run_counts(options, dom, evs.drop_last());
    }
}

/// The number of content sections that `entered` further headings add
/// when `seen` headings have been seen: one for each heading but the two
/// first.
pub open spec fn sections_added(seen: nat, entered: nat) -> nat {
    if seen + entered <= 2 {
        0
    } else if seen >= 2 {
        entered
    } else {
        (seen + entered - 2) as nat
    }
}

/// A run without headings leaves the sections and the number of headings
/// seen as they are.
pub proof fn lemma_no_heading_keeps_sections(
    options: &ComrakOptions,
    dom: SlideView,
    evs: Seq<Event>,
)
    requires
        headings_entered(evs) == 0,
    ensures
        slide_run(options, dom, evs).front == dom.front,
        slide_run(options, dom, evs).content == dom.content,
        slide_run(options, dom, evs).pending_level == dom.pending_level,
    decreases evs.len(),
{
    if evs.len() > 0 {
        lemma_no_heading_keeps_sections(options, dom, evs.drop_last());
    }
}

/// What comes before the first heading leaves no trace in the slide
/// document: where `before` enters no heading, and `after` is empty or
/// starts by entering one, the document of `before` followed by `after`
/// is the document of `after` alone.
pub proof fn lemma_before_first_heading_dropped(
    options: &ComrakOptions,
    before: Seq<Event>,
    after: Seq<Event>,
)
    requires
        headings_entered(before) == 0,
        after.len() == 0 || enters_heading(after[0]),
    ensures
        slide_document(options, before + after) == slide_document(options, after),
{
    let start = SlideView::empty();
    let mid = slide_run(options, start, before);
    lemma_slide_run_concat(options, start, before, after);
    lemma_no_heading_keeps_sections(options, start, before);
    if after.len() == 0 {
        assert(before + after =~= before);
        assert(mid.flushed() == start.flushed());
    } else {
        let first = seq![after[0]];
        let rest = after.subrange(1, after.len() as int);
        assert(after =~= first + rest);
        lemma_slide_run_concat(options, mid, first, rest);
        lemma_slide_run_concat(options, start, first, rest);
        assert(first.drop_last() =~= Seq::<Event>::empty());
        assert(first.last() == after[0]);
        assert(slide_run(options, mid, first.drop_last()) == mid);
        assert(slide_run(options, start, first.drop_last()) == start);
        assert(slide_run(options, mid, first) == slide_step(options, mid, after[0]));
        assert(slide_run(options, start, first) == slide_step(options, start, after[0]));
        assert(mid.flushed() == start.flushed());
    }
}

/// The slide document of a run that enters at least one heading has one
/// content section less than the run enters headings; the document of a
/// run that enters none has no content section and an empty front section.
/// In either case nothing is left collected.
pub proof fn lemma_section_count(options: &ComrakOptions, evs: Seq<Event>)
    ensures
        headings_entered(evs) >= 1 ==> slide_document(options, evs).content.len()
            == headings_entered(evs) - 1,
        headings_entered(evs) == 0 ==> slide_document(options, evs).content.len() == 0
            && slide_document(options, evs).front == SectionView::empty(),
        slide_document(options, evs).pending_level == headings_entered(evs),
        slide_document(options, evs).pending_content == Seq::<char>::empty(),
        slide_document(options, evs).pending_meta == Map::<Seq<char>, Seq<char>>::empty(),
{
    lemma_slide_run_counts(options, SlideView::empty(), evs);
    if headings_entered(evs) == 0 {
        lemma_no_heading_keeps_sections(options, SlideView::empty(), evs);
    }
}

/// The number of headings in the tree below `node`, `node` included, that
/// a render pass enters: all but those in plain mode, that is, in the
/// alternative text of an image.
pub open spec fn headings(node: &AstNode, plain: bool) -> nat
    decreases node, 1nat, 0nat,
{
    if plain {
        0
    } else {
        (if node.value is Heading {
            1nat
        } else {
            0nat
        }) + children_headings(node, node.value is Image, 0)
    }
}

/// The number of headings that a render pass enters in the trees below
/// the children of `node` from the `from`-th on.
pub open spec fn children_headings(node: &AstNode, plain: bool, from: int) -> nat
    decreases node, 0nat, node.children@.len() - from,
{
    if 0 <= from < node.children@.len() {
        headings(&node.children@[from], plain) + children_headings(node, plain, from + 1)
    } else {
        0
    }
}

proof fn lemma_plain_node_headings(node: &AstNode, ctx: Context)
    ensures
        headings_entered(events(node, ctx, true)) == 0,
    decreases node, 1nat, 0nat,
{
    let first = seq![Event { node, ctx, visit: Visit::Plain }];
    assert(first.drop_last() =~= Seq::<Event>::empty());
    assert(headings_entered(first.drop_last()) == 0);
    lemma_plain_children_headings(node, ctx, 0);
    lemma_headings_entered_concat(first, children_events(node, ctx, true, 0));
}

proof fn lemma_plain_children_headings(node: &AstNode, ctx: Context, from: int)
    ensures
        headings_entered(children_events(node, ctx, true, from)) == 0,
    decreases node, 0nat, node.children@.len() - from,
{
    if 0 <= from < node.children@.len() {
        let child_ctx = Context { parent: Some(node), grandparent: ctx.parent, index: from as usize };
        lemma_plain_node_headings(&node.children@[from], child_ctx);
        lemma_plain_children_headings(node, ctx, from + 1);
        lemma_headings_entered_concat(
            events(&node.children@[from], child_ctx, true),
            children_events(node, ctx, true, from + 1),
        );
    }
}

proof fn lemma_children_headings(node: &AstNode, ctx: Context, plain: bool, from: int)
    ensures
        headings_entered(children_events(node, ctx, plain, from)) == children_headings(
            node,
            plain,
            from,
        ),
    decreases node, 0nat, node.children@.len() - from,
{
    if 0 <= from < node.children@.len() {
        let child_ctx = Context { parent: Some(node), grandparent: ctx.parent, index: from as usize };
        lemma_headings_counted(&node.children@[from], child_ctx, plain);
        lemma_children_headings(node, ctx, plain, from + 1);
        lemma_headings_entered_concat(
            events(&node.children@[from], child_ctx, plain),
            children_events(node, ctx, plain, from + 1),
        );
    }
}

/// A render pass enters each heading of a tree once, but for those in the
/// alternative text of an image, which it does not enter.
pub proof fn lemma_headings_counted(node: &AstNode, ctx: Context, plain: bool)
    ensures
        headings_entered(events(node, ctx, plain)) == headings(node, plain),
    decreases node, 1nat, 0nat,
{
    if plain {
        lemma_plain_node_headings(node, ctx);
    } else {
        let enter = seq![Event { node, ctx, visit: Visit::Enter }];
        let exit = seq![Event { node, ctx, visit: Visit::Exit }];
        let inner = children_events(node, ctx, node.value is Image, 0);
        lemma_children_headings(node, ctx, node.value is Image, 0);
        lemma_headings_entered_concat(enter, inner);
        lemma_headings_entered_concat(enter + inner, exit);
        assert(enter.drop_last() =~= Seq::<Event>::empty());
        assert(exit.drop_last() =~= Seq::<Event>::empty());
        assert(headings_entered(enter.drop_last()) == 0);
        assert(headings_entered(exit.drop_last()) == 0);
    }
}

} // verus!

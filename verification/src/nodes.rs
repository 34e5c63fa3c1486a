//! The document tree and the order in which a render pass visits it.

use vstd::prelude::*;

verus! {

/// The type of a list.
#[derive(Debug, Clone, Copy, PartialEq, Eq)]
pub enum ListType {
    /// A bullet list, i.e. an unordered list.
    Bullet,
    /// An ordered list.
    Ordered,
}

/// Alignment of a single table column.
#[derive(Debug, Clone, Copy, PartialEq, Eq)]
pub enum TableAlignment {
    /// Column content is unaligned.
    Unaligned,
    /// Column content is aligned left.
    Left,
    /// Column content is centered.
    Center,
    /// Column content is aligned right.
    Right,
}

/// What a list, or an item of one, knows of itself.
#[derive(Debug, Clone, Copy)]
pub struct NodeList {
    /// The kind of list.
    pub list_type: ListType,
    /// For ordered lists, the ordinal the list starts at.
    pub start: usize,
    /// Whether the list is tight, i.e. whether paragraphs in its items are
    /// rendered without `<p>` around them.
    pub tight: bool,
}

/// A heading.
#[derive(Debug, Clone, Copy)]
pub struct NodeHeading {
    /// The level of the heading, from 1 to 6.
    pub level: u32,
}

/// A code block, fenced or indented.
#[derive(Debug)]
pub struct NodeCodeBlock {
    /// The info string behind the opening fence, if any.
    pub info: Vec<u8>,
    /// The text of the block.
    pub literal: Vec<u8>,
}

/// A block of raw HTML.
#[derive(Debug)]
pub struct NodeHtmlBlock {
    /// The text of the block.
    pub literal: Vec<u8>,
}

/// An inline code span.
#[derive(Debug)]
pub struct NodeCode {
    /// The text of the span.
    pub literal: Vec<u8>,
}

/// A link or an image.
#[derive(Debug)]
pub struct NodeLink {
    /// The target of the link, or the source of the image.
    pub url: Vec<u8>,
    /// The title; empty where there is none.
    pub title: Vec<u8>,
}

/// One entry of a slide's metadata.
#[derive(Debug)]
pub struct NodeKV {
    /// The key.
    pub key: Vec<u8>,
    /// The value.
    pub value: Vec<u8>,
}

/// A block of slide metadata.
#[derive(Debug)]
pub struct NodeSlideMetaDataBlock {
    /// The text of the block.
    pub literal: Vec<u8>,
    /// The entries read from the text, in the order of their lines.
    pub metadatas: Vec<NodeKV>,
}

/// A slide effect.
#[derive(Debug)]
pub struct NodeEffect {
    /// The attributes of the effect, rendered as they stand.
    pub literal: Vec<u8>,
}

/// The kind of a node, with what belongs to the kind.
#[derive(Debug)]
pub enum NodeValue {
    /// The root of every document.
    Document,
    /// Front matter, with its text.
    FrontMatter(Vec<u8>),
    /// A block quote.
    BlockQuote,
    /// A list.
    List(NodeList),
    /// An item of a list.
    Item(NodeList),
    /// A description list.
    DescriptionList,
    /// An item of a description list.
    DescriptionItem,
    /// The term of a description item.
    DescriptionTerm,
    /// The details of a description item.
    DescriptionDetails,
    /// A code block.
    CodeBlock(NodeCodeBlock),
    /// A block of raw HTML.
    HtmlBlock(NodeHtmlBlock),
    /// A paragraph.
    Paragraph,
    /// A heading.
    Heading(NodeHeading),
    /// A thematic break.
    ThematicBreak,
    /// The definition of a footnote, with its name.
    FootnoteDefinition(Vec<u8>),
    /// A table, with the alignment of each column.
    Table(Vec<TableAlignment>),
    /// A row of a table; `true` for the header row.
    TableRow(bool),
    /// A cell of a table row.
    TableCell,
    /// Text.
    Text(Vec<u8>),
    /// The checkbox of a task list item; `true` where it is checked.
    TaskItem(bool),
    /// A soft line break.
    SoftBreak,
    /// A hard line break.
    LineBreak,
    /// An inline code span.
    Code(NodeCode),
    /// Inline raw HTML.
    HtmlInline(Vec<u8>),
    /// Emphasis.
    Emph,
    /// Strong emphasis.
    Strong,
    /// Struck-through text.
    Strikethrough,
    /// Superscript.
    Superscript,
    /// A link.
    Link(NodeLink),
    /// An image.
    Image(NodeLink),
    /// A reference to a footnote, with its label.
    FootnoteReference(Vec<u8>),
    /// A block of slide metadata.
    SlideMetaDataBlock(NodeSlideMetaDataBlock),
    /// A slide effect.
    Effect(NodeEffect),
    /// One entry of slide metadata.
    KV(NodeKV),
}

/// A node of the document tree. It owns its children, in document order.
#[derive(Debug)]
pub struct AstNode {
    /// The kind of the node.
    pub value: NodeValue,
    /// The children of the node.
    pub children: Vec<AstNode>,
}

/// Where a node stands in its tree: its parent, its parent's parent, and
/// its place among its parent's children.
#[derive(Debug, Clone, Copy)]
pub struct Context<'a> {
    /// The parent, if there is one.
    pub parent: Option<&'a AstNode>,
    /// The parent of the parent, if there is one.
    pub grandparent: Option<&'a AstNode>,
    /// The number of siblings before the node.
    pub index: usize,
}

/// What a render pass does at a node.
#[derive(Debug, Clone, Copy, PartialEq, Eq)]
pub enum Visit {
    /// Comes to the node, before its children.
    Enter,
    /// Leaves the node, after its children.
    Exit,
    /// Comes to the node in plain mode, in which only text is emitted.
    Plain,
}

/// One step of a render pass: a visit to a node at its place in the tree.
pub struct Event<'a> {
    /// The node visited.
    pub node: &'a AstNode,
    /// Where the node stands.
    pub ctx: Context<'a>,
    /// The kind of visit.
    pub visit: Visit,
}

impl AstNode {
    /// A node of the given kind, without children.
    pub fn new(value: NodeValue) -> (node: Self)
        ensures
            node.value == value,
            node.children@ == Seq::<AstNode>::empty(),
    {
        AstNode { value, children: Vec::new() }
    }

    /// Adds `child` behind the children that the node has.
    pub fn append(&mut self, child: AstNode)
        ensures
            final(self).value == old(self).value,
            final(self).children@ == old(self).children@.push(child),
    {
        self.children.push(child);
    }
}

impl<'a> Context<'a> {
    /// The place of a root: no parent, no siblings.
    pub open spec fn spec_root() -> Context<'a> {
        Context { parent: None, grandparent: None, index: 0 }
    }

    /// The place of a root.
    #[verifier::when_used_as_spec(spec_root)]
    pub fn root() -> (ctx: Context<'a>)
        ensures
            ctx == Context::spec_root(),
    {
        Context { parent: None, grandparent: None, index: 0 }
    }

    /// The place of the `i`-th child of `node`, which stands at `self`.
    pub open spec fn spec_child(self, node: &'a AstNode, i: usize) -> Context<'a> {
        Context { parent: Some(node), grandparent: self.parent, index: i }
    }

    /// The place of the `i`-th child of `node`, which stands at `self`.
    #[verifier::when_used_as_spec(spec_child)]
    pub fn child(self, node: &'a AstNode, i: usize) -> (ctx: Context<'a>)
        ensures
            ctx == self.spec_child(node, i),
    {
        Context { parent: Some(node), grandparent: self.parent, index: i }
    }

    /// Whether the node's parent is known and has no child behind the node.
    pub open spec fn is_last(self) -> bool {
        match self.parent {
            Some(p) => self.index + 1 == p.children@.len(),
            None => true,
        }
    }

    /// The sibling right before the node, if there is one.
    pub open spec fn previous(self) -> Option<AstNode> {
        match self.parent {
            Some(p) => if 0 < self.index <= p.children@.len() {
                Some(p.children@[self.index - 1])
            } else {
                None
            },
            None => None,
        }
    }
}

/// The visits that rendering `node` consists of, in order. Outside plain
/// mode a node is entered, its children are rendered, and it is left; the
/// children of an image are rendered in plain mode. In plain mode a node is
/// visited once, before its children.
pub open spec fn events<'a>(node: &'a AstNode, ctx: Context<'a>, plain: bool) -> Seq<Event<'a>>
    decreases node, 1nat, 0nat,
{
    if plain {
        seq![Event { node, ctx, visit: Visit::Plain }] + children_events(node, ctx, true, 0)
    } else {
        seq![Event { node, ctx, visit: Visit::Enter }] + children_events(
            node,
            ctx,
            node.value is Image,
            0,
        ) + seq![Event { node, ctx, visit: Visit::Exit }]
    }
}

/// The visits that rendering the children of `node` from the `from`-th on
/// consists of, in order.
pub open spec fn children_events<'a>(
    node: &'a AstNode,
    ctx: Context<'a>,
    plain: bool,
    from: int,
) -> Seq<Event<'a>>
    decreases node, 0nat, node.children@.len() - from,
{
    if 0 <= from < node.children@.len() {
        events(&node.children@[from], ctx.child(node, from as usize), plain) + children_events(
            node,
            ctx,
            plain,
            from + 1,
        )
    } else {
        Seq::<Event<'a>>::empty()
    }
}

} // verus!

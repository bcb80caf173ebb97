//! The parsed document: every node of the Markdown tree in document order.
//!
//! A tree is kept flat. A node comes before its descendants, and its depth says where
//! its subtree ends.

use comrak::nodes::{ListDelimType, ListType, NodeValue};
use comrak::{parse_document, Arena, Options};
use vstd::prelude::*;

use crate::strings::same;

verus! {

/// Where a node stands in the tree and in the source.
pub struct Shape {
    /// The number of nodes from the root to this one, both counted.
    pub depth: usize,
    /// The name of the node's kind.
    pub tag: String,
    /// The first source line, from 1.
    pub start_line: usize,
    /// The last source line, from 1.
    pub end_line: usize,
}

/// What a [`Shape`] says.
pub struct ShapeView {
    pub depth: usize,
    pub tag: Seq<char>,
    pub start_line: usize,
    pub end_line: usize,
}

impl View for Shape {
    type V = ShapeView;

    open spec fn view(&self) -> ShapeView {
        ShapeView {
            depth: self.depth,
            tag: self.tag@,
            start_line: self.start_line,
            end_line: self.end_line,
        }
    }
}

/// How the items of a list are marked.
#[derive(Clone, Copy, Debug, PartialEq, Eq, Structural)]
pub struct ListInfo {
    pub ordered: bool,
    /// Whether the number of an item is followed by a parenthesis, not a period.
    pub paren: bool,
    /// The bullet character.
    pub bullet: u8,
    /// Whether no blank lines separate the items.
    pub tight: bool,
}

/// The alignment of a table column.
#[derive(Clone, Copy, Debug, PartialEq, Eq, Structural)]
pub enum Alignment {
    Unset,
    Left,
    Center,
    Right,
}

/// What the parser says of a node.
pub struct Facts {
    /// The number of nodes from the root to this one, both counted.
    pub depth: usize,
    /// The name of the node's kind.
    pub tag: Seq<char>,
    /// The first and the last source line, from 1.
    pub start_line: usize,
    pub end_line: usize,
    /// The text of an inline node, or the name of a footnote.
    pub word: Seq<char>,
    /// The literal text and the info string of a code or HTML block.
    pub literal: (Seq<char>, Seq<char>),
    /// A heading's level, or the number that a list begins with; 1 for a fenced code
    /// block, a checked task and a table's header row.
    pub number: usize,
    /// How the items of a list are marked.
    pub list: ListInfo,
    /// The alignments of a table's columns: 0 for none, 1 for left, 2 for centred, 3 for
    /// right.
    pub alignments: Seq<u8>,
}

impl Facts {
    pub open spec fn shape(self) -> ShapeView {
        ShapeView {
            depth: self.depth,
            tag: self.tag,
            start_line: self.start_line,
            end_line: self.end_line,
        }
    }
}

/// The extensions of CommonMark that are read.
#[derive(Clone, Copy, Debug, PartialEq, Eq, Structural)]
pub struct Extensions {
    pub strikethrough: bool,
    pub table: bool,
    pub tasklist: bool,
    pub autolink: bool,
    pub footnotes: bool,
}

/// GitHub Flavored Markdown: strikethrough, tables, task lists, autolinks and footnotes.
pub open spec fn gfm() -> Extensions {
    Extensions { strikethrough: true, table: true, tasklist: true, autolink: true, footnotes: true }
}

/// GFM-flavoured parse options.
pub fn gfm_options() -> (o: Extensions)
    ensures
        o == gfm(),
{
    Extensions { strikethrough: true, table: true, tasklist: true, autolink: true, footnotes: true }
}

/// The nodes of a document, in document order, with the extensions that are read.
pub uninterp spec fn parse_tree(
    source: Seq<char>,
    strikethrough: bool,
    table: bool,
    tasklist: bool,
    autolink: bool,
    footnotes: bool,
) -> Seq<Facts>;

/// The nodes of a document, in document order.
pub open spec fn tree_of(source: Seq<char>, o: Extensions) -> Seq<Facts> {
    parse_tree(source, o.strikethrough, o.table, o.tasklist, o.autolink, o.footnotes)
}

/// The shapes of the nodes of a document in GFM, with or without footnotes.
pub open spec fn node_shapes(source: Seq<char>, footnotes: bool) -> Seq<ShapeView> {
    tree_of(source, Extensions { footnotes, ..gfm() }).map_values(|n: Facts| n.shape())
}

/// The numbers of the nodes of a document in GFM.
pub open spec fn node_numbers(source: Seq<char>) -> Seq<usize> {
    tree_of(source, gfm()).map_values(|n: Facts| n.number)
}

/// The views of shapes.
pub open spec fn shape_views(shapes: Seq<Shape>) -> Seq<ShapeView> {
    shapes.map_values(|s: Shape| s@)
}

/// `comrak::parse_document` with the given extensions: the depth, kind and source lines of
/// each node, in document order. They depend on the source and on the extensions.
#[verifier::external_body]
pub(crate) fn parse_shapes(source: &str, o: Extensions) -> (shapes: Vec<Shape>)
    ensures
        shape_views(shapes@) == parse_tree(
            source@,
            o.strikethrough,
            o.table,
            o.tasklist,
            o.autolink,
            o.footnotes,
        ).map_values(|n: Facts| n.shape()),
{
    let arena = Arena::new();
    let mut opts = Options::default();
    let e = &mut opts.extension;
    (e.strikethrough, e.table, e.tasklist) = (o.strikethrough, o.table, o.tasklist);
    (e.autolink, e.footnotes) = (o.autolink, o.footnotes);
    parse_document(&arena, source, &opts).descendants().map(|n| Shape {
        depth: n.ancestors().count(),
        tag: n.data().value.xml_node_name().to_string(),
        start_line: n.data().sourcepos.start.line,
        end_line: n.data().sourcepos.end.line,
    }).collect()
}

/// `comrak::parse_document` with the given extensions: the text that each inline node
/// carries, and the names of footnotes; nothing for other nodes. One for each node.
#[verifier::external_body]
fn parse_words(source: &str, o: Extensions) -> (words: Vec<String>)
    ensures
        crate::strings::views(words@) == parse_tree(
            source@,
            o.strikethrough,
            o.table,
            o.tasklist,
            o.autolink,
            o.footnotes,
        ).map_values(|n: Facts| n.word),
{
    let arena = Arena::new();
    let mut opts = Options::default();
    let e = &mut opts.extension;
    (e.strikethrough, e.table, e.tasklist) = (o.strikethrough, o.table, o.tasklist);
    (e.autolink, e.footnotes) = (o.autolink, o.footnotes);
    parse_document(&arena, source, &opts).descendants().map(|n| match &n.data().value {
        NodeValue::Text(t) => t.to_string(),
        NodeValue::Code(c) => c.literal.clone(),
        NodeValue::HtmlInline(s) | NodeValue::Raw(s) => s.clone(),
        NodeValue::FootnoteReference(r) => r.name.clone(),
        NodeValue::FootnoteDefinition(d) => d.name.clone(),
        _ => String::new(),
    }).collect()
}

/// `comrak::parse_document` with the given extensions: the literal text and the info string
/// of each code or HTML block; nothing for other nodes. One for each node.
#[verifier::external_body]
fn parse_literals(source: &str, o: Extensions) -> (literals: Vec<(String, String)>)
    ensures
        literals@.map_values(|p: (String, String)| (p.0@, p.1@)) == parse_tree(
            source@,
            o.strikethrough,
            o.table,
            o.tasklist,
            o.autolink,
            o.footnotes,
        ).map_values(|n: Facts| n.literal),
{
    let arena = Arena::new();
    let mut opts = Options::default();
    let e = &mut opts.extension;
    (e.strikethrough, e.table, e.tasklist) = (o.strikethrough, o.table, o.tasklist);
    (e.autolink, e.footnotes) = (o.autolink, o.footnotes);
    parse_document(&arena, source, &opts).descendants().map(|n| match &n.data().value {
        NodeValue::CodeBlock(c) => (c.literal.clone(), c.info.clone()),
        NodeValue::HtmlBlock(h) => (h.literal.clone(), String::new()),
        _ => (String::new(), String::new()),
    }).collect()
}

/// `comrak::parse_document` with the given extensions: the number that each node carries;
/// 0 for other nodes. One for each node.
#[verifier::external_body]
pub(crate) fn parse_numbers(source: &str, o: Extensions) -> (numbers: Vec<usize>)
    ensures
        numbers@ == parse_tree(
            source@,
            o.strikethrough,
            o.table,
            o.tasklist,
            o.autolink,
            o.footnotes,
        ).map_values(|n: Facts| n.number),
{
    let arena = Arena::new();
    let mut opts = Options::default();
    let e = &mut opts.extension;
    (e.strikethrough, e.table, e.tasklist) = (o.strikethrough, o.table, o.tasklist);
    (e.autolink, e.footnotes) = (o.autolink, o.footnotes);
    parse_document(&arena, source, &opts).descendants().map(|n| match &n.data().value {
        NodeValue::Heading(h) => h.level as usize,
        NodeValue::List(l) => l.start,
        NodeValue::CodeBlock(c) => c.fenced as usize,
        NodeValue::TaskItem(t) => t.symbol.is_some() as usize,
        NodeValue::TableRow(header) => *header as usize,
        _ => 0,
    }).collect()
}

/// `comrak::parse_document` with the given extensions: how the items of each list are
/// marked. One for each node.
#[verifier::external_body]
fn parse_lists(source: &str, o: Extensions) -> (lists: Vec<ListInfo>)
    ensures
        lists@ == parse_tree(
            source@,
            o.strikethrough,
            o.table,
            o.tasklist,
            o.autolink,
            o.footnotes,
        ).map_values(|n: Facts| n.list),
{
    let arena = Arena::new();
    let mut opts = Options::default();
    let e = &mut opts.extension;
    (e.strikethrough, e.table, e.tasklist) = (o.strikethrough, o.table, o.tasklist);
    (e.autolink, e.footnotes) = (o.autolink, o.footnotes);
    parse_document(&arena, source, &opts).descendants().map(|n| match &n.data().value {
        NodeValue::List(l) => ListInfo {
            ordered: l.list_type == ListType::Ordered,
            paren: l.delimiter == ListDelimType::Paren,
            bullet: l.bullet_char,
            tight: l.tight,
        },
        _ => ListInfo { ordered: false, paren: false, bullet: 0, tight: false },
    }).collect()
}

/// `comrak::parse_document` with the given extensions: the alignments of each table's
/// columns; none for other nodes. One for each node.
#[verifier::external_body]
fn parse_alignments(source: &str, o: Extensions) -> (alignments: Vec<Vec<u8>>)
    ensures
        alignments@.map_values(|v: Vec<u8>| v@) == parse_tree(
            source@,
            o.strikethrough,
            o.table,
            o.tasklist,
            o.autolink,
            o.footnotes,
        ).map_values(
            |n: Facts| n.alignments,
        ),
{
    let arena = Arena::new();
    let mut opts = Options::default();
    let e = &mut opts.extension;
    (e.strikethrough, e.table, e.tasklist) = (o.strikethrough, o.table, o.tasklist);
    (e.autolink, e.footnotes) = (o.autolink, o.footnotes);
    parse_document(&arena, source, &opts).descendants().map(|n| match &n.data().value {
        NodeValue::Table(t) => t.alignments.iter().map(|a| *a as u8).collect(),
        _ => Vec::new(),
    }).collect()
}

/// The kind of a node, with what the renderer needs of it.
pub enum NodeKind {
    Heading(u8),
    Paragraph,
    List { marks: ListInfo, start: usize },
    Quote,
    CodeBlock { fenced: bool, info: String, literal: String },
    ThematicBreak,
    Table(Vec<Alignment>),
    TableRow { header: bool },
    HtmlBlock(String),
    FootnoteDefinition(String),
    Text(String),
    Code(String),
    SoftBreak,
    LineBreak,
    Emph,
    Strong,
    Strikethrough,
    Underline,
    Link,
    Image,
    TaskItem { checked: bool },
    HtmlInline(String),
    Raw(String),
    FootnoteReference(String),
    /// Any other node: its children are rendered through.
    Other,
}

/// What a [`NodeKind`] says.
pub enum KindView {
    Heading(u8),
    Paragraph,
    List { marks: ListInfo, start: usize },
    Quote,
    CodeBlock { fenced: bool, info: Seq<char>, literal: Seq<char> },
    ThematicBreak,
    Table(Seq<Alignment>),
    TableRow { header: bool },
    HtmlBlock(Seq<char>),
    FootnoteDefinition(Seq<char>),
    Text(Seq<char>),
    Code(Seq<char>),
    SoftBreak,
    LineBreak,
    Emph,
    Strong,
    Strikethrough,
    Underline,
    Link,
    Image,
    TaskItem { checked: bool },
    HtmlInline(Seq<char>),
    Raw(Seq<char>),
    FootnoteReference(Seq<char>),
    Other,
}

impl View for NodeKind {
    type V = KindView;

    open spec fn view(&self) -> KindView {
        match self {
            NodeKind::Heading(level) => KindView::Heading(*level),
            NodeKind::Paragraph => KindView::Paragraph,
            NodeKind::List { marks, start } => KindView::List { marks: *marks, start: *start },
            NodeKind::Quote => KindView::Quote,
            NodeKind::CodeBlock { fenced, info, literal } => KindView::CodeBlock {
                fenced: *fenced,
                info: info@,
                literal: literal@,
            },
            NodeKind::ThematicBreak => KindView::ThematicBreak,
            NodeKind::Table(alignments) => KindView::Table(alignments@),
            NodeKind::TableRow { header } => KindView::TableRow { header: *header },
            NodeKind::HtmlBlock(literal) => KindView::HtmlBlock(literal@),
            NodeKind::FootnoteDefinition(name) => KindView::FootnoteDefinition(name@),
            NodeKind::Text(text) => KindView::Text(text@),
            NodeKind::Code(text) => KindView::Code(text@),
            NodeKind::SoftBreak => KindView::SoftBreak,
            NodeKind::LineBreak => KindView::LineBreak,
            NodeKind::Emph => KindView::Emph,
            NodeKind::Strong => KindView::Strong,
            NodeKind::Strikethrough => KindView::Strikethrough,
            NodeKind::Underline => KindView::Underline,
            NodeKind::Link => KindView::Link,
            NodeKind::Image => KindView::Image,
            NodeKind::TaskItem { checked } => KindView::TaskItem { checked: *checked },
            NodeKind::HtmlInline(text) => KindView::HtmlInline(text@),
            NodeKind::Raw(text) => KindView::Raw(text@),
            NodeKind::FootnoteReference(name) => KindView::FootnoteReference(name@),
            NodeKind::Other => KindView::Other,
        }
    }
}

/// A node of a parsed document.
pub struct Node {
    /// The number of nodes from the root to this one, both counted.
    pub depth: usize,
    pub kind: NodeKind,
    /// The first source line, from 1.
    pub start_line: usize,
    /// The last source line, from 1.
    pub end_line: usize,
}

/// What a [`Node`] says.
pub struct NodeView {
    pub depth: usize,
    pub kind: KindView,
    pub start_line: usize,
    pub end_line: usize,
}

impl View for Node {
    type V = NodeView;

    open spec fn view(&self) -> NodeView {
        NodeView {
            depth: self.depth,
            kind: self.kind@,
            start_line: self.start_line,
            end_line: self.end_line,
        }
    }
}

/// The views of nodes.
pub open spec fn node_views(nodes: Seq<Node>) -> Seq<NodeView> {
    nodes.map_values(|n: Node| n@)
}

/// The alignment that a number stands for.
pub open spec fn alignment_of(n: u8) -> Alignment {
    if n == 1 {
        Alignment::Left
    } else if n == 2 {
        Alignment::Center
    } else if n == 3 {
        Alignment::Right
    } else {
        Alignment::Unset
    }
}

/// The kind of a node with the given name and values.
pub open spec fn kind_of(
    tag: Seq<char>,
    word: Seq<char>,
    literal: (Seq<char>, Seq<char>),
    number: usize,
    list: ListInfo,
    alignments: Seq<u8>,
) -> KindView {
    if tag == "paragraph"@ {
        KindView::Paragraph
    } else if tag == "text"@ {
        KindView::Text(word)
    } else if tag == "heading"@ {
        KindView::Heading((number % 256) as u8)
    } else if tag == "list"@ {
        KindView::List { marks: list, start: number }
    } else if tag == "block_quote"@ || tag == "multiline_block_quote"@ {
        KindView::Quote
    } else if tag == "code_block"@ {
        KindView::CodeBlock { fenced: number == 1, info: literal.1, literal: literal.0 }
    } else if tag == "thematic_break"@ {
        KindView::ThematicBreak
    } else if tag == "table"@ {
        KindView::Table(alignments.map_values(|a: u8| alignment_of(a)))
    } else if tag == "table_row"@ {
        KindView::TableRow { header: number == 1 }
    } else if tag == "html_block"@ {
        KindView::HtmlBlock(literal.0)
    } else if tag == "footnote_definition"@ {
        KindView::FootnoteDefinition(word)
    } else if tag == "code"@ {
        KindView::Code(word)
    } else if tag == "softbreak"@ {
        KindView::SoftBreak
    } else if tag == "linebreak"@ {
        KindView::LineBreak
    } else if tag == "emph"@ {
        KindView::Emph
    } else if tag == "strong"@ {
        KindView::Strong
    } else if tag == "strikethrough"@ {
        KindView::Strikethrough
    } else if tag == "underline"@ {
        KindView::Underline
    } else if tag == "link"@ {
        KindView::Link
    } else if tag == "image"@ {
        KindView::Image
    } else if tag == "taskitem"@ {
        KindView::TaskItem { checked: number == 1 }
    } else if tag == "html_inline"@ {
        KindView::HtmlInline(word)
    } else if tag == "raw"@ {
        KindView::Raw(word)
    } else if tag == "footnote_reference"@ {
        KindView::FootnoteReference(word)
    } else {
        KindView::Other
    }
}

/// The nodes of a document, in document order.
pub open spec fn parsed(source: Seq<char>) -> Seq<NodeView> {
    tree_of(source, gfm()).map_values(
        |n: Facts|
            NodeView {
                depth: n.depth,
                kind: kind_of(n.tag, n.word, n.literal, n.number, n.list, n.alignments),
                start_line: n.start_line,
                end_line: n.end_line,
            },
    )
}

fn alignments(codes: &Vec<u8>) -> (out: Vec<Alignment>)
    ensures
        out@ == codes@.map_values(|a: u8| alignment_of(a)),
{
    let mut out: Vec<Alignment> = Vec::new();
    let mut i: usize = 0;
    while i < codes.len()
        invariant
            i <= codes@.len(),
            out@.len() == i,
            forall|k: int| 0 <= k < i ==> out@[k] == alignment_of(codes@[k]),
        decreases codes@.len() - i,
    {
        out.push(
            match codes[i] {
                1 => Alignment::Left,
                2 => Alignment::Center,
                3 => Alignment::Right,
                _ => Alignment::Unset,
            },
        );
        i += 1;
    }
    assert(out@ =~= codes@.map_values(|a: u8| alignment_of(a)));
    out
}

fn node_kind(
    tag: &str,
    word: String,
    literal: (String, String),
    number: usize,
    list: ListInfo,
    codes: &Vec<u8>,
) -> (kind: NodeKind)
    ensures
        kind@ == kind_of(tag@, word@, (literal.0@, literal.1@), number, list, codes@),
{
    if same(tag, "paragraph") {
        NodeKind::Paragraph
    } else if same(tag, "text") {
        NodeKind::Text(word)
    } else if same(tag, "heading") {
        NodeKind::Heading((number % 256) as u8)
    } else if same(tag, "list") {
        NodeKind::List { marks: list, start: number }
    } else if same(tag, "block_quote") || same(tag, "multiline_block_quote") {
        NodeKind::Quote
    } else if same(tag, "code_block") {
        NodeKind::CodeBlock { fenced: number == 1, info: literal.1, literal: literal.0 }
    } else if same(tag, "thematic_break") {
        NodeKind::ThematicBreak
    } else if same(tag, "table") {
        NodeKind::Table(alignments(codes))
    } else if same(tag, "table_row") {
        NodeKind::TableRow { header: number == 1 }
    } else if same(tag, "html_block") {
        NodeKind::HtmlBlock(literal.0)
    } else if same(tag, "footnote_definition") {
        NodeKind::FootnoteDefinition(word)
    } else if same(tag, "code") {
        NodeKind::Code(word)
    } else if same(tag, "softbreak") {
        NodeKind::SoftBreak
    } else if same(tag, "linebreak") {
        NodeKind::LineBreak
    } else if same(tag, "emph") {
        NodeKind::Emph
    } else if same(tag, "strong") {
        NodeKind::Strong
    } else if same(tag, "strikethrough") {
        NodeKind::Strikethrough
    } else if same(tag, "underline") {
        NodeKind::Underline
    } else if same(tag, "link") {
        NodeKind::Link
    } else if same(tag, "image") {
        NodeKind::Image
    } else if same(tag, "taskitem") {
        NodeKind::TaskItem { checked: number == 1 }
    } else if same(tag, "html_inline") {
        NodeKind::HtmlInline(word)
    } else if same(tag, "raw") {
        NodeKind::Raw(word)
    } else if same(tag, "footnote_reference") {
        NodeKind::FootnoteReference(word)
    } else {
        NodeKind::Other
    }
}

/// Parse a document with the GFM extensions.
pub fn parse(source: &str) -> (nodes: Vec<Node>)
    ensures
        node_views(nodes@) == parsed(source@),
{
    let o = gfm_options();
    let shapes = parse_shapes(source, o);
    let words = parse_words(source, o);
    let literals = parse_literals(source, o);
    let numbers = parse_numbers(source, o);
    let lists = parse_lists(source, o);
    let codes = parse_alignments(source, o);
    let ghost tree = tree_of(source@, gfm());
    let mut nodes: Vec<Node> = Vec::new();
    let mut i: usize = 0;
    assert(shape_views(shapes@).len() == shapes@.len());
    assert(crate::strings::views(words@).len() == words@.len());
    assert(literals@.map_values(|p: (String, String)| (p.0@, p.1@)).len() == literals@.len());
    assert(codes@.map_values(|v: Vec<u8>| v@).len() == codes@.len());
    while i < shapes.len()
        invariant
            i <= shapes@.len(),
            tree == tree_of(source@, gfm()),
            shapes@.len() == tree.len(),
            words@.len() == tree.len(),
            literals@.len() == tree.len(),
            numbers@.len() == tree.len(),
            lists@.len() == tree.len(),
            codes@.len() == tree.len(),
            shape_views(shapes@) == tree.map_values(|n: Facts| n.shape()),
            crate::strings::views(words@) == tree.map_values(|n: Facts| n.word),
            literals@.map_values(|p: (String, String)| (p.0@, p.1@)) == tree.map_values(
                |n: Facts| n.literal,
            ),
            numbers@ == tree.map_values(|n: Facts| n.number),
            lists@ == tree.map_values(|n: Facts| n.list),
            codes@.map_values(|v: Vec<u8>| v@) == tree.map_values(|n: Facts| n.alignments),
            nodes@.len() == i,
            forall|k: int| 0 <= k < i ==> (#[trigger] nodes@[k])@ == parsed(source@)[k],
        decreases shapes@.len() - i,
    {
        let kind = node_kind(
            shapes[i].tag.as_str(),
            words[i].clone(),
            (literals[i].0.clone(), literals[i].1.clone()),
            numbers[i],
            lists[i],
            &codes[i],
        );
        proof {
            let k = i as int;
            assert(shape_views(shapes@)[k] == tree[k].shape());
            assert(crate::strings::views(words@)[k] == tree[k].word);
            assert(literals@.map_values(|p: (String, String)| (p.0@, p.1@))[k] == tree[k].literal);
            assert(numbers@[k] == tree[k].number);
            assert(lists@[k] == tree[k].list);
            assert(codes@.map_values(|v: Vec<u8>| v@)[k] == tree[k].alignments);
        }
        nodes.push(
            Node {
                depth: shapes[i].depth,
                kind,
                start_line: shapes[i].start_line,
                end_line: shapes[i].end_line,
            },
        );
        assert(nodes@[i as int]@ == parsed(source@)[i as int]);
        i += 1;
    }
    assert(node_views(nodes@) =~= parsed(source@));
    nodes
}

/// The first of the nodes from `j` on, before `end`, that is no deeper than `depth`; `end`
/// where all are.
pub open spec fn end_from(nodes: Seq<NodeView>, depth: usize, j: int, end: int) -> int
    decreases end - j,
{
    if j >= end || nodes[j].depth <= depth {
        j
    } else {
        end_from(nodes, depth, j + 1, end)
    }
}

/// One past the last node of the subtree of node `i`, within the nodes before `end`.
pub open spec fn subtree_end(nodes: Seq<NodeView>, i: int, end: int) -> int {
    end_from(nodes, nodes[i].depth, i + 1, end)
}

pub proof fn lemma_end_from(nodes: Seq<NodeView>, depth: usize, j: int, end: int)
    requires
        j <= end,
    ensures
        j <= end_from(nodes, depth, j, end) <= end,
    decreases end - j,
{
    if j < end && nodes[j].depth > depth {
        lemma_end_from(nodes, depth, j + 1, end);
    }
}

/// One past the last node of the subtree of node `i`, within the nodes before `end`.
pub fn node_end(nodes: &Vec<Node>, i: usize, end: usize) -> (k: usize)
    requires
        i < end <= nodes@.len(),
    ensures
        k == subtree_end(node_views(nodes@), i as int, end as int),
        i < k <= end,
{
    let ghost v = node_views(nodes@);
    let depth: usize = nodes[i].depth;
    let mut j: usize = i + 1;
    while j < end && nodes[j].depth > depth
        invariant
            i < j <= end <= nodes@.len(),
            v == node_views(nodes@),
            depth == v[i as int].depth,
            subtree_end(v, i as int, end as int) == end_from(v, depth, j as int, end as int),
        decreases end - j,
    {
        assert(v[j as int].depth == nodes@[j as int].depth);
        j += 1;
    }
    if j < end {
        assert(v[j as int].depth == nodes@[j as int].depth);
    }
    j
}

/// A copy of column alignments.
fn copy_alignments(a: &Vec<Alignment>) -> (copy: Vec<Alignment>)
    ensures
        copy@ == a@,
{
    let mut copy: Vec<Alignment> = Vec::new();
    let mut i: usize = 0;
    while i < a.len()
        invariant
            i <= a@.len(),
            copy@ == a@.take(i as int),
        decreases a@.len() - i,
    {
        copy.push(a[i]);
        i += 1;
        assert(copy@ =~= a@.take(i as int));
    }
    assert(copy@ =~= a@);
    copy
}

/// A copy of what a node is.
fn copy_kind(kind: &NodeKind) -> (copy: NodeKind)
    ensures
        copy@ == kind@,
{
    match kind {
        NodeKind::Heading(level) => NodeKind::Heading(*level),
        NodeKind::List { marks, start } => NodeKind::List { marks: *marks, start: *start },
        NodeKind::CodeBlock { fenced, info, literal } => NodeKind::CodeBlock {
            fenced: *fenced,
            info: info.clone(),
            literal: literal.clone(),
        },
        NodeKind::Table(alignments) => NodeKind::Table(copy_alignments(alignments)),
        NodeKind::TableRow { header } => NodeKind::TableRow { header: *header },
        NodeKind::TaskItem { checked } => NodeKind::TaskItem { checked: *checked },
        NodeKind::HtmlBlock(text) => NodeKind::HtmlBlock(text.clone()),
        NodeKind::FootnoteDefinition(text) => NodeKind::FootnoteDefinition(text.clone()),
        NodeKind::Text(text) => NodeKind::Text(text.clone()),
        NodeKind::Code(text) => NodeKind::Code(text.clone()),
        NodeKind::HtmlInline(text) => NodeKind::HtmlInline(text.clone()),
        NodeKind::Raw(text) => NodeKind::Raw(text.clone()),
        NodeKind::FootnoteReference(text) => NodeKind::FootnoteReference(text.clone()),
        NodeKind::Paragraph => NodeKind::Paragraph,
        NodeKind::Quote => NodeKind::Quote,
        NodeKind::ThematicBreak => NodeKind::ThematicBreak,
        NodeKind::SoftBreak => NodeKind::SoftBreak,
        NodeKind::LineBreak => NodeKind::LineBreak,
        NodeKind::Emph => NodeKind::Emph,
        NodeKind::Strong => NodeKind::Strong,
        NodeKind::Strikethrough => NodeKind::Strikethrough,
        NodeKind::Underline => NodeKind::Underline,
        NodeKind::Link => NodeKind::Link,
        NodeKind::Image => NodeKind::Image,
        NodeKind::Other => NodeKind::Other,
    }
}

/// A copy of the nodes from `i` to `end`.
pub fn copy_nodes(nodes: &Vec<Node>, i: usize, end: usize) -> (copy: Vec<Node>)
    requires
        i <= end <= nodes@.len(),
    ensures
        copy@.len() == end - i,
        node_views(copy@) == node_views(nodes@).subrange(i as int, end as int),
{
    let ghost v = node_views(nodes@);
    let mut copy: Vec<Node> = Vec::new();
    let mut j: usize = i;
    while j < end
        invariant
            i <= j <= end <= nodes@.len(),
            v == node_views(nodes@),
            copy@.len() == j - i,
            node_views(copy@) =~= v.subrange(i as int, j as int),
        decreases end - j,
    {
        let n = &nodes[j];
        let ghost prior = node_views(copy@);
        let fresh = Node {
            depth: n.depth,
            kind: copy_kind(&n.kind),
            start_line: n.start_line,
            end_line: n.end_line,
        };
        assert(fresh@ == v[j as int]);
        copy.push(fresh);
        assert(node_views(copy@) =~= prior.push(v[j as int]));
        j += 1;
        assert(node_views(copy@) =~= v.subrange(i as int, j as int));
    }
    copy
}

/// Whether two tables have the same alignments.
fn same_alignments(a: &Vec<Alignment>, b: &Vec<Alignment>) -> (yes: bool)
    ensures
        yes == (a@ == b@),
{
    if a.len() != b.len() {
        return false;
    }
    let mut i: usize = 0;
    while i < a.len()
        invariant
            i <= a@.len() == b@.len(),
            a@.take(i as int) == b@.take(i as int),
        decreases a@.len() - i,
    {
        if a[i] != b[i] {
            assert(a@[i as int] != b@[i as int]);
            return false;
        }
        i += 1;
        assert(a@.take(i as int) =~= b@.take(i as int)) by {
            assert(a@.take(i - 1) == b@.take(i - 1));
            assert forall|j: int| 0 <= j < i implies a@.take(i as int)[j] == b@.take(i as int)[j] by {
                if j < i - 1 {
                    assert(a@.take(i - 1)[j] == b@.take(i - 1)[j]);
                }
            }
        }
    }
    assert(a@ =~= a@.take(a@.len() as int) && b@ =~= b@.take(b@.len() as int));
    true
}

/// Whether two nodes are the same kind, and say the same.
#[verifier::spinoff_prover]
fn same_kind(a: &NodeKind, b: &NodeKind) -> (yes: bool)
    ensures
        yes == (a@ == b@),
{
    match (a, b) {
        (NodeKind::Heading(x), NodeKind::Heading(y)) => *x == *y,
        (
            NodeKind::List { marks: x, start: s },
            NodeKind::List { marks: y, start: t },
        ) => *x == *y && *s == *t,
        (
            NodeKind::CodeBlock { fenced: f, info: x, literal: s },
            NodeKind::CodeBlock { fenced: g, info: y, literal: t },
        ) => *f == *g && same(x.as_str(), y.as_str()) && same(s.as_str(), t.as_str()),
        (NodeKind::Table(x), NodeKind::Table(y)) => same_alignments(x, y),
        (NodeKind::TableRow { header: x }, NodeKind::TableRow { header: y }) => *x == *y,
        (NodeKind::TaskItem { checked: x }, NodeKind::TaskItem { checked: y }) => *x == *y,
        (NodeKind::HtmlBlock(x), NodeKind::HtmlBlock(y)) => same(x.as_str(), y.as_str()),
        (NodeKind::FootnoteDefinition(x), NodeKind::FootnoteDefinition(y)) => same(x.as_str(), y.as_str()),
        (NodeKind::Text(x), NodeKind::Text(y)) => same(x.as_str(), y.as_str()),
        (NodeKind::Code(x), NodeKind::Code(y)) => same(x.as_str(), y.as_str()),
        (NodeKind::HtmlInline(x), NodeKind::HtmlInline(y)) => same(x.as_str(), y.as_str()),
        (NodeKind::Raw(x), NodeKind::Raw(y)) => same(x.as_str(), y.as_str()),
        (NodeKind::FootnoteReference(x), NodeKind::FootnoteReference(y)) => same(x.as_str(), y.as_str()),
        (NodeKind::Paragraph, NodeKind::Paragraph) => true,
        (NodeKind::Quote, NodeKind::Quote) => true,
        (NodeKind::ThematicBreak, NodeKind::ThematicBreak) => true,
        (NodeKind::SoftBreak, NodeKind::SoftBreak) => true,
        (NodeKind::LineBreak, NodeKind::LineBreak) => true,
        (NodeKind::Emph, NodeKind::Emph) => true,
        (NodeKind::Strong, NodeKind::Strong) => true,
        (NodeKind::Strikethrough, NodeKind::Strikethrough) => true,
        (NodeKind::Underline, NodeKind::Underline) => true,
        (NodeKind::Link, NodeKind::Link) => true,
        (NodeKind::Image, NodeKind::Image) => true,
        (NodeKind::Other, NodeKind::Other) => true,
        _ => false,
    }
}

/// Whether nodes are the same as those from `i` to `end` of others.
pub fn same_nodes(held: &Vec<Node>, nodes: &Vec<Node>, i: usize, end: usize) -> (yes: bool)
    requires
        i <= end <= nodes@.len(),
    ensures
        yes == (node_views(held@) == node_views(nodes@).subrange(i as int, end as int)),
{
    let ghost h = node_views(held@);
    let ghost w = node_views(nodes@).subrange(i as int, end as int);
    if held.len() != end - i {
        assert(h.len() != w.len());
        return false;
    }
    let mut k: usize = 0;
    while k < held.len()
        invariant
            k <= held@.len() == end - i,
            i <= end <= nodes@.len(),
            h == node_views(held@),
            w == node_views(nodes@).subrange(i as int, end as int),
            forall|j: int| 0 <= j < k ==> h[j] == w[j],
        decreases held@.len() - k,
    {
        let a = &held[k];
        let b = &nodes[i + k];
        assert(h[k as int] == a@ && w[k as int] == b@);
        if !(a.start_line == b.start_line && a.end_line == b.end_line && a.depth == b.depth
            && same_kind(&a.kind, &b.kind)) {
            return false;
        }
        k += 1;
    }
    assert(h =~= w);
    true
}

} // verus!

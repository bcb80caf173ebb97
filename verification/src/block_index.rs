//! The document's Markdown block index.
//!
//! The whole-document parse is the single source of truth for top-level
//! block boundaries (so the hybrid view and read preview agree, and constructs
//! like setext headings, indented code, and loose lists group exactly as
//! rendered). This module owns that truth: [`BlockIndex::rebuild_full`] is the
//! whole-document partition; incremental windowed reparsing is layered on top, with
//! a full reparse as the fallback for anything the windowed scheme cannot prove safe.

use ropey::Rope;
use vstd::prelude::*;
use vstd::utf8::*;

use crate::buffer::{fnv, stable_hash};
use crate::bytes::{boundary, lemma_boundary_ends, slice, text_between};
use crate::line_index::{least, LineIndex, LineIndexView, LineUpdate};
use crate::markdown::ast::{
    gfm_options, node_numbers, node_shapes, parse_numbers, parse_shapes, shape_views, Extensions,
    Shape, ShapeView,
};
use crate::rope::{
    lemma_breaks_before, lemma_line_start, lemma_line_start_boundary, lemma_line_starts_grow,
    lemma_suffix_lines, line_bytes, line_count, line_start, rope_bytes, rope_from_str,
    rope_len_bytes, rope_len_lines, rope_line, rope_line_to_byte, rope_text, rope_to_string,
};
use crate::strings::{same, trim, trimmed};

verus! {

/// Documents below this size always take the full-reparse path: it costs
/// well under a millisecond there, and the windowed machinery only earns its
/// complexity on large documents.
pub const FULL_FLOOR_BYTES: usize = 65536;

/// How far above the dirty block the upper-seam search looks for a sound
/// boundary before giving up. Blank gap lines occur every few lines in prose,
/// so this is generous; a blankless wall this tall falls back to a full parse.
pub const SEAM_SEARCH_LINES: usize = 256;

/// One top-level block: a maximal run of source lines owned by a single
/// top-level node.
#[derive(Clone, Copy, PartialEq, Eq, Debug, Structural)]
pub struct SourceBlock {
    pub start_line: usize,
    /// Inclusive.
    pub end_line: usize,
    pub start_byte: usize,
    pub end_byte: usize,
    /// Hash of the block's source slice, computed once at parse time so
    /// per-build cache keys never re-slice or re-hash block text.
    pub content_hash: u64,
    /// The owning node's kind; drives the windowed-reparse seam rules.
    pub kind: BlockKind,
}

/// Top-level block kinds, as far as the seam rules care.
#[derive(Clone, Copy, PartialEq, Eq, Debug, Structural)]
pub enum BlockKind {
    Paragraph,
    Heading,
    List,
    IndentedCode,
    FencedCode,
    Html,
    Table,
    Quote,
    FootnoteDef,
    Rule,
    Other,
}

/// How often each path was taken.
#[derive(Clone, Copy, PartialEq, Eq, Debug, Structural)]
pub struct BlockIndexStats {
    /// Whole-document reparses (first build, fallbacks, backstop).
    pub full_rebuilds: usize,
    /// Edits absorbed by a windowed reparse.
    pub windowed_updates: usize,
    /// Windowed attempts that gave up (no sound seam within the search cap).
    pub full_fallbacks: usize,
    /// Duration of the last whole-document partition.
    pub last_parse_us: u128,
}

/// The number after `n`, as far as the machine counts.
pub open spec fn counted(n: usize) -> usize {
    if n < usize::MAX {
        (n + 1) as usize
    } else {
        n
    }
}

fn count_up(n: usize) -> (m: usize)
    ensures
        m == counted(n),
{
    if n < usize::MAX {
        n + 1
    } else {
        n
    }
}

/// The kind of a top-level node; `fenced` tells the two kinds of code block apart.
pub open spec fn kind_of_tag(tag: Seq<char>, fenced: bool) -> BlockKind {
    if tag == "paragraph"@ {
        BlockKind::Paragraph
    } else if tag == "heading"@ {
        BlockKind::Heading
    } else if tag == "list"@ {
        BlockKind::List
    } else if tag == "code_block"@ {
        if fenced {
            BlockKind::FencedCode
        } else {
            BlockKind::IndentedCode
        }
    } else if tag == "html_block"@ {
        BlockKind::Html
    } else if tag == "table"@ {
        BlockKind::Table
    } else if tag == "block_quote"@ {
        BlockKind::Quote
    } else if tag == "footnote_definition"@ {
        BlockKind::FootnoteDef
    } else if tag == "thematic_break"@ {
        BlockKind::Rule
    } else {
        BlockKind::Other
    }
}

fn block_kind(tag: &str, fenced: bool) -> (kind: BlockKind)
    ensures
        kind == kind_of_tag(tag@, fenced),
{
    if same(tag, "paragraph") {
        BlockKind::Paragraph
    } else if same(tag, "heading") {
        BlockKind::Heading
    } else if same(tag, "list") {
        BlockKind::List
    } else if same(tag, "code_block") {
        if fenced {
            BlockKind::FencedCode
        } else {
            BlockKind::IndentedCode
        }
    } else if same(tag, "html_block") {
        BlockKind::Html
    } else if same(tag, "table") {
        BlockKind::Table
    } else if same(tag, "block_quote") {
        BlockKind::Quote
    } else if same(tag, "footnote_definition") {
        BlockKind::FootnoteDef
    } else if same(tag, "thematic_break") {
        BlockKind::Rule
    } else {
        BlockKind::Other
    }
}

/// A source line, from 0 and within the document.
pub open spec fn line_within(line: int, total: int) -> int {
    least(
        if line > 0 {
            line - 1
        } else {
            0
        },
        total - 1,
    )
}

/// Whether a node is a child of the root and covers a line.
pub open spec fn owns(shape: ShapeView, line: int, total: int) -> bool {
    &&& shape.depth == 2
    &&& line_within(shape.start_line as int, total) <= line <= line_within(
        shape.end_line as int,
        total,
    )
}

/// The last of the first `n` nodes that owns a line.
pub open spec fn owner_among(shapes: Seq<ShapeView>, n: int, line: int, total: int) -> Option<int>
    decreases n,
{
    if n <= 0 {
        None
    } else if owns(shapes[n - 1], line, total) {
        Some(n - 1)
    } else {
        owner_among(shapes, n - 1, line, total)
    }
}

/// The top-level node that owns a line.
pub open spec fn owner_of(shapes: Seq<ShapeView>, line: int, total: int) -> Option<int> {
    owner_among(shapes, shapes.len() as int, line, total)
}

/// One past the last line from `line` on with the given owner.
pub open spec fn run_end(shapes: Seq<ShapeView>, owner: int, line: int, total: int) -> int
    decreases total - line,
{
    if line < total && owner_of(shapes, line, total) == Some(owner) {
        run_end(shapes, owner, line + 1, total)
    } else {
        line
    }
}

/// The block that a run of lines makes.
pub open spec fn block_of_run(text: Seq<char>, owner: int, start: int, end: int) -> SourceBlock {
    let b = encode_utf8(text);
    let shapes = node_shapes(text, true);
    SourceBlock {
        start_line: start as usize,
        end_line: (end - 1) as usize,
        start_byte: line_start(b, start) as usize,
        end_byte: line_start(b, end) as usize,
        content_hash: fnv(b.subrange(line_start(b, start), line_start(b, end))),
        kind: kind_of_tag(shapes[owner].tag, node_numbers(text)[owner] == 1),
    }
}

/// The blocks of the lines from `line` on: maximal runs with the same owner.
pub open spec fn blocks_from(text: Seq<char>, line: int) -> Seq<SourceBlock>
    decreases line_count(encode_utf8(text)) - line,
{
    let total = line_count(encode_utf8(text));
    let shapes = node_shapes(text, true);
    if line >= total {
        Seq::empty()
    } else {
        match owner_of(shapes, line, total) {
            None => blocks_from(text, line + 1),
            Some(owner) => {
                let end = run_end(shapes, owner, line, total);
                if line < end <= total {
                    seq![block_of_run(text, owner, line, end)] + blocks_from(text, end)
                } else {
                    Seq::empty()
                }
            },
        }
    }
}

/// The top-level blocks of a document.
pub open spec fn document_blocks(text: Seq<char>) -> Seq<SourceBlock> {
    blocks_from(text, 0)
}

/// Whether a document, without footnotes, has no top-level node at all.
pub open spec fn parses_to_nothing(line: Seq<char>) -> bool {
    forall|i: int|
        0 <= i < node_shapes(line, false).len() ==> (#[trigger] node_shapes(line, false)[i]).depth
            != 2
}

/// The characters of a line.
pub open spec fn line_text(text: Seq<char>, line: int) -> Seq<char> {
    decode_utf8(line_bytes(encode_utf8(text), line))
}

/// Whether a line is a link reference definition: nobody owns it, it is not blank, and
/// on its own it parses to an empty document.
pub open spec fn is_definition(text: Seq<char>, line: int) -> bool {
    let total = line_count(encode_utf8(text));
    &&& owner_of(node_shapes(text, true), line, total) is None
    &&& trimmed(line_text(text, line)).len() > 0
    &&& parses_to_nothing(line_text(text, line))
}

/// The link reference definitions of the first `n` lines, with their lines.
pub open spec fn definitions_upto(text: Seq<char>, n: int) -> Seq<(usize, Seq<char>)>
    decreases n,
{
    if n <= 0 {
        Seq::empty()
    } else if is_definition(text, n - 1) {
        definitions_upto(text, n - 1).push(((n - 1) as usize, trimmed(line_text(text, n - 1))))
    } else {
        definitions_upto(text, n - 1)
    }
}

/// The link reference definitions of a document, in line order.
pub open spec fn definitions(text: Seq<char>) -> Seq<(usize, Seq<char>)> {
    definitions_upto(text, line_count(encode_utf8(text)))
}

/// The definitions, one per line.
pub open spec fn joined(defs: Seq<(usize, Seq<char>)>) -> Seq<char>
    decreases defs.len(),
{
    if defs.len() == 0 {
        Seq::empty()
    } else {
        joined(defs.drop_last()) + defs.last().1 + seq!['\n']
    }
}

/// The text of each definition.
pub open spec fn def_views(defs: Seq<(usize, String)>) -> Seq<(usize, Seq<char>)> {
    defs.map_values(|d: (usize, String)| (d.0, d.1@))
}

/// Whether a kind of block can extend downward across a blank line if the text below
/// changes. Lists continue through blanks to the next sufficiently-indented line,
/// indented code bridges blank runs, and footnote definition bodies do both.
pub open spec fn reaches_below(kind: BlockKind) -> bool {
    kind == BlockKind::List || kind == BlockKind::IndentedCode || kind == BlockKind::FootnoteDef
}

/// As the block sitting above a candidate seam: can it extend downward across
/// a blank line if the text below changes? A closed fence/HTML block cannot
/// re-open, and everything else needs adjacency (which the blank breaks).
fn open_above_gap(kind: BlockKind) -> (open: bool)
    ensures
        open == reaches_below(kind),
{
    kind == BlockKind::List || kind == BlockKind::IndentedCode || kind == BlockKind::FootnoteDef
}

/// The number of blocks that begin at or before a line, of blocks in line order.
pub open spec fn blocks_begun(blocks: Seq<SourceBlock>, line: int) -> int
    decreases blocks.len(),
{
    if blocks.len() == 0 {
        0
    } else if blocks.last().start_line <= line {
        blocks.len() as int
    } else {
        blocks_begun(blocks.drop_last(), line)
    }
}

/// The block that contains a line.
pub open spec fn block_holding(blocks: Seq<SourceBlock>, line: int) -> Option<int> {
    let n = blocks_begun(blocks, line);
    if n > 0 && blocks[n - 1].end_line >= line {
        Some(n - 1)
    } else {
        None
    }
}

/// Whether a blank line nobody owns, below a block that cannot reach across it, is a
/// sound place to begin a reparse.
pub open spec fn sound_seam(blocks: Seq<SourceBlock>, lines: LineIndexView, line: int) -> bool {
    let n = blocks_begun(blocks, line);
    let flags: u8 = if line < lines.flags.len() {
        lines.flags[line]
    } else {
        0
    };
    &&& flags & 1 != 0
    &&& block_holding(blocks, line) is None
    &&& !(n > 0 && reaches_below(blocks[n - 1].kind))
}

/// The last sound seam in `[floor, line)`.
pub open spec fn seam_above(
    blocks: Seq<SourceBlock>,
    lines: LineIndexView,
    floor: int,
    line: int,
) -> Option<int>
    decreases line - floor,
{
    if line <= floor {
        None
    } else if sound_seam(blocks, lines, line - 1) {
        Some(line - 1)
    } else {
        seam_above(blocks, lines, floor, line - 1)
    }
}

/// A sound place at or above the dirty line to begin a reparse: the beginning of the
/// document, or the nearest sound seam within the search cap.
pub open spec fn upper_seam_of(
    blocks: Seq<SourceBlock>,
    lines: LineIndexView,
    dirty: int,
) -> Option<int> {
    let floor = if dirty > SEAM_SEARCH_LINES {
        dirty - SEAM_SEARCH_LINES
    } else {
        0
    };
    if dirty == 0 {
        Some(0)
    } else {
        match seam_above(blocks, lines, floor, dirty) {
            Some(seam) => Some(seam),
            None => if floor == 0 {
                Some(0)
            } else {
                None
            },
        }
    }
}

/// The block, moved down by a number of lines and bytes.
pub open spec fn moved_down(block: SourceBlock, lines: int, bytes: int) -> SourceBlock {
    SourceBlock {
        start_line: (block.start_line + lines) as usize,
        end_line: (block.end_line + lines) as usize,
        start_byte: (block.start_byte + bytes) as usize,
        end_byte: (block.end_byte + bytes) as usize,
        ..block
    }
}

/// What a [`BlockIndex`] holds.
#[verifier::ext_equal]
pub struct BlockIndexView {
    pub blocks: Seq<SourceBlock>,
    /// The link reference definitions with their lines, in line order.
    pub defs: Seq<(usize, Seq<char>)>,
    pub version: Option<u64>,
    pub floor: int,
    pub stats: BlockIndexStats,
}

/// The part of a document from a line on.
pub open spec fn text_from(text: Seq<char>, line: int) -> Seq<char> {
    let b = encode_utf8(text);
    decode_utf8(b.subrange(line_start(b, line), b.len() as int))
}

impl BlockIndexView {
    /// The index of a document, parsed whole.
    pub open spec fn rebuilt(self, text: Seq<char>, version: u64) -> BlockIndexView {
        BlockIndexView {
            blocks: document_blocks(text),
            defs: definitions(text),
            version: Some(version),
            stats: BlockIndexStats {
                full_rebuilds: counted(self.stats.full_rebuilds),
                ..self.stats
            },
            ..self
        }
    }

    /// The index with everything from line `seam` on parsed again.
    pub open spec fn windowed(self, text: Seq<char>, seam: int, version: u64) -> BlockIndexView {
        let b = encode_utf8(text);
        let window = text_from(text, seam);
        BlockIndexView {
            blocks: self.blocks.filter(|x: SourceBlock| x.end_line < seam) + document_blocks(
                window,
            ).map_values(|x: SourceBlock| moved_down(x, seam, line_start(b, seam))),
            defs: self.defs.filter(|d: (usize, Seq<char>)| d.0 < seam) + definitions(
                window,
            ).map_values(|d: (usize, Seq<char>)| ((d.0 + seam) as usize, d.1)),
            version: Some(version),
            stats: BlockIndexStats {
                windowed_updates: counted(self.stats.windowed_updates),
                ..self.stats
            },
            ..self
        }
    }

    /// The line from which an edit at `start_line` must be parsed again: the beginning of
    /// the block that holds it.
    pub open spec fn dirty_line(self, start: int) -> int {
        match block_holding(self.blocks, start) {
            Some(i) => self.blocks[i].start_line as int,
            None => start,
        }
    }

    /// The index after an edit. An edit that was missed marks it stale. A small document,
    /// an edit that touched footnotes or definitions, a window with footnotes in it, or no
    /// sound seam: parsed whole. Otherwise the window from the seam on is.
    pub open spec fn edited(
        self,
        text: Seq<char>,
        start_line: int,
        touched: u8,
        lines: LineIndexView,
        version: u64,
    ) -> BlockIndexView {
        let b = encode_utf8(text);
        let total = line_count(b);
        let in_step = match self.version {
            Some(v) => v + 1 == version,
            None => false,
        };
        let gave_up = BlockIndexView {
            stats: BlockIndexStats {
                full_fallbacks: counted(self.stats.full_fallbacks),
                ..self.stats
            },
            ..self
        };
        if !in_step {
            BlockIndexView { version: None, ..self }
        } else if b.len() < self.floor || touched & 6 != 0 {
            self.rebuilt(text, version)
        } else {
            match upper_seam_of(
                self.blocks,
                lines,
                self.dirty_line(least(start_line, total - 1)),
            ) {
                None => gave_up.rebuilt(text, version),
                Some(seam) => if exists|l: int|
                    seam <= l < total && l < lines.flags.len() && (#[trigger] lines.flags[l]) & 2
                        != 0 {
                    gave_up.rebuilt(text, version)
                } else {
                    self.windowed(text, seam, version)
                },
            }
        }
    }

    /// Blocks lie in the document in order, none into the next.
    pub open spec fn in_order(self) -> bool {
        &&& forall|i: int|
            0 <= i < self.blocks.len() ==> (#[trigger] self.blocks[i]).start_line
                <= self.blocks[i].end_line
        &&& forall|i: int, j: int|
            0 <= i < j < self.blocks.len() ==> (#[trigger] self.blocks[i]).end_line < (
            #[trigger] self.blocks[j]).start_line
    }
}

/// Block boundaries + link reference definitions, versioned against the
/// buffer. `is_current` mismatches degrade to a full rebuild, never to a
/// stale index.
pub struct BlockIndex {
    blocks: Vec<SourceBlock>,
    /// Link reference definitions by source line: `[docs]: url` lines living
    /// in the gaps between blocks. The flat `ref_defs` string is their
    /// concatenation in line order.
    defs: Vec<(usize, String)>,
    ref_defs: String,
    ref_defs_hash: u64,
    version: Option<u64>,
    full_floor_bytes: usize,
    stats: BlockIndexStats,
}

impl View for BlockIndex {
    type V = BlockIndexView;

    closed spec fn view(&self) -> BlockIndexView {
        BlockIndexView {
            blocks: self.blocks@,
            defs: def_views(self.defs@),
            version: self.version,
            floor: self.full_floor_bytes as int,
            stats: self.stats,
        }
    }
}

proof fn lemma_run_end(shapes: Seq<ShapeView>, owner: int, line: int, total: int)
    requires
        0 <= line < total,
        owner_of(shapes, line, total) == Some(owner),
    ensures
        line < run_end(shapes, owner, line, total) <= total,
        forall|l: int|
            line <= l < run_end(shapes, owner, line, total) ==> owner_of(shapes, l, total) == Some(
                owner,
            ),
    decreases total - line,
{
    if line + 1 < total && owner_of(shapes, line + 1, total) == Some(owner) {
        lemma_run_end(shapes, owner, line + 1, total);
    } else {
        assert(run_end(shapes, owner, line + 1, total) == line + 1);
    }
}

/// The blocks of a document lie within it, in order, none into the next.
pub proof fn lemma_blocks_in_order(text: Seq<char>, line: int)
    requires
        0 <= line <= line_count(encode_utf8(text)) <= usize::MAX,
        encode_utf8(text).len() <= usize::MAX,
    ensures
        ({
            let blocks = blocks_from(text, line);
            let b = encode_utf8(text);
            &&& forall|i: int|
                0 <= i < blocks.len() ==> {
                    let x = #[trigger] blocks[i];
                    &&& line <= x.start_line <= x.end_line < line_count(b)
                    &&& x.start_byte == line_start(b, x.start_line as int)
                    &&& x.end_byte == line_start(b, x.end_line + 1)
                }
            &&& forall|i: int, j: int|
                0 <= i < j < blocks.len() ==> (#[trigger] blocks[i]).end_line < (
                #[trigger] blocks[j]).start_line
        }),
    decreases line_count(encode_utf8(text)) - line,
{
    let b = encode_utf8(text);
    let total = line_count(b);
    let shapes = node_shapes(text, true);
    if line < total {
        match owner_of(shapes, line, total) {
            None => {
                lemma_blocks_in_order(text, line + 1);
            },
            Some(owner) => {
                let end = run_end(shapes, owner, line, total);
                lemma_run_end(shapes, owner, line, total);
                lemma_blocks_in_order(text, end);
                lemma_line_starts_grow(b, line, end);
                let rest = blocks_from(text, end);
                let blocks = blocks_from(text, line);
                let first = block_of_run(text, owner, line, end);
                assert(blocks =~= seq![first] + rest);
                assert forall|i: int| 0 <= i < blocks.len() implies ({
                    let x = #[trigger] blocks[i];
                    &&& line <= x.start_line <= x.end_line < line_count(b)
                    &&& x.start_byte == line_start(b, x.start_line as int)
                    &&& x.end_byte == line_start(b, x.end_line + 1)
                }) by {
                    if i > 0 {
                        assert(blocks[i] == rest[i - 1]);
                    }
                }
                assert forall|i: int, j: int| 0 <= i < j < blocks.len() implies (
                #[trigger] blocks[i]).end_line < (#[trigger] blocks[j]).start_line by {
                    assert(blocks[j] == rest[j - 1]);
                    if i > 0 {
                        assert(blocks[i] == rest[i - 1]);
                    }
                }
            },
        }
    }
}

proof fn lemma_filter_keeps<T>(blocks: Seq<T>, keep: spec_fn(T) -> bool, n: int)
    requires
        0 <= n <= blocks.len(),
        forall|i: int| 0 <= i < blocks.len() ==> keep(#[trigger] blocks[i]) == (i < n),
    ensures
        blocks.filter(keep) == blocks.take(n),
    decreases blocks.len(),
{
    reveal(Seq::filter);
    if blocks.len() > 0 {
        let rest = blocks.drop_last();
        let m = if n == blocks.len() {
            n - 1
        } else {
            n
        };
        assert forall|i: int| 0 <= i < rest.len() implies keep(#[trigger] rest[i]) == (i < m) by {
            assert(rest[i] == blocks[i]);
        }
        lemma_filter_keeps(rest, keep, m);
        assert(keep(blocks[blocks.len() - 1]) == (blocks.len() - 1 < n));
        assert(rest.take(m) =~= blocks.take(m));
        if n == blocks.len() {
            assert(blocks.take(m).push(blocks.last()) =~= blocks.take(n));
        }
    } else {
        assert(blocks.take(n) =~= blocks);
    }
}

/// A windowed reparse keeps the blocks in order: those kept end above the seam, those
/// parsed again begin at or below it.
pub proof fn lemma_windowed_in_order(v: BlockIndexView, text: Seq<char>, seam: int, version: u64)
    requires
        v.in_order(),
        0 <= seam < line_count(encode_utf8(text)) <= usize::MAX,
        encode_utf8(text).len() <= usize::MAX,
    ensures
        v.windowed(text, seam, version).in_order(),
{
    let b = encode_utf8(text);
    let s = line_start(b, seam);
    let keep = |x: SourceBlock| x.end_line < seam;
    let n = count_above(v.blocks, seam);
    lemma_count_above(v.blocks, seam);
    lemma_filter_keeps(v.blocks, keep, n);
    let window = text_from(text, seam);
    encode_utf8_valid_utf8(text);
    lemma_line_start_boundary(b, seam);
    lemma_line_start(b, seam);
    lemma_text_from(text, seam);
    lemma_suffix_lines(b, seam, 0);
    lemma_blocks_in_order(window, 0);
    let below = document_blocks(window).map_values(|x: SourceBlock| moved_down(x, seam, s));
    let all = v.windowed(text, seam, version).blocks;
    assert(all =~= v.blocks.take(n) + below);
    assert forall|i: int| 0 <= i < below.len() implies (#[trigger] below[i]).start_line == document_blocks(
        window,
    )[i].start_line + seam && below[i].end_line == document_blocks(window)[i].end_line + seam by {
        let x = document_blocks(window)[i];
        assert(x.end_line < line_count(encode_utf8(window)));
    }
    assert forall|i: int| 0 <= i < all.len() implies (#[trigger] all[i]).start_line
        <= all[i].end_line by {
        if i < n {
            assert(all[i] == v.blocks[i]);
        } else {
            assert(all[i] == below[i - n]);
            let x = document_blocks(window)[i - n];
            assert(x.start_line <= x.end_line);
        }
    }
    assert forall|i: int, j: int| 0 <= i < j < all.len() implies (#[trigger] all[i]).end_line < (
    #[trigger] all[j]).start_line by {
        if j < n {
            assert(all[i] == v.blocks[i] && all[j] == v.blocks[j]);
        } else {
            assert(all[j] == below[j - n]);
            let y = document_blocks(window)[j - n];
            assert(0 <= y.start_line);
            if i < n {
                assert(all[i] == v.blocks[i]);
                assert(keep(v.blocks[i]));
            } else {
                assert(all[i] == below[i - n]);
                let x = document_blocks(window)[i - n];
                assert(x.end_line < y.start_line);
            }
        }
    }
}

/// The number of blocks that end above a line.
pub open spec fn count_above(blocks: Seq<SourceBlock>, seam: int) -> int
    decreases blocks.len(),
{
    if blocks.len() == 0 {
        0
    } else if blocks.last().end_line < seam {
        blocks.len() as int
    } else {
        count_above(blocks.drop_last(), seam)
    }
}

proof fn lemma_count_above(blocks: Seq<SourceBlock>, seam: int)
    requires
        forall|i: int|
            0 <= i < blocks.len() ==> (#[trigger] blocks[i]).start_line <= blocks[i].end_line,
        forall|i: int, j: int|
            0 <= i < j < blocks.len() ==> (#[trigger] blocks[i]).end_line < (
            #[trigger] blocks[j]).start_line,
    ensures
        0 <= count_above(blocks, seam) <= blocks.len(),
        forall|i: int|
            0 <= i < blocks.len() ==> ((#[trigger] blocks[i]).end_line < seam) == (i < count_above(
                blocks,
                seam,
            )),
    decreases blocks.len(),
{
    if blocks.len() > 0 {
        let rest = blocks.drop_last();
        if blocks.last().end_line < seam {
            assert forall|i: int| 0 <= i < blocks.len() implies (#[trigger] blocks[i]).end_line
                < seam by {
                if i < blocks.len() - 1 {
                    assert(blocks[i].end_line < blocks[blocks.len() - 1].start_line);
                }
            }
        } else {
            assert forall|i: int| 0 <= i < rest.len() implies (#[trigger] rest[i]).start_line
                <= rest[i].end_line by {
                assert(rest[i] == blocks[i]);
            }
            assert forall|i: int, j: int| 0 <= i < j < rest.len() implies (
            #[trigger] rest[i]).end_line < (#[trigger] rest[j]).start_line by {
                assert(rest[i] == blocks[i] && rest[j] == blocks[j]);
            }
            lemma_count_above(rest, seam);
            assert forall|i: int| 0 <= i < blocks.len() implies ((#[trigger] blocks[i]).end_line
                < seam) == (i < count_above(blocks, seam)) by {
                if i < rest.len() {
                    assert(rest[i] == blocks[i]);
                }
            }
        }
    }
}

/// The part of a text from a line on has the bytes of the text from there on.
pub proof fn lemma_text_from(text: Seq<char>, line: int)
    requires
        0 <= line <= line_count(encode_utf8(text)),
    ensures
        encode_utf8(text_from(text, line)) == encode_utf8(text).skip(
            line_start(encode_utf8(text), line),
        ),
{
    let b = encode_utf8(text);
    encode_utf8_valid_utf8(text);
    lemma_line_start_boundary(b, line);
    lemma_line_start(b, line);
    lemma_boundary_ends(b);
    let s = line_start(b, line);
    crate::bytes::lemma_valid_between(b, s, b.len() as int);
    decode_utf8_encode_utf8(b.subrange(s, b.len() as int));
    assert(b.subrange(s, b.len() as int) =~= b.skip(s));
}

/// The part of a document above a line.
pub open spec fn text_upto(text: Seq<char>, line: int) -> Seq<char> {
    let b = encode_utf8(text);
    decode_utf8(b.subrange(0, line_start(b, line)))
}

/// What the parser is relied on for at a seam: nothing above reaches over it, and the parts
/// above and below it are parsed, each as a document of its own, as they are in the whole.
pub open spec fn seam_holds(text: Seq<char>, seam: int) -> bool {
    let above = text_upto(text, seam);
    let below = text_from(text, seam);
    &&& document_blocks(text) == document_blocks(above) + document_blocks(below).map_values(
        |x: SourceBlock| moved_down(x, seam, line_start(encode_utf8(text), seam)),
    )
    &&& definitions(text) == definitions(above) + definitions(below).map_values(
        |d: (usize, Seq<char>)| ((d.0 + seam) as usize, d.1),
    )
    &&& forall|i: int|
        0 <= i < document_blocks(above).len() ==> (#[trigger] document_blocks(above)[i]).end_line
            < seam
    &&& forall|i: int| 0 <= i < definitions(above).len() ==> (#[trigger] definitions(above)[i]).0 < seam
}

/// Definitions lie on the lines that were looked at.
proof fn lemma_definition_lines(text: Seq<char>, n: int)
    requires
        0 <= n <= usize::MAX,
    ensures
        forall|i: int|
            0 <= i < definitions_upto(text, n).len() ==> (#[trigger] definitions_upto(text, n)[i]).0
                < n,
    decreases n,
{
    if n > 0 {
        lemma_definition_lines(text, n - 1);
        let rest = definitions_upto(text, n - 1);
        assert forall|i: int| 0 <= i < definitions_upto(text, n).len() implies (
        #[trigger] definitions_upto(text, n)[i]).0 < n by {
            if i < rest.len() {
                assert(rest[i].0 < n - 1);
                assert(definitions_upto(text, n)[i] == rest[i]);
            }
        }
    }
}

/// Keeping what is above the seam keeps the first part of a sequence whose second part lies
/// below it.
proof fn lemma_keeps_the_first<T>(a: Seq<T>, b: Seq<T>, keep: spec_fn(T) -> bool)
    requires
        forall|i: int| 0 <= i < a.len() ==> keep(#[trigger] a[i]),
        forall|i: int| 0 <= i < b.len() ==> !keep(#[trigger] b[i]),
    ensures
        (a + b).filter(keep) == a,
{
    let all = a + b;
    assert forall|i: int| 0 <= i < all.len() implies keep(#[trigger] all[i]) == (i < a.len()) by {
        if i < a.len() {
            assert(all[i] == a[i]);
        } else {
            assert(all[i] == b[i - a.len()]);
        }
    }
    lemma_filter_keeps(all, keep, a.len() as int);
    assert(all.take(a.len() as int) =~= a);
}

/// What is moved down by a seam lies below it.
proof fn lemma_moved_lies_below(text: Seq<char>, seam: int)
    requires
        0 <= seam < line_count(encode_utf8(text)) <= usize::MAX,
        encode_utf8(text).len() <= usize::MAX,
    ensures
        ({
            let below = text_from(text, seam);
            let blocks = document_blocks(below).map_values(
                |x: SourceBlock| moved_down(x, seam, line_start(encode_utf8(text), seam)),
            );
            let defs = definitions(below).map_values(
                |d: (usize, Seq<char>)| ((d.0 + seam) as usize, d.1),
            );
            &&& forall|i: int| 0 <= i < blocks.len() ==> (#[trigger] blocks[i]).end_line >= seam
            &&& forall|i: int| 0 <= i < defs.len() ==> (#[trigger] defs[i]).0 >= seam
        }),
{
    let b = encode_utf8(text);
    let below = text_from(text, seam);
    encode_utf8_valid_utf8(text);
    lemma_text_from(text, seam);
    lemma_suffix_lines(b, seam, 0);
    lemma_line_start(b, seam);
    lemma_blocks_in_order(below, 0);
    lemma_definition_lines(below, line_count(encode_utf8(below)));
    let blocks = document_blocks(below).map_values(
        |x: SourceBlock| moved_down(x, seam, line_start(b, seam)),
    );
    let defs = definitions(below).map_values(|d: (usize, Seq<char>)| ((d.0 + seam) as usize, d.1));
    assert forall|i: int| 0 <= i < blocks.len() implies (#[trigger] blocks[i]).end_line >= seam by {
        let x = document_blocks(below)[i];
        assert(x.end_line < line_count(encode_utf8(below)));
    }
    assert forall|i: int| 0 <= i < defs.len() implies (#[trigger] defs[i]).0 >= seam by {
        let d = definitions(below)[i];
        assert(d.0 < line_count(encode_utf8(below)));
    }
}

/// Parsing again from the first line on parses the whole document.
proof fn lemma_window_from_the_top(v: BlockIndexView, text: Seq<char>, version: u64)
    requires
        line_count(encode_utf8(text)) <= usize::MAX,
        encode_utf8(text).len() <= usize::MAX,
    ensures
        v.windowed(text, 0, version).blocks == document_blocks(text),
        v.windowed(text, 0, version).defs == definitions(text),
{
    let b = encode_utf8(text);
    lemma_breaks_before(b, 0, b.len() as int);
    lemma_line_start(b, 0);
    assert(b.subrange(0, b.len() as int) =~= b);
    encode_utf8_decode_utf8(text);
    let keep = |x: SourceBlock| x.end_line < 0;
    let keep_def = |d: (usize, Seq<char>)| d.0 < 0;
    lemma_filter_keeps(v.blocks, keep, 0);
    lemma_filter_keeps(v.defs, keep_def, 0);
    let blocks = document_blocks(text);
    let defs = definitions(text);
    assert(v.windowed(text, 0, version).blocks =~= blocks) by {
        assert(blocks.map_values(|x: SourceBlock| moved_down(x, 0, 0)) =~= blocks);
        assert(v.blocks.take(0) + blocks =~= blocks);
    }
    assert(v.windowed(text, 0, version).defs =~= defs) by {
        assert(defs.map_values(|d: (usize, Seq<char>)| ((d.0 + 0) as usize, d.1)) =~= defs);
        assert(v.defs.take(0) + defs =~= defs);
    }
}

/// A windowed reparse of an index that was that of the whole document before an edit below
/// the seam gives the index of the whole document after it, where the parser holds to the
/// seam before and after.
pub proof fn lemma_windowed_is_whole(
    v: BlockIndexView,
    before: Seq<char>,
    after: Seq<char>,
    seam: int,
    version: u64,
)
    requires
        v.blocks == document_blocks(before),
        v.defs == definitions(before),
        0 <= seam < line_count(encode_utf8(before)) <= usize::MAX,
        seam < line_count(encode_utf8(after)) <= usize::MAX,
        encode_utf8(before).len() <= usize::MAX,
        encode_utf8(after).len() <= usize::MAX,
        text_upto(before, seam) == text_upto(after, seam),
        seam > 0 ==> seam_holds(before, seam) && seam_holds(after, seam),
    ensures
        v.windowed(after, seam, version).blocks == document_blocks(after),
        v.windowed(after, seam, version).defs == definitions(after),
{
    if seam == 0 {
        lemma_window_from_the_top(v, after, version);
    } else {
        let above = text_upto(before, seam);
        let below = text_from(before, seam);
        let keep = |x: SourceBlock| x.end_line < seam;
        let keep_def = |d: (usize, Seq<char>)| d.0 < seam;
        lemma_moved_lies_below(before, seam);
        lemma_keeps_the_first(
            document_blocks(above),
            document_blocks(below).map_values(
                |x: SourceBlock| moved_down(x, seam, line_start(encode_utf8(before), seam)),
            ),
            keep,
        );
        lemma_keeps_the_first(
            definitions(above),
            definitions(below).map_values(|d: (usize, Seq<char>)| ((d.0 + seam) as usize, d.1)),
            keep_def,
        );
    }
}

proof fn lemma_begun_before(blocks: Seq<SourceBlock>, line: int)
    ensures
        0 <= blocks_begun(blocks, line) <= blocks.len(),
        blocks_begun(blocks, line) > 0 ==> blocks[blocks_begun(blocks, line) - 1].start_line <= line,
    decreases blocks.len(),
{
    if blocks.len() > 0 && blocks.last().start_line > line {
        lemma_begun_before(blocks.drop_last(), line);
    }
}

proof fn lemma_seam_above(blocks: Seq<SourceBlock>, lines: LineIndexView, floor: int, line: int)
    requires
        0 <= floor,
    ensures
        match seam_above(blocks, lines, floor, line) {
            Some(seam) => floor <= seam < line,
            None => true,
        },
    decreases line - floor,
{
    if line > floor {
        lemma_seam_above(blocks, lines, floor, line - 1);
    }
}

/// The seam for an edit is at or above the line that it begins on.
pub proof fn lemma_seam_is_above(v: BlockIndexView, lines: LineIndexView, start: int)
    requires
        0 <= start,
    ensures
        match upper_seam_of(v.blocks, lines, v.dirty_line(start)) {
            Some(seam) => 0 <= seam <= start,
            None => true,
        },
{
    lemma_begun_before(v.blocks, start);
    let dirty = v.dirty_line(start);
    let floor = if dirty > SEAM_SEARCH_LINES {
        dirty - SEAM_SEARCH_LINES
    } else {
        0
    };
    lemma_seam_above(v.blocks, lines, floor, dirty);
}

/// The index of the last node that owns each line.
fn owners(shapes: &Vec<Shape>, total: usize) -> (owner: Vec<Option<usize>>)
    requires
        total >= 1,
    ensures
        owner@.len() == total,
        forall|l: int|
            0 <= l < total ==> match #[trigger] owner@[l] {
                Some(i) => owner_of(shape_views(shapes@), l, total as int) == Some(i as int) && i
                    < shapes@.len(),
                None => owner_of(shape_views(shapes@), l, total as int) is None,
            },
{
    let ghost v = shape_views(shapes@);
    let mut owner: Vec<Option<usize>> = Vec::new();
    let mut l: usize = 0;
    while l < total
        invariant
            l <= total,
            owner@.len() == l,
            forall|k: int| 0 <= k < l ==> #[trigger] owner@[k] is None,
        decreases total - l,
    {
        owner.push(None);
        l += 1;
    }
    let mut i: usize = 0;
    while i < shapes.len()
        invariant
            total >= 1,
            v == shape_views(shapes@),
            i <= shapes@.len(),
            owner@.len() == total,
            forall|l: int|
                0 <= l < total ==> match #[trigger] owner@[l] {
                    Some(k) => owner_among(v, i as int, l, total as int) == Some(k as int) && k
                        < shapes@.len(),
                    None => owner_among(v, i as int, l, total as int) is None,
                },
        decreases shapes@.len() - i,
    {
        assert(v[i as int] == shapes@[i as int]@);
        if shapes[i].depth == 2 {
            let start: usize = within(shapes[i].start_line, total);
            let end: usize = within(shapes[i].end_line, total);
            let ghost before = owner@;
            let mut l: usize = start;
            while l <= end
                invariant
                    start <= l,
                    l <= end + 1 || l == start,
                    end < total,
                    start < total,
                    owner@.len() == total,
                    forall|k: int| start <= k < l ==> #[trigger] owner@[k] == Some(i),
                    forall|k: int|
                        0 <= k < total && !(start <= k < l) ==> #[trigger] owner@[k] == before[k],
                decreases end + 1 - l,
            {
                owner.set(l, Some(i));
                l += 1;
            }
        }
        i += 1;
        assert forall|l: int| 0 <= l < total implies match #[trigger] owner@[l] {
            Some(k) => owner_among(v, i as int, l, total as int) == Some(k as int) && k
                < shapes@.len(),
            None => owner_among(v, i as int, l, total as int) is None,
        } by {
            assert(owner_among(v, i as int, l, total as int) == if owns(
                v[i - 1],
                l,
                total as int,
            ) {
                Some(i - 1)
            } else {
                owner_among(v, i - 1, l, total as int)
            });
        }
    }
    owner
}

fn within(line: usize, total: usize) -> (l: usize)
    requires
        total >= 1,
    ensures
        l == line_within(line as int, total as int),
        l < total,
{
    let from_zero: usize = if line > 0 {
        line - 1
    } else {
        0
    };
    if from_zero < total - 1 {
        from_zero
    } else {
        total - 1
    }
}

/// Partition `rope` into top-level blocks and collect the link reference
/// definitions, exactly as the whole-document parse sees them.
pub fn parse_blocks(rope: &Rope) -> (r: (Vec<SourceBlock>, Vec<(usize, String)>))
    ensures
        r.0@ == document_blocks(rope_text(*rope)),
        def_views(r.1@) == definitions(rope_text(*rope)),
{
    let ghost text = rope_text(*rope);
    let ghost b = rope_bytes(*rope);
    let total: usize = rope_len_lines(rope);
    let len: usize = rope_len_bytes(rope);
    proof {
        lemma_breaks_before(b, 0, b.len() as int);
        encode_utf8_valid_utf8(text);
    }
    let source = rope_to_string(rope);
    let shapes = parse_shapes(source.as_str(), gfm_options());
    let numbers = parse_numbers(source.as_str(), gfm_options());
    let ghost v = shape_views(shapes@);
    // Map each line to its owning top-level child, then group maximal
    // same-owner runs into blocks. Unowned lines are blank gaps (or pure
    // definitions).
    let owner = owners(&shapes, total);
    let mut blocks: Vec<SourceBlock> = Vec::new();
    let mut line: usize = 0;
    while line < total
        invariant
            text == rope_text(*rope),
            b == rope_bytes(*rope),
            b == encode_utf8(text),
            valid_utf8(b),
            source@ == text,
            total == line_count(b),
            len == b.len(),
            v == shape_views(shapes@),
            v == node_shapes(text, true),
            numbers@ == node_numbers(text),
            numbers@.len() == shapes@.len(),
            v.len() == shapes@.len(),
            owner@.len() == total,
            forall|l: int|
                0 <= l < total ==> match #[trigger] owner@[l] {
                    Some(i) => owner_of(v, l, total as int) == Some(i as int) && i < shapes@.len(),
                    None => owner_of(v, l, total as int) is None,
                },
            line <= total,
            blocks@ + blocks_from(text, line as int) == document_blocks(text),
        decreases total - line,
    {
        match owner[line] {
            None => {
                line += 1;
            },
            Some(idx) => {
                let start: usize = line;
                let ghost end = run_end(v, idx as int, start as int, total as int);
                proof {
                    lemma_run_end(v, idx as int, start as int, total as int);
                }
                line += 1;
                while line < total && owner[line] == Some(idx)
                    invariant
                        start < line <= total,
                        total == owner@.len(),
                        end == run_end(v, idx as int, line as int, total as int),
                        forall|l: int|
                            0 <= l < total ==> match #[trigger] owner@[l] {
                                Some(i) => owner_of(v, l, total as int) == Some(i as int),
                                None => owner_of(v, l, total as int) is None,
                            },
                    decreases total - line,
                {
                    assert(owner@[line as int] == Some(idx));
                    line += 1;
                }
                assert(line == end) by {
                    if line < total {
                        assert(owner@[line as int] != Some(idx));
                    }
                }
                proof {
                    lemma_line_start_boundary(b, start as int);
                    lemma_line_start_boundary(b, line as int);
                    lemma_line_starts_grow(b, start as int, line as int);
                }
                let start_byte: usize = rope_line_to_byte(rope, start);
                let end_byte: usize = rope_line_to_byte(rope, line);
                let part = slice(source.as_str(), start_byte, end_byte);
                assert(v[idx as int] == shapes@[idx as int]@);
                let ghost before = blocks@;
                let block = SourceBlock {
                    start_line: start,
                    end_line: line - 1,
                    start_byte,
                    end_byte,
                    content_hash: stable_hash(part.as_bytes()),
                    kind: block_kind(shapes[idx].tag.as_str(), numbers[idx] == 1),
                };
                assert(block == block_of_run(text, idx as int, start as int, line as int));
                blocks.push(block);
                assert(blocks@ + blocks_from(text, line as int) =~= before + (seq![block]
                    + blocks_from(text, line as int)));
            },
        }
    }
    assert(blocks@ + blocks_from(text, total as int) =~= blocks@);
    let defs = defs_from_gaps(rope, &owner, Ghost(v));
    (blocks, defs)
}

/// Whether a line alone parses to an empty document.
fn probes_empty(line: &str) -> (empty: bool)
    ensures
        empty == parses_to_nothing(line@),
{
    let shapes = parse_shapes(line, Extensions { footnotes: false, ..gfm_options() });
    let ghost v = shape_views(shapes@);
    let mut i: usize = 0;
    while i < shapes.len()
        invariant
            i <= shapes@.len(),
            v == shape_views(shapes@),
            v == node_shapes(line@, false),
            forall|k: int| 0 <= k < i ==> (#[trigger] v[k]).depth != 2,
        decreases shapes@.len() - i,
    {
        assert(v[i as int] == shapes@[i as int]@);
        if shapes[i].depth == 2 {
            return false;
        }
        i += 1;
    }
    true
}

/// Collect the document's link reference definitions, keyed by source line.
///
/// Definitions never appear in the tree, so their lines are exactly the non-blank
/// *unowned* ones. A line is taken only if it alone re-parses to an empty document, the
/// signature of a pure definition. Footnotes are disabled for the probe so a `[^name]:`
/// definition parses as a paragraph and is rejected.
fn defs_from_gaps(rope: &Rope, owner: &Vec<Option<usize>>, v: Ghost<Seq<ShapeView>>) -> (defs: Vec<
    (usize, String),
>)
    requires
        v@ == node_shapes(rope_text(*rope), true),
        owner@.len() == line_count(rope_bytes(*rope)),
        forall|l: int|
            0 <= l < owner@.len() ==> (#[trigger] owner@[l] is None) == (owner_of(
                v@,
                l,
                owner@.len() as int,
            ) is None),
    ensures
        def_views(defs@) == definitions(rope_text(*rope)),
{
    let ghost text = rope_text(*rope);
    let ghost b = rope_bytes(*rope);
    let mut defs: Vec<(usize, String)> = Vec::new();
    let mut l: usize = 0;
    assert(def_views(defs@) =~= Seq::empty());
    while l < owner.len()
        invariant
            text == rope_text(*rope),
            b == encode_utf8(text),
            v@ == node_shapes(text, true),
            owner@.len() == line_count(b),
            forall|l: int|
                0 <= l < owner@.len() ==> (#[trigger] owner@[l] is None) == (owner_of(
                    v@,
                    l,
                    owner@.len() as int,
                ) is None),
            l <= owner@.len(),
            def_views(defs@) == definitions_upto(text, l as int),
        decreases owner@.len() - l,
    {
        if owner[l].is_none() {
            let line = rope_line(rope, l);
            proof {
                encode_utf8_decode_utf8(line@);
                assert(line@ == line_text(text, l as int));
            }
            let bare = trim(line.as_str());
            if !bare.as_str().is_empty() && probes_empty(line.as_str()) {
                let ghost before = def_views(defs@);
                let ghost def = bare@;
                defs.push((l, bare));
                assert(def_views(defs@) =~= before.push((l, def)));
            }
        } else {
            assert(owner_of(v@, l as int, owner@.len() as int) is Some);
        }
        l += 1;
    }
    defs
}

/// The part of a rope between two bytes.
pub fn source_slice(rope: &Rope, start: usize, end: usize) -> (text: String)
    requires
        start <= end,
        boundary(rope_bytes(*rope), start as int),
        boundary(rope_bytes(*rope), end as int),
    ensures
        text@ == text_between(rope_bytes(*rope), start as int, end as int),
        encode_utf8(text@) == rope_bytes(*rope).subrange(start as int, end as int),
{
    let source = rope_to_string(rope);
    slice(source.as_str(), start, end).to_owned()
}

impl BlockIndex {
    /// The flat definitions are those of the registry.
    pub closed spec fn defs_ok(&self) -> bool {
        &&& self.ref_defs@ == joined(def_views(self.defs@))
        &&& self.ref_defs_hash == fnv(encode_utf8(joined(def_views(self.defs@))))
    }

    /// An index of nothing, stale from the start.
    pub fn new() -> (index: Self)
        ensures
            index@ == (BlockIndexView {
                blocks: Seq::empty(),
                defs: Seq::empty(),
                version: None,
                floor: FULL_FLOOR_BYTES as int,
                stats: BlockIndexStats {
                    full_rebuilds: 0,
                    windowed_updates: 0,
                    full_fallbacks: 0,
                    last_parse_us: 0,
                },
            }),
            index.defs_ok(),
            index@.in_order(),
    {
        let ref_defs = String::new();
        let ref_defs_hash: u64 = stable_hash(ref_defs.as_str().as_bytes());
        let index = BlockIndex {
            blocks: Vec::new(),
            defs: Vec::new(),
            ref_defs,
            ref_defs_hash,
            version: None,
            full_floor_bytes: FULL_FLOOR_BYTES,
            stats: BlockIndexStats {
                full_rebuilds: 0,
                windowed_updates: 0,
                full_fallbacks: 0,
                last_parse_us: 0,
            },
        };
        assert(def_views(index.defs@) =~= Seq::empty());
        assert(index@.blocks =~= Seq::empty());
        index
    }

    pub fn blocks(&self) -> (blocks: &Vec<SourceBlock>)
        ensures
            blocks@ == self@.blocks,
    {
        &self.blocks
    }

    /// The document's link reference definitions, one per line, in line order.
    pub fn ref_defs(&self) -> (text: &str)
        requires
            self.defs_ok(),
        ensures
            text@ == joined(self@.defs),
    {
        self.ref_defs.as_str()
    }

    pub fn ref_defs_hash(&self) -> (hash: u64)
        requires
            self.defs_ok(),
        ensures
            hash == fnv(encode_utf8(joined(self@.defs))),
    {
        self.ref_defs_hash
    }

    pub fn is_current(&self, version: u64) -> (current: bool)
        ensures
            current == (self@.version == Some(version)),
    {
        match self.version {
            Some(v) => v == version,
            None => false,
        }
    }

    pub fn stats(&self) -> (stats: BlockIndexStats)
        ensures
            stats == self@.stats,
    {
        self.stats
    }

    /// Record how long the last whole-document partition took.
    pub fn set_last_parse_us(&mut self, micros: u128)
        ensures
            final(self)@ == (BlockIndexView {
                stats: BlockIndexStats { last_parse_us: micros, ..old(self)@.stats },
                ..old(self)@
            }),
            old(self).defs_ok() ==> final(self).defs_ok(),
    {
        self.stats.last_parse_us = micros;
    }

    /// The definitions with their source lines, in line order.
    pub fn defs(&self) -> (defs: &Vec<(usize, String)>)
        ensures
            def_views(defs@) == self@.defs,
    {
        &self.defs
    }

    pub fn set_full_floor_bytes(&mut self, bytes: usize)
        ensures
            final(self)@ == (BlockIndexView { floor: bytes as int, ..old(self)@ }),
            old(self).defs_ok() ==> final(self).defs_ok(),
    {
        self.full_floor_bytes = bytes;
    }

    /// Whole-document reparse: the ground truth, used for the first build and
    /// as the fallback for every case windowed reparsing cannot prove safe.
    pub fn rebuild_full(&mut self, rope: &Rope, version: u64)
        ensures
            final(self)@ == old(self)@.rebuilt(rope_text(*rope), version),
            final(self).defs_ok(),
            final(self)@.in_order(),
    {
        let (blocks, defs) = parse_blocks(rope);
        self.blocks = blocks;
        self.defs = defs;
        self.rebuild_ref_defs();
        self.version = Some(version);
        self.stats.full_rebuilds = count_up(self.stats.full_rebuilds);
        let lines: usize = rope_len_lines(rope);
        let len: usize = rope_len_bytes(rope);
        proof {
            lemma_breaks_before(rope_bytes(*rope), 0, rope_bytes(*rope).len() as int);
            lemma_blocks_in_order(rope_text(*rope), 0);
        }
    }

    /// Re-derive the flat defs string (+ hash) from the line-keyed registry.
    fn rebuild_ref_defs(&mut self)
        ensures
            final(self)@ == old(self)@,
            final(self).defs_ok(),
    {
        let mut text = String::new();
        let ghost all = def_views(self.defs@);
        let mut i: usize = 0;
        assert(all.take(0) =~= Seq::empty());
        while i < self.defs.len()
            invariant
                i <= self.defs@.len(),
                all == def_views(self.defs@),
                text@ == joined(all.take(i as int)),
            decreases self.defs@.len() - i,
        {
            let ghost before = text@;
            text.append(self.defs[i].1.as_str());
            text.push('\n');
            i += 1;
            assert(all.take(i as int).drop_last() =~= all.take(i - 1));
            assert(all.take(i as int).last() == (self.defs@[i - 1].0, self.defs@[i - 1].1@));
            assert(text@ =~= before + self.defs@[i - 1].1@ + seq!['\n']);
        }
        assert(all.take(i as int) =~= all);
        self.ref_defs_hash = stable_hash(text.as_str().as_bytes());
        self.ref_defs = text;
    }

    /// The number of blocks that begin at or before a line.
    fn begun(&self, line: usize) -> (n: usize)
        ensures
            n == blocks_begun(self@.blocks, line as int),
            n <= self@.blocks.len(),
    {
        let mut n: usize = self.blocks.len();
        assert(self.blocks@.take(n as int) =~= self.blocks@);
        while n > 0 && self.blocks[n - 1].start_line > line
            invariant
                n <= self.blocks@.len(),
                blocks_begun(self.blocks@, line as int) == blocks_begun(
                    self.blocks@.take(n as int),
                    line as int,
                ),
            decreases n,
        {
            assert(self.blocks@.take(n as int).drop_last() =~= self.blocks@.take(n - 1));
            n -= 1;
        }
        assert(self.blocks@.take(n as int).len() == n);
        n
    }

    /// Index of the block containing `line`, if any.
    pub fn block_at_line(&self, line: usize) -> (at: Option<usize>)
        ensures
            match at {
                Some(i) => block_holding(self@.blocks, line as int) == Some(i as int) && i
                    < self@.blocks.len(),
                None => block_holding(self@.blocks, line as int) is None,
            },
    {
        let n: usize = self.begun(line);
        if n > 0 && self.blocks[n - 1].end_line >= line {
            Some(n - 1)
        } else {
            None
        }
    }

    /// The last block entirely above `line`.
    fn last_block_before(&self, line: usize) -> (block: Option<SourceBlock>)
        ensures
            ({
                let n = blocks_begun(self@.blocks, line as int);
                block == if n > 0 && self@.blocks[n - 1].end_line < line {
                    Some(self@.blocks[n - 1])
                } else {
                    None
                }
            }),
    {
        let n: usize = self.begun(line);
        if n > 0 && self.blocks[n - 1].end_line < line {
            Some(self.blocks[n - 1])
        } else {
            None
        }
    }

    /// Sound one-sided seam at or above `dirty_start` (see [`Self::apply_edit`]).
    fn upper_seam(&self, dirty_start: usize, lines: &LineIndex) -> (seam: Option<usize>)
        ensures
            match seam {
                Some(s) => upper_seam_of(self@.blocks, lines@, dirty_start as int) == Some(s as int)
                    && s <= dirty_start,
                None => upper_seam_of(self@.blocks, lines@, dirty_start as int) is None,
            },
    {
        if dirty_start == 0 {
            return Some(0);
        }
        let floor: usize = if dirty_start > SEAM_SEARCH_LINES {
            dirty_start - SEAM_SEARCH_LINES
        } else {
            0
        };
        let mut line: usize = dirty_start;
        while line > floor
            invariant
                floor <= line <= dirty_start,
                seam_above(self@.blocks, lines@, floor as int, dirty_start as int) == seam_above(
                    self@.blocks,
                    lines@,
                    floor as int,
                    line as int,
                ),
                floor == (if dirty_start > SEAM_SEARCH_LINES {
                    dirty_start - SEAM_SEARCH_LINES
                } else {
                    0
                }),
                dirty_start > 0,
            decreases line,
        {
            line -= 1;
            let blank = lines.flags_at(line) & 1 != 0;
            // An owned blank is the interior of a fence, of HTML or of a loose list.
            if blank && self.block_at_line(line).is_none() {
                let open = match self.last_block_before(line) {
                    Some(block) => open_above_gap(block.kind),
                    None => false,
                };
                if !open {
                    return Some(line);
                }
            }
        }
        if floor == 0 {
            Some(0)
        } else {
            None
        }
    }

    /// Incrementally absorb one edit, reparsing only the document from a sound upper seam
    /// on, or falling back to a full reparse whenever safety cannot be proven:
    ///
    /// - the index is not exactly one version behind (missed edit) → mark
    ///   stale and let the caller's backstop rebuild;
    /// - document below the size floor → full (trivially-correct path);
    /// - the edit touched footnote or definition-shaped lines (pre or post) →
    ///   full (both have document-global effects);
    /// - footnote syntax anywhere in the window → full (a definition whose
    ///   reference lives outside the window parses differently in isolation);
    /// - no sound seam within the search cap → full.
    ///
    /// Seam soundness: the first line, or a pre-edit *gap* blank line (so no
    /// open fence/HTML/list interior spans it; those lines are owned) whose
    /// preceding block cannot continue downward across a blank.
    pub fn apply_edit(
        &mut self,
        rope: &Rope,
        start_line: usize,
        update: &LineUpdate,
        lines: &LineIndex,
        new_version: u64,
    )
        requires
            old(self).defs_ok(),
            old(self)@.in_order(),
        ensures
            final(self)@ == old(self)@.edited(
                rope_text(*rope),
                start_line as int,
                update.touched_flags,
                lines@,
                new_version,
            ),
            final(self).defs_ok(),
            final(self)@.in_order(),
    {
        let ghost before = self@;
        let in_step = match self.version {
            Some(v) => v < new_version && new_version - v == 1,
            None => false,
        };
        if !in_step {
            // Out of sequence: degrade to the backstop, never patch.
            self.version = None;
            return;
        }
        if rope_len_bytes(rope) < self.full_floor_bytes || update.touched_flags & 6 != 0 {
            self.rebuild_full(rope, new_version);
            return;
        }
        let ghost b = rope_bytes(*rope);
        let total: usize = rope_len_lines(rope);
        proof {
            lemma_breaks_before(b, 0, b.len() as int);
        }
        let start: usize = if start_line < total {
            start_line
        } else {
            total - 1
        };
        // Blocks reparse whole or not at all: the window starts at or above
        // the start of the pre-edit block containing the first dirty line.
        let dirty: usize = match self.block_at_line(start) {
            Some(i) => self.blocks[i].start_line,
            None => start,
        };
        proof {
            lemma_dirty_line(self@.blocks, start as int);
        }
        match self.upper_seam(dirty, lines) {
            None => {
                self.stats.full_fallbacks = count_up(self.stats.full_fallbacks);
                self.rebuild_full(rope, new_version);
            },
            Some(seam) => {
                if lines.any_flags_in(seam..total, 2) {
                    self.stats.full_fallbacks = count_up(self.stats.full_fallbacks);
                    self.rebuild_full(rope, new_version);
                } else {
                    self.reparse_from(rope, seam, new_version);
                }
            },
        }
    }

    /// Parse everything from line `seam` on again.
    fn reparse_from(&mut self, rope: &Rope, seam: usize, new_version: u64)
        requires
            old(self).defs_ok(),
            old(self)@.in_order(),
            seam < line_count(rope_bytes(*rope)),
        ensures
            final(self)@ == old(self)@.windowed(rope_text(*rope), seam as int, new_version),
            final(self).defs_ok(),
            final(self)@.in_order(),
    {
        let ghost before = self@;
        let ghost text = rope_text(*rope);
        let ghost b = rope_bytes(*rope);
        let total: usize = rope_len_lines(rope);
        let len: usize = rope_len_bytes(rope);
        let seam_byte: usize = rope_line_to_byte(rope, seam);
        proof {
            lemma_windowed_in_order(self@, text, seam as int, new_version);
            encode_utf8_valid_utf8(text);
            lemma_line_start_boundary(b, seam as int);
            lemma_boundary_ends(b);
            lemma_line_start(b, seam as int);
            lemma_text_from(text, seam as int);
            lemma_suffix_lines(b, seam as int, 0);
        }
        // Re-deriving the tail through a temporary rope reuses the exact
        // whole-document machinery (`parse_blocks`), so the windowed result
        // can only differ from a full parse if the seam itself is unsound.
        let tail = source_slice(rope, seam_byte, len);
        let window = rope_from_str(tail.as_str());
        let ghost wtext = rope_text(window);
        assert(wtext == text_from(text, seam as int));
        let window_lines: usize = rope_len_lines(&window);
        let (below, below_defs) = parse_blocks(&window);
        proof {
            lemma_blocks_in_order(wtext, 0);
            lemma_definitions_within(wtext, line_count(encode_utf8(wtext)));
        }
        let mut blocks: Vec<SourceBlock> = Vec::new();
        let ghost keep = |x: SourceBlock| x.end_line < seam;
        let mut i: usize = 0;
        assert(before.blocks.take(0).filter(keep) =~= Seq::empty()) by {
            reveal(Seq::filter);
        }
        while i < self.blocks.len()
            invariant
                i <= self.blocks@.len(),
                self@ == before,
                keep == (|x: SourceBlock| x.end_line < seam),
                blocks@ == before.blocks.take(i as int).filter(keep),
            decreases self.blocks@.len() - i,
        {
            proof {
                reveal(Seq::filter);
                assert(before.blocks.take(i + 1).drop_last() =~= before.blocks.take(i as int));
                assert(before.blocks.take(i + 1).last() == before.blocks[i as int]);
            }
            if self.blocks[i].end_line < seam {
                blocks.push(self.blocks[i]);
            }
            i += 1;
        }
        assert(before.blocks.take(i as int) =~= before.blocks);
        let ghost kept = blocks@;
        let ghost shift = |x: SourceBlock| moved_down(x, seam as int, line_start(b, seam as int));
        let mut j: usize = 0;
        assert(kept + document_blocks(wtext).take(0).map_values(shift) =~= kept);
        while j < below.len()
            invariant
                j <= below@.len(),
                below@ == document_blocks(wtext),
                wtext == text_from(text, seam as int),
                b == encode_utf8(text),
                encode_utf8(wtext) == b.skip(seam_byte as int),
                seam_byte == line_start(b, seam as int),
                seam_byte <= b.len() <= usize::MAX,
                line_count(encode_utf8(wtext)) + seam == total,
                total == line_count(b),
                len == b.len(),
                shift == (|x: SourceBlock|
                    moved_down(x, seam as int, line_start(b, seam as int))),
                forall|i: int|
                    0 <= i < below@.len() ==> {
                        let x = #[trigger] below@[i];
                        &&& 0 <= x.start_line <= x.end_line < line_count(encode_utf8(wtext))
                        &&& x.start_byte == line_start(encode_utf8(wtext), x.start_line as int)
                        &&& x.end_byte == line_start(encode_utf8(wtext), x.end_line + 1)
                    },
                blocks@ == kept + document_blocks(wtext).take(j as int).map_values(shift),
            decreases below@.len() - j,
        {
            let x = below[j];
            proof {
                let w = encode_utf8(wtext);
                assert(below@[j as int] == x);
                lemma_line_start(w, x.start_line as int);
                lemma_line_start(w, x.end_line + 1);
            }
            let y = SourceBlock {
                start_line: x.start_line + seam,
                end_line: x.end_line + seam,
                start_byte: x.start_byte + seam_byte,
                end_byte: x.end_byte + seam_byte,
                content_hash: x.content_hash,
                kind: x.kind,
            };
            blocks.push(y);
            j += 1;
            assert(y == shift(x));
            assert(blocks@ =~= kept + document_blocks(wtext).take(j as int).map_values(shift));
        }
        assert(document_blocks(wtext).take(j as int) =~= document_blocks(wtext));
        let mut defs: Vec<(usize, String)> = Vec::new();
        let ghost above = |d: (usize, Seq<char>)| d.0 < seam;
        let mut k: usize = 0;
        assert(before.defs.take(0).filter(above) =~= Seq::empty()) by {
            reveal(Seq::filter);
        }
        assert(def_views(defs@) =~= Seq::empty());
        while k < self.defs.len()
            invariant
                k <= self.defs@.len(),
                self@ == before,
                before.defs == def_views(self.defs@),
                above == (|d: (usize, Seq<char>)| d.0 < seam),
                def_views(defs@) == before.defs.take(k as int).filter(above),
            decreases self.defs@.len() - k,
        {
            proof {
                reveal(Seq::filter);
                assert(before.defs.take(k + 1).drop_last() =~= before.defs.take(k as int));
                assert(before.defs.take(k + 1).last() == (
                    self.defs@[k as int].0,
                    self.defs@[k as int].1@,
                ));
            }
            let ghost so_far = def_views(defs@);
            if self.defs[k].0 < seam {
                let def = (self.defs[k].0, self.defs[k].1.clone());
                defs.push(def);
                assert(def_views(defs@) =~= so_far.push((
                    self.defs@[k as int].0,
                    self.defs@[k as int].1@,
                )));
            }
            k += 1;
        }
        assert(before.defs.take(k as int) =~= before.defs);
        let ghost kept_defs = def_views(defs@);
        let ghost lower = |d: (usize, Seq<char>)| ((d.0 + seam) as usize, d.1);
        let mut m: usize = 0;
        assert(kept_defs + definitions(wtext).take(0).map_values(lower) =~= kept_defs);
        while m < below_defs.len()
            invariant
                m <= below_defs@.len(),
                def_views(below_defs@) == definitions(wtext),
                line_count(encode_utf8(wtext)) + seam == total,
                lower == (|d: (usize, Seq<char>)| ((d.0 + seam) as usize, d.1)),
                forall|i: int|
                    0 <= i < definitions(wtext).len() ==> (#[trigger] definitions(wtext)[i]).0
                        < line_count(encode_utf8(wtext)),
                def_views(defs@) == kept_defs + definitions(wtext).take(m as int).map_values(
                    lower,
                ),
            decreases below_defs@.len() - m,
        {
            let ghost so_far = def_views(defs@);
            assert(definitions(wtext)[m as int] == (
                below_defs@[m as int].0,
                below_defs@[m as int].1@,
            ));
            let def = (below_defs[m].0 + seam, below_defs[m].1.clone());
            let ghost shown = (def.0, def.1@);
            defs.push(def);
            m += 1;
            assert(def_views(defs@) =~= so_far.push(shown));
            assert(def_views(defs@) =~= kept_defs + definitions(wtext).take(m as int).map_values(
                lower,
            ));
        }
        assert(definitions(wtext).take(m as int) =~= definitions(wtext));
        self.blocks = blocks;
        self.defs = defs;
        self.rebuild_ref_defs();
        self.version = Some(new_version);
        self.stats.windowed_updates = count_up(self.stats.windowed_updates);
        assert(self@ =~= before.windowed(text, seam as int, new_version));
    }
}

proof fn lemma_dirty_line(blocks: Seq<SourceBlock>, line: int)
    ensures
        match block_holding(blocks, line) {
            Some(i) => 0 <= i < blocks.len() && blocks[i].start_line <= line,
            None => true,
        },
    decreases blocks.len(),
{
    if blocks.len() > 0 && blocks.last().start_line > line {
        lemma_blocks_begun(blocks, line);
    }
}

proof fn lemma_blocks_begun(blocks: Seq<SourceBlock>, line: int)
    ensures
        0 <= blocks_begun(blocks, line) <= blocks.len(),
        blocks_begun(blocks, line) > 0 ==> blocks[blocks_begun(blocks, line) - 1].start_line
            <= line,
    decreases blocks.len(),
{
    if blocks.len() > 0 && blocks.last().start_line > line {
        lemma_blocks_begun(blocks.drop_last(), line);
    }
}

proof fn lemma_definitions_within(text: Seq<char>, n: int)
    requires
        0 <= n <= usize::MAX,
    ensures
        forall|i: int|
            0 <= i < definitions_upto(text, n).len() ==> (#[trigger] definitions_upto(text, n)[i]).0
                < n,
    decreases n,
{
    if n > 0 {
        lemma_definitions_within(text, n - 1);
        let less = definitions_upto(text, n - 1);
        let all = definitions_upto(text, n);
        assert forall|i: int| 0 <= i < all.len() implies (#[trigger] all[i]).0 < n by {
            if i < less.len() {
                assert(all[i] == less[i]);
            }
        }
    }
}

} // verus!

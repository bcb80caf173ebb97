//! Rendered blocks, kept from one page to the next.
//!
//! A block is found again by its nodes, the width and the theme that it was rendered with,
//! so that only what an edit changed is rendered again.

use vstd::prelude::*;

use crate::markdown::ast::{copy_nodes, node_views, same_nodes, Node, NodeView};
use crate::markdown::highlight::{CodeHighlighter, CodeLook};
use crate::markdown::preview::{
    block, inner_width, plain_scene, render_block_node, row_views, Row, RowView, Sheet,
};
use crate::markdown::theme::MarkdownTheme;

verus! {

/// Past this many blocks the cache is emptied before the next page.
pub const BLOCK_CACHE_LIMIT: usize = 4096;

/// What a rendered block is found by.
pub struct BlockKey {
    pub nodes: Seq<NodeView>,
    pub width: usize,
    pub theme: MarkdownTheme,
}

impl BlockKey {
    /// The rows of the block.
    pub open spec fn rows(self, look: CodeLook) -> Seq<RowView> {
        block(
            plain_scene(self.theme, look),
            self.nodes,
            0,
            self.nodes.len() as int,
            inner_width(self.width, 0),
            0,
            Sheet { rows: Seq::empty(), at: None },
        ).rows
    }
}

/// What a [`BlockCache`] holds, and how many blocks it has rendered.
#[verifier::ext_equal]
pub struct BlockMemory {
    pub held: Seq<BlockKey>,
    pub renders: u64,
}

impl BlockMemory {
    /// Before the next page.
    pub open spec fn turned(self) -> BlockMemory {
        if self.held.len() > BLOCK_CACHE_LIMIT {
            BlockMemory { held: Seq::empty(), ..self }
        } else {
            self
        }
    }

    /// With a block asked for: rendered only where it is not held.
    pub open spec fn with_block(self, key: BlockKey) -> BlockMemory {
        if self.held.contains(key) {
            self
        } else {
            BlockMemory { held: self.held.push(key), renders: self.renders.saturating_add(1) }
        }
    }
}

/// A rendered block.
struct RenderedBlock {
    nodes: Vec<Node>,
    width: usize,
    theme: MarkdownTheme,
    rows: Vec<Row>,
}

impl RenderedBlock {
    spec fn key(&self) -> BlockKey {
        BlockKey { nodes: node_views(self.nodes@), width: self.width, theme: self.theme }
    }
}

/// Rendered blocks.
pub struct BlockCache {
    blocks: Vec<RenderedBlock>,
    renders: u64,
}

impl View for BlockCache {
    type V = BlockMemory;

    closed spec fn view(&self) -> BlockMemory {
        BlockMemory {
            held: self.blocks@.map_values(|b: RenderedBlock| b.key()),
            renders: self.renders,
        }
    }
}

impl BlockCache {
    /// Whether every block is what rendering it again would give.
    pub closed spec fn wf(&self, look: CodeLook) -> bool {
        forall|i: int|
            0 <= i < self.blocks@.len() ==> row_views((#[trigger] self.blocks@[i]).rows@)
                == self.blocks@[i].key().rows(look)
    }

    /// The rows of a held block.
    pub closed spec fn rows_of(&self, k: int) -> Seq<RowView> {
        row_views(self.blocks@[k].rows@)
    }

    /// A cache of nothing.
    pub fn new() -> (cache: Self)
        ensures
            cache@ == (BlockMemory { held: Seq::empty(), renders: 0 }),
            forall|look: CodeLook| cache.wf(look),
    {
        let cache = BlockCache { blocks: Vec::new(), renders: 0 };
        assert(cache@.held =~= Seq::empty());
        cache
    }

    /// How many blocks were rendered.
    pub fn renders(&self) -> (n: u64)
        ensures
            n == self@.renders,
    {
        self.renders
    }

    /// Before the next page.
    pub(crate) fn turn(&mut self, look: Ghost<CodeLook>)
        requires
            old(self).wf(look@),
        ensures
            final(self).wf(look@),
            final(self)@ == old(self)@.turned(),
    {
        if self.blocks.len() > BLOCK_CACHE_LIMIT {
            self.blocks = Vec::new();
            assert(self@.held =~= Seq::empty());
        }
    }

    /// Where the block at node `i` is held, if it is.
    fn find(&self, nodes: &Vec<Node>, i: usize, end: usize, width: usize, theme: &MarkdownTheme) -> (k:
        Option<usize>)
        requires
            i < end <= nodes@.len(),
        ensures
            ({
                let key = BlockKey {
                    nodes: node_views(nodes@).subrange(i as int, end as int),
                    width,
                    theme: *theme,
                };
                match k {
                    Some(k) => k < self@.held.len() && self@.held[k as int] == key,
                    None => !self@.held.contains(key),
                }
            }),
    {
        let ghost key = BlockKey {
            nodes: node_views(nodes@).subrange(i as int, end as int),
            width,
            theme: *theme,
        };
        let mut k: usize = 0;
        while k < self.blocks.len()
            invariant
                i < end <= nodes@.len(),
                k <= self.blocks@.len(),
                key == (BlockKey {
                    nodes: node_views(nodes@).subrange(i as int, end as int),
                    width,
                    theme: *theme,
                }),
                forall|j: int| 0 <= j < k ==> (#[trigger] self@.held[j]) != key,
            decreases self.blocks@.len() - k,
        {
            let b = &self.blocks[k];
            assert(self@.held[k as int] == b.key());
            if b.width == width && same_nodes(&b.nodes, nodes, i, end) && b.theme == *theme {
                return Some(k);
            }
            k += 1;
        }
        None
    }

    /// The place of the block at node `i`, rendered where it is not held.
    #[verifier::spinoff_prover]
    pub fn place(
        &mut self,
        nodes: &Vec<Node>,
        i: usize,
        end: usize,
        width: usize,
        theme: &MarkdownTheme,
        highlighter: &mut CodeHighlighter,
    ) -> (k: usize)
        requires
            i < end <= nodes@.len(),
            old(highlighter).wf(),
            old(self).wf(old(highlighter).look()),
        ensures
            final(highlighter).wf(),
            final(highlighter).look() == old(highlighter).look(),
            final(self).wf(old(highlighter).look()),
            ({
                let key = BlockKey {
                    nodes: node_views(nodes@).subrange(i as int, end as int),
                    width,
                    theme: *theme,
                };
                &&& final(self)@ == old(self)@.with_block(key)
                &&& k < final(self)@.held.len()
                &&& final(self).rows_of(k as int) == key.rows(old(highlighter).look())
            }),
    {
        let ghost look = highlighter.look();
        let ghost key = BlockKey {
            nodes: node_views(nodes@).subrange(i as int, end as int),
            width,
            theme: *theme,
        };
        if let Some(k) = self.find(nodes, i, end, width, theme) {
            assert(self@.held[k as int] == self.blocks@[k as int].key());
            return k;
        }
        let own = copy_nodes(nodes, i, end);
        let rows = render_block_node(&own, 0, own.len(), width, theme, highlighter);
        let ghost before = *self;
        let fresh = RenderedBlock { nodes: own, width, theme: *theme, rows };
        assert(fresh.key() == key);
        assert(row_views(fresh.rows@) == key.rows(look));
        self.blocks.push(fresh);
        self.renders = self.renders.saturating_add(1);
        proof {
            assert(self@.held =~= before@.held.push(key));
            assert forall|j: int| 0 <= j < self.blocks@.len() implies row_views(
                (#[trigger] self.blocks@[j]).rows@,
            ) == self.blocks@[j].key().rows(look) by {
                if j < before.blocks@.len() {
                    assert(self.blocks@[j] == before.blocks@[j]);
                }
            }
        }
        self.blocks.len() - 1
    }

    /// The rows of a held block.
    pub fn rows(&self, k: usize) -> (rows: &Vec<Row>)
        requires
            k < self@.held.len(),
        ensures
            row_views(rows@) == self.rows_of(k as int),
    {
        &self.blocks[k].rows
    }
}

} // verus!

//! Documents under edits: the layout, the line index and the block index.

use marqi::block_index::{parse_blocks, BlockIndex, BlockKind};
use marqi::layout::{Layout, CHUNK};
use marqi::line_index::{LineIndex, BLANK, DEF_COLON, FOOTNOTE};
use marqi::row_cache::{RowCache, ROW_CACHE_LINES};
use ropey::Rope;

/// xorshift64*: deterministic and seedable.
struct XorShift(u64);

impl XorShift {
    fn new(seed: u64) -> Self {
        Self(seed.max(1))
    }

    fn next_u64(&mut self) -> u64 {
        let mut x = self.0;
        x ^= x << 13;
        x ^= x >> 7;
        x ^= x << 17;
        self.0 = x;
        x.wrapping_mul(0x2545_F491_4F6C_DD1D)
    }

    fn below(&mut self, n: usize) -> usize {
        (self.next_u64() % n as u64) as usize
    }

    fn chance(&mut self, num: u64, den: u64) -> bool {
        self.next_u64() % den < num
    }

    fn pick<'a>(&mut self, items: &[&'a str]) -> &'a str {
        items[self.below(items.len())]
    }
}

fn ascii(lines: usize, line_len: usize) -> String {
    let mut out = String::with_capacity(lines * (line_len + 1));
    for i in 0..lines {
        for j in 0..line_len {
            out.push(char::from(b'a' + ((i + j) % 26) as u8));
        }
        out.push('\n');
    }
    out
}

fn cjk_emoji(lines: usize) -> String {
    let templates: [&str; 5] = [
        "中文加粗测试一行 with ascii tail",
        "日本語の斜体テキスト",
        "family 👨\u{200d}👩\u{200d}👧\u{200d}👦 and thumbs 👍🏽 emoji",
        "combining: cafe\u{301} re\u{301}sume\u{301}",
        "mixed 中a文b字c with 🎉 narrow gaps",
    ];
    let mut out = String::new();
    for i in 0..lines {
        out.push_str(templates[i % templates.len()]);
        out.push('\n');
    }
    out
}

fn tabs_and_wrap(lines: usize) -> String {
    let mut out = String::new();
    for i in 0..lines {
        match i % 4 {
            0 => out.push_str("\tindented with a leading tab\n"),
            1 => out.push_str("col\ta\tb\tc\ttab separated cells\n"),
            2 => {
                out.push_str(&"wrap ".repeat(40));
                out.push('\n');
            }
            _ => out.push_str("short line\n"),
        }
    }
    out
}

fn many_blocks(n: usize) -> String {
    let mut out = String::new();
    for i in 0..n {
        match i % 12 {
            0 => out.push_str(&format!("# Heading {i}\n")),
            1 => out.push_str(&format!(
                "Paragraph {i} with **bold**, *italic*, `code`, and a [ref link][r{}].\n",
                i % 3
            )),
            2 => out.push_str("- bullet one\n- bullet two\n  - nested\n"),
            3 => out.push_str(&format!("1. first {i}\n2. second\n3. third\n")),
            4 => out.push_str("- [ ] open task\n- [x] done task\n"),
            5 => out.push_str("```rust\nfn main() {\n    println!(\"hi\");\n}\n```\n"),
            6 => out.push_str("> quoted text\n> > nested quote\n"),
            7 => out.push_str("| a | b |\n| --- | ---: |\n| 1 | 2 |\n"),
            8 => out.push_str(&format!("[r{}]: https://example.com/{i}\n", i % 3)),
            9 => out.push_str(&format!("Setext heading {i}\n===\n")),
            10 => out.push_str(&format!(
                "Footnote use[^f{i}].\n\n[^f{i}]: its definition\n"
            )),
            _ => out.push_str("---\n"),
        }
        out.push('\n');
    }
    out
}

fn giant_block(bytes: usize) -> String {
    let mut out = String::with_capacity(bytes + 64);
    let mut word = 0usize;
    while out.len() < bytes {
        out.push_str("lorem ipsum dolor sit amet ");
        word += 1;
        if word % 12 == 0 {
            out.push('\n');
        }
    }
    out.push('\n');
    out
}

fn random_doc(rng: &mut XorShift, lines: usize) -> String {
    let fragments: [&str; 10] = [
        "plain paragraph text with some words\n",
        "# a heading\n",
        "- list item\n",
        "1. numbered item\n",
        "> quote line\n",
        "```\ncode body\n```\n",
        "| a | b |\n| - | - |\n",
        "[d]: https://example.org\n",
        "\n",
        "text with `inline` and **strong**\n",
    ];
    let mut out = String::new();
    while out.lines().count() < lines {
        out.push_str(rng.pick(&fragments));
        if rng.chance(1, 3) {
            out.push('\n');
        }
    }
    out
}

fn random_edit(rng: &mut XorShift, rope: &Rope) -> (usize, usize, String) {
    let pieces: [&str; 14] = [
        "x", "words ", "`", "~", "#", "-", "|", ">", "=", "[", "]:", "\n", "中", "👍",
    ];
    let len_chars = rope.len_chars();
    let a = rng.below(len_chars + 1);
    let start = rope.char_to_byte(a);
    let (end, text) = if rng.chance(1, 2) {
        (start, build_insert(rng, &pieces))
    } else {
        let b = (a + rng.below(64).max(1)).min(len_chars);
        let end = rope.char_to_byte(b);
        if rng.chance(1, 2) {
            (end, String::new())
        } else {
            (end, build_insert(rng, &pieces))
        }
    };
    (start, end, text)
}

fn build_insert(rng: &mut XorShift, pieces: &[&str]) -> String {
    let mut text = String::new();
    for _ in 0..rng.below(5) + 1 {
        text.push_str(rng.pick(pieces));
    }
    text
}

#[test]
fn generators_are_deterministic_and_well_formed() {
    let mut a = XorShift::new(7);
    let mut b = XorShift::new(7);
    assert_eq!(
        (a.next_u64(), a.next_u64()),
        (b.next_u64(), b.next_u64()),
        "same seed, same sequence"
    );

    assert_eq!(ascii(10, 20).lines().count(), 10);
    assert!(ascii(2, 8).lines().all(|l| l.len() == 8));
    assert_eq!(cjk_emoji(7).lines().count(), 7);
    assert!(tabs_and_wrap(8).contains('\t'));
    let blocks = many_blocks(24);
    assert!(
        blocks.contains("```rust")
            && blocks.contains("]: https://example.com")
            && blocks.contains("[^f")
    );
    assert!(giant_block(10_000).len() >= 10_000);
    assert!(!giant_block(1_000).contains("\n\n"), "stays a single block");

    let mut rng = XorShift::new(42);
    assert!(random_doc(&mut rng, 50).lines().count() >= 50);
    let rope = Rope::from_str(&cjk_emoji(20));
    for _ in 0..500 {
        let (start, end, text) = random_edit(&mut rng, &rope);
        assert!(start <= end && end <= rope.len_bytes());
        let mut clone = rope.clone();
        clone.remove(clone.byte_to_char(start)..clone.byte_to_char(end));
        clone.insert(clone.byte_to_char(start), &text);
    }
}

#[test]
fn maps_cjk_and_emoji_columns() {
    let rope = Rope::from_str("a中b");
    let layout = Layout::build(&rope, 80, 4);
    assert_eq!(layout.len(), 1);

    assert_eq!(layout.byte_to_pos(0), (0, 0));
    assert_eq!(layout.byte_to_pos("a".len()), (0, 1));
    assert_eq!(layout.byte_to_pos("a中".len()), (0, 3));
    assert_eq!(layout.byte_to_pos("a中b".len()), (0, 4));

    assert_eq!(layout.pos_to_byte(0, 2), "a".len());
    assert_eq!(layout.pos_to_byte(0, 1), "a".len());
}

#[test]
fn long_grapheme_clusters_keep_their_full_length() {
    let text = format!("a{}", "\u{20dd}".repeat(40_000));
    let rope = Rope::from_str(&text);
    let layout = Layout::build(&rope, 80, 4);
    assert_eq!(layout.pos_to_byte(0, 5), text.len());
}

#[test]
fn tabs_expand_to_stops() {
    let rope = Rope::from_str("\tx");
    let layout = Layout::build(&rope, 80, 4);
    assert_eq!(layout.byte_to_pos("\t".len()), (0, 4));
    let rows = layout.line_rows(0);
    let cell = &rows[0].cells[0];
    assert_eq!((cell.byte, cell.len, cell.width, cell.col), (0, 1, 4, 0));
}

#[test]
fn soft_wraps_long_lines() {
    let rope = Rope::from_str("abcdef");
    let layout = Layout::build(&rope, 3, 4);
    assert_eq!(layout.len(), 2);
    assert!(layout.line_rows(0)[0].soft_wrapped);
    assert_eq!(layout.byte_to_pos(3), (1, 0));
    assert_eq!(layout.pos_to_byte(1, 0), 3);
}

#[test]
fn blank_and_trailing_lines_are_addressable() {
    let rope = Rope::from_str("a\n\nb\n");
    let layout = Layout::build(&rope, 80, 4);
    assert_eq!(layout.len(), 4);
    assert_eq!(layout.byte_to_pos(2), (1, 0));
    assert_eq!(layout.byte_to_pos(5), (3, 0));
}

#[test]
fn incremental_line_update_matches_fresh_layout() {
    let mut rope = Rope::from_str("abc\ndef\n");
    let mut layout = Layout::build(&rope, 80, 4);
    rope.insert(1, "X");
    layout.update_after_edit(&rope, 80, 4, 0, 1, 1);
    let fresh = Layout::build(&rope, 80, 4);

    assert_eq!(layout.len(), fresh.len());
    assert_eq!(layout.byte_to_pos(2), fresh.byte_to_pos(2));
    assert_eq!(
        layout.byte_to_pos(rope.len_bytes()),
        fresh.byte_to_pos(rope.len_bytes())
    );
    assert_eq!(layout.pos_to_byte(1, 1), fresh.pos_to_byte(1, 1));
}

#[test]
fn counting_matches_materialization_across_shapes() {
    let docs = [
        ascii(CHUNK + 50, 12),
        cjk_emoji(40),
        tabs_and_wrap(40),
        giant_block(4 * 1024),
        "interior\rreturn and trailing run\r\r\n".to_string(),
        String::new(),
    ];
    for (i, doc) in docs.iter().enumerate() {
        for width in [1, 7, 80] {
            let rope = Rope::from_str(doc);
            let layout = Layout::build(&rope, width, 4);
            let mut expected_first = 0usize;
            for line in 0..rope.len_lines() {
                assert_eq!(
                    layout.first_row_of_line(line),
                    expected_first,
                    "doc {i} width {width} line {line}"
                );
                expected_first += layout.line_rows(line).len();
            }
            assert_eq!(layout.first_row_of_line(rope.len_lines()), layout.len());
            assert_eq!(layout.len(), expected_first, "doc {i} width {width}");
        }
    }
}

#[test]
fn build_materializes_nothing_until_queried() {
    let rope = Rope::from_str(&ascii(5_000, 60));
    let layout = Layout::build(&rope, 40, 4);
    let mut cache = RowCache::new();
    assert_eq!(
        cache.stats().cells_built,
        0,
        "building the layout is a counting pass only"
    );
    let line = rope.byte_to_line(rope.len_bytes() / 2);
    let _ = cache.line_rows(&layout, line);
    let stats = cache.stats();
    assert!(stats.cells_built > 0, "queries materialize on demand");
    assert!(
        stats.rows_live <= 2,
        "one query materializes one line, got {} rows",
        stats.rows_live
    );
}

#[test]
fn row_cache_stays_bounded_and_correct_after_eviction() {
    let rope = Rope::from_str(&ascii(3 * ROW_CACHE_LINES, 10));
    let layout = Layout::build(&rope, 40, 4);
    let mut cache = RowCache::new();
    for line in 0..rope.len_lines() {
        let _ = cache.line_rows(&layout, line);
    }
    assert!(
        cache.stats().rows_live <= ROW_CACHE_LINES as u64 + 1,
        "cache stays bounded, got {}",
        cache.stats().rows_live
    );
    assert_eq!(layout.byte_to_pos(0), (0, 0));
    let byte = rope.line_to_byte(7) + 3;
    assert_eq!(layout.byte_to_pos(byte), (7, 3));
    assert_eq!(layout.pos_to_byte(7, 3), byte);
    assert_eq!(cache.line_rows(&layout, 7)[0].cells[3].byte, 3);
}

#[test]
fn randomized_incremental_updates_match_fresh_builds() {
    for seed in [0xA11CE, 0xB0B5EED] {
        let mut rng = XorShift::new(seed);
        let mut rope = Rope::from_str(&random_doc(&mut rng, 60));
        let width = 7 + rng.below(40);
        let mut layout = Layout::build(&rope, width, 4);

        for step in 0..50 {
            let (start, end, text) = random_edit(&mut rng, &rope);
            let start_line = rope.byte_to_line(start);
            let old = rope.byte_to_line(end) - start_line + 1;
            rope.remove(rope.byte_to_char(start)..rope.byte_to_char(end));
            rope.insert(rope.byte_to_char(start), &text);
            let inserted_end = (start + text.len()).min(rope.len_bytes());
            let new = rope.byte_to_line(inserted_end) - start_line + 1;
            layout.update_after_edit(&rope, width, 4, start_line, old, new);

            let fresh = Layout::build(&rope, width, 4);
            let context = format!("seed {seed:#x} step {step} width {width}");
            assert_eq!(layout.len(), fresh.len(), "len ({context})");
            for _ in 0..16 {
                let byte = rng.below(rope.len_bytes() + 1);
                assert_eq!(
                    layout.byte_to_pos(byte),
                    fresh.byte_to_pos(byte),
                    "byte_to_pos({byte}) ({context})"
                );
            }
            for _ in 0..16 {
                let row = rng.below(fresh.len());
                let col = rng.below(width + 2) as u16;
                assert_eq!(
                    layout.pos_to_byte(row, col),
                    fresh.pos_to_byte(row, col),
                    "pos_to_byte({row},{col}) ({context})"
                );
            }
            for _ in 0..8 {
                let line = rng.below(rope.len_lines() + 1);
                assert_eq!(
                    layout.first_row_of_line(line),
                    fresh.first_row_of_line(line),
                    "first_row_of_line({line}) ({context})"
                );
            }
            let line = rng.below(rope.len_lines());
            let (ours, theirs) = (layout.line_rows(line), fresh.line_rows(line));
            assert_eq!(ours.len(), theirs.len(), "line {line} rows ({context})");
            for (a, b) in ours.iter().zip(theirs.iter()) {
                assert_eq!(
                    (a.line, a.byte_start, a.byte_end, a.width, a.soft_wrapped),
                    (b.line, b.byte_start, b.byte_end, b.width, b.soft_wrapped),
                    "row shape, line {line} ({context})"
                );
                assert_eq!(a.cells.len(), b.cells.len(), "cells, line {line}");
                for (ca, cb) in a.cells.iter().zip(&b.cells) {
                    assert_eq!(
                        (ca.byte, ca.len, ca.width, ca.col),
                        (cb.byte, cb.len, cb.width, cb.col),
                        "cell, line {line} ({context})"
                    );
                }
            }
        }
    }
}

fn same_lines(index: &LineIndex, fresh: &LineIndex, lines: usize, context: &str) {
    for line in 0..lines {
        assert_eq!(
            index.fence_at(line),
            fresh.fence_at(line),
            "{context}: fence of line {line}"
        );
        assert_eq!(
            index.flags_at(line),
            fresh.flags_at(line),
            "{context}: flags of line {line}"
        );
    }
}

#[test]
fn tracks_fences_and_ripples_on_edits() {
    let mut rope = Rope::from_str("a\n```\ncode\n```\nb\n");
    let mut index = LineIndex::build(&rope);
    assert!(
        !index.fence_at(1).is_inside(),
        "opening line starts outside"
    );
    assert!(index.fence_at(2).is_inside(), "interior is inside");
    assert!(index.fence_at(3).is_inside(), "closer line starts inside");
    assert!(!index.fence_at(4).is_inside(), "after the close");

    let fence_start = rope.line_to_byte(1);
    rope.remove(rope.byte_to_char(fence_start)..rope.byte_to_char(fence_start + 1));
    let update = index.apply_edit(&rope, 1, 1, 1);
    let fresh = LineIndex::build(&rope);
    same_lines(&index, &fresh, rope.len_lines(), "ripple matches a fresh build");
    assert!(!index.fence_at(2).is_inside(), "fence no longer opens");
    assert_eq!(
        update.resynced_at,
        rope.len_lines(),
        "breaking an opening fence ripples to the end"
    );
}

#[test]
fn flags_classify_blank_footnote_and_definition_lines() {
    let rope = Rope::from_str(
        "plain\n\n[d]: /url\nuses a note[^n]\n[^n]: def body\n  [x]: indented def\nnot [a]: mid-line\n",
    );
    let index = LineIndex::build(&rope);
    assert_eq!(index.flags_at(0), 0);
    assert_eq!(index.flags_at(1), BLANK);
    assert_eq!(index.flags_at(2), DEF_COLON);
    assert_eq!(index.flags_at(3), FOOTNOTE);
    assert_eq!(index.flags_at(4), FOOTNOTE | DEF_COLON);
    assert_eq!(index.flags_at(5), DEF_COLON, "indented definitions count");
    assert_eq!(
        index.flags_at(6),
        0,
        "a ]: with a non-[ line start is not definition-shaped"
    );
    assert!(index.any_flags_in(0..rope.len_lines(), FOOTNOTE));
    assert!(!index.any_flags_in(0..2, FOOTNOTE | DEF_COLON));
}

#[test]
fn touched_flags_report_pre_and_post_edit_lines() {
    let mut rope = Rope::from_str("para\n\n[d]: /url\n\ntail\n");
    let mut index = LineIndex::build(&rope);
    let start = rope.line_to_byte(2);
    let end = rope.line_to_byte(3);
    rope.remove(rope.byte_to_char(start)..rope.byte_to_char(end));
    let update = index.apply_edit(&rope, 2, 2, 1);
    assert!(
        update.touched_flags & DEF_COLON != 0,
        "pre-edit flags survive into touched_flags"
    );

    let mut rope = Rope::from_str("plain text\n");
    let mut index = LineIndex::build(&rope);
    rope.insert(rope.byte_to_char(5), "[^x]");
    let update = index.apply_edit(&rope, 0, 1, 1);
    assert!(update.touched_flags & FOOTNOTE != 0);
}

#[test]
fn randomized_incremental_index_matches_fresh_builds() {
    for seed in [0xF00D, 0xFE2CE5] {
        let mut rng = XorShift::new(seed);
        let mut rope = Rope::from_str(&random_doc(&mut rng, 80));
        let mut index = LineIndex::build(&rope);
        for step in 0..120 {
            let (start, end, text) = random_edit(&mut rng, &rope);
            let start_line = rope.byte_to_line(start);
            let old = rope.byte_to_line(end) - start_line + 1;
            rope.remove(rope.byte_to_char(start)..rope.byte_to_char(end));
            rope.insert(rope.byte_to_char(start), &text);
            let inserted_end = (start + text.len()).min(rope.len_bytes());
            let new = rope.byte_to_line(inserted_end) - start_line + 1;
            index.apply_edit(&rope, start_line, old, new);

            let fresh = LineIndex::build(&rope);
            same_lines(
                &index,
                &fresh,
                rope.len_lines(),
                &format!("seed {seed:#x} step {step}"),
            );
        }
    }
}

/// A document with its indexes, brought up to date after every edit.
struct Harness {
    rope: Rope,
    lines: LineIndex,
    index: BlockIndex,
    version: u64,
}

impl Harness {
    fn new(src: &str) -> Self {
        let rope = Rope::from_str(src);
        let lines = LineIndex::build(&rope);
        let mut index = BlockIndex::new();
        index.set_full_floor_bytes(0);
        index.rebuild_full(&rope, 0);
        Self {
            rope,
            lines,
            index,
            version: 0,
        }
    }

    fn splice(&mut self, start: usize, end: usize, text: &str) {
        let start_line = self.rope.byte_to_line(start);
        let end_line = self.rope.byte_to_line(end);
        let old = end_line - start_line + 1;
        self.rope
            .remove(self.rope.byte_to_char(start)..self.rope.byte_to_char(end));
        self.rope.insert(self.rope.byte_to_char(start), text);
        let inserted_end = (start + text.len()).min(self.rope.len_bytes());
        let new = self.rope.byte_to_line(inserted_end) - start_line + 1;
        self.version += 1;
        let update = self.lines.apply_edit(&self.rope, start_line, old, new);
        self.index
            .apply_edit(&self.rope, start_line, &update, &self.lines, self.version);
    }

    fn assert_matches_oracle(&self, context: &str) {
        assert!(
            self.index.is_current(self.version),
            "index fell out of sequence ({context})"
        );
        let mut oracle = BlockIndex::new();
        oracle.rebuild_full(&self.rope, self.version);
        assert_eq!(
            self.index.blocks(),
            oracle.blocks(),
            "blocks ({context})\ndoc:\n{}",
            self.rope
        );
        assert_eq!(
            self.index.defs(),
            oracle.defs(),
            "definition registry ({context})"
        );
        assert_eq!(
            self.index.ref_defs(),
            oracle.ref_defs(),
            "flat defs ({context})"
        );
        for (i, block) in self.index.blocks().iter().enumerate() {
            assert_eq!(
                self.index.block_at_line(block.start_line),
                Some(i),
                "start lookup ({context})"
            );
            assert_eq!(
                self.index.block_at_line(block.end_line),
                Some(i),
                "end lookup ({context})"
            );
        }
    }
}

fn engagement_doc(rng: &mut XorShift, blocks: usize) -> String {
    let fragments: [&str; 8] = [
        "# Section heading\n",
        "A paragraph of plain prose with **bold** and `code`.\nIt continues on a second line.\n",
        "- alpha\n- beta\n- gamma\n",
        "1. first\n2. second\n",
        "```rust\nlet x = 1;\nlet y = x * 2;\n```\n",
        "> a quoted thought\n> across two lines\n",
        "| a | b |\n| - | - |\n| 1 | 2 |\n",
        "---\n",
    ];
    let mut out = String::new();
    for _ in 0..blocks {
        out.push_str(rng.pick(&fragments));
        out.push('\n');
    }
    out
}

/// A weighted random edit, biased toward markdown-significant mutations.
fn random_op(rng: &mut XorShift, rope: &Rope) -> (usize, usize, String) {
    match rng.below(10) {
        0..=5 => random_edit(rng, rope),
        6 => {
            let pieces: [&str; 8] = [
                "# ", "- ", "> ", "```\n", "~~~\n", "    ", "===\n", "| - |\n",
            ];
            let line = rng.below(rope.len_lines());
            let at = rope.line_to_byte(line);
            (at, at, rng.pick(&pieces).to_string())
        }
        7 => {
            let line = rng.below(rope.len_lines());
            let start = rope.line_to_byte(line);
            let end = if line + 1 < rope.len_lines() {
                rope.line_to_byte(line + 1)
            } else {
                rope.len_bytes()
            };
            (start, end, String::new())
        }
        8 => {
            let at = rope.char_to_byte(rng.below(rope.len_chars() + 1));
            (at, at, "\n\n".to_string())
        }
        _ => {
            let from = rng.below(rope.len_lines());
            for line in from..rope.len_lines() {
                if rope.line(line).chars().all(char::is_whitespace)
                    && rope.line(line).len_bytes() > 0
                {
                    let start = rope.line_to_byte(line);
                    let end = if line + 1 < rope.len_lines() {
                        rope.line_to_byte(line + 1)
                    } else {
                        rope.len_bytes()
                    };
                    return (start, end, String::new());
                }
            }
            random_edit(rng, rope)
        }
    }
}

#[test]
fn windowed_reparse_matches_the_oracle_after_every_edit() {
    for seed in [0x5EA7_u64, 42] {
        let mut rng = XorShift::new(seed);
        let src = engagement_doc(&mut rng, 40);
        let mut h = Harness::new(&src);
        let ops = 150;
        for step in 0..ops {
            let (start, end, text) = random_op(&mut rng, &h.rope);
            h.splice(start, end, &text);
            h.assert_matches_oracle(&format!("engagement seed {seed:#x} step {step}"));
        }
        let stats = h.index.stats();
        println!(
            "engagement seed {seed:#x}: {} windowed, {} full ({} fallbacks) over {ops} ops",
            stats.windowed_updates, stats.full_rebuilds, stats.full_fallbacks
        );
        assert!(
            stats.windowed_updates * 2 >= ops as usize,
            "windowed path must engage on definition-free documents: \
             {} of {ops} ops (full {}, fallbacks {})",
            stats.windowed_updates,
            stats.full_rebuilds,
            stats.full_fallbacks
        );
    }
}

#[test]
fn hazard_documents_stay_correct_under_random_edits() {
    let docs = [
        many_blocks(30),
        cjk_emoji(40),
        "para one\r\nsecond line\r\n\r\n- item\r\n".to_string(),
        "open fence below\n\n```\nnever closed\nstill code\n".to_string(),
        "Setext title\n===\n\nbody\n\nAnother\n---\n".to_string(),
    ];
    for (doc_idx, src) in docs.iter().enumerate() {
        let mut rng = XorShift::new(0xD0C_0000 + doc_idx as u64);
        let mut h = Harness::new(src);
        for step in 0..80 {
            let (start, end, text) = random_op(&mut rng, &h.rope);
            h.splice(start, end, &text);
            h.assert_matches_oracle(&format!("hazard doc {doc_idx} step {step}"));
        }
    }
}

#[test]
fn fence_typed_character_by_character_stays_equivalent() {
    let mut h =
        Harness::new("para above\n\ntarget line\n\npara below\n\n# heading\n\nlast paragraph\n");
    let at = h.rope.line_to_byte(2);
    for i in 0..4 {
        h.splice(at + i, at + i, "`");
        h.assert_matches_oracle(&format!("backtick {}", i + 1));
    }
    for i in (0..4).rev() {
        h.splice(at + i, at + i + 1, "");
        h.assert_matches_oracle(&format!("removed backtick {i}"));
    }
}

#[test]
fn list_continuation_across_blanks_never_splits_at_the_gap() {
    let mut h = Harness::new("intro\n\n- item one\n- item two\n\ntail paragraph\n");
    let tail = h.rope.line_to_byte(5);
    h.splice(tail, tail, "    ");
    h.assert_matches_oracle("indented tail under a list");
    let blocks = h.index.blocks();
    assert!(
        blocks
            .iter()
            .any(|b| b.kind == BlockKind::List && b.end_line >= 5),
        "the indented tail joins the list block: {blocks:?}"
    );
}

#[test]
fn setext_and_table_edits_stay_equivalent() {
    let mut h = Harness::new("Title\n===\n\nbody text\n\n| a | b |\n| - | - |\n| 1 | 2 |\n");
    let underline = h.rope.line_to_byte(1);
    h.splice(underline, underline, "x");
    h.assert_matches_oracle("broken setext underline");
    let delim = h.rope.line_to_byte(6);
    h.splice(delim, delim + 1, "x");
    h.assert_matches_oracle("broken table delimiter");
}

#[test]
fn definition_and_footnote_edits_take_the_full_path_and_stay_correct() {
    let mut h = Harness::new(
        "Use [a][r] and a note[^n].\n\n[r]: https://example.com\n\n[^n]: note body\n\ntail\n",
    );
    let full_before = h.index.stats().full_rebuilds;
    let def_line = h.rope.line_to_byte(2);
    h.splice(def_line + 4, def_line + 4, "x");
    h.assert_matches_oracle("edited definition");
    assert!(
        h.index.stats().full_rebuilds > full_before,
        "definition edits must take the full path"
    );
    let tail = h.rope.line_to_byte(6);
    for (i, ch) in "[^n]".char_indices() {
        h.splice(tail + i, tail + i, &ch.to_string());
        h.assert_matches_oracle(&format!("typing footnote ref byte {i}"));
    }
}

#[test]
fn registry_collects_exactly_the_gap_definitions() {
    let src = "\
para one with [a][r1] and [b][r2].

[r1]: https://one.example

a paragraph
[looks]: like-a-def but this lazy continuation keeps it owned
so it is paragraph text, not a definition

[r2]: https://two.example

[^note]: footnote definitions are skipped
";
    let rope = Rope::from_str(src);
    let (blocks, defs) = parse_blocks(&rope);
    assert!(!blocks.is_empty());
    let collected: Vec<&str> = defs.iter().map(|(_, text)| text.as_str()).collect();
    assert_eq!(
        collected,
        ["[r1]: https://one.example", "[r2]: https://two.example"],
        "exactly the pure gap definitions, in line order"
    );

    let mut index = BlockIndex::new();
    index.rebuild_full(&rope, 0);
    assert!(index.is_current(0));
    assert_eq!(
        index.ref_defs(),
        "[r1]: https://one.example\n[r2]: https://two.example\n"
    );
    assert_eq!(index.blocks().len(), blocks.len());
}

#[test]
fn block_kinds_cover_the_seam_relevant_constructs() {
    let src = "\
# heading

paragraph

    indented code

- list

```
fenced
```

<div>html</div>

| a |
| - |

> quote

---

[^n]: def (referenced[^n] above? no — here)
";
    let rope = Rope::from_str(src);
    let (blocks, _) = parse_blocks(&rope);
    let kinds: Vec<BlockKind> = blocks.iter().map(|b| b.kind).collect();
    assert_eq!(
        kinds,
        [
            BlockKind::Heading,
            BlockKind::Paragraph,
            BlockKind::IndentedCode,
            BlockKind::List,
            BlockKind::FencedCode,
            BlockKind::Html,
            BlockKind::Table,
            BlockKind::Quote,
            BlockKind::Rule,
            BlockKind::FootnoteDef
        ]
    );
}

#[test]
fn plain_positions_round_trip() {
    let text = "abcdef\n\nprintable ASCII ~!\nx";
    for width in [1, 3, 7, 40] {
        let layout = Layout::build(&Rope::from_str(text), width, 4);
        for byte in 0..=text.len() {
            let (row, col) = layout.byte_to_pos(byte);
            assert!(row < layout.len() && usize::from(col) <= width);
            assert_eq!(layout.pos_to_byte(row, col), byte, "byte {byte} at width {width}");
        }
    }
    let layout = Layout::build(&Rope::from_str("abcdef"), 3, 4);
    assert_eq!(layout.byte_to_pos(3), (1, 0));
    let row = layout.row(1);
    assert_eq!((row.byte_start, row.byte_end, row.line), (3, 6, 0));
}

//! Colours, the clipboard, text, keys of one line, the undo history and sessions.

use marqi::clipboard::{base64_encode, osc52_sequence, Clipboard};
use marqi::color::{parse_hex, rgb, rgb_to_ansi256, Color};
use marqi::history::{Edit, History, MAX_UNDO_STEPS};
use marqi::line_input::{edit_line, Key, KeyCode};
use marqi::session::{forget, present, remember, RecentFile, RecentPicker, MAX_RECENT_FILES};
use marqi::teardown::{Restore, RestoreStep};
use marqi::text::{next_grapheme, prev_grapheme};
use ropey::Rope;

#[test]
fn maps_pure_colors_into_the_cube() {
    assert_eq!(rgb_to_ansi256(0, 0, 0), 16);
    assert_eq!(rgb_to_ansi256(255, 255, 255), 231);
    assert_eq!(rgb_to_ansi256(255, 0, 0), 196);
    assert_eq!(rgb_to_ansi256(0, 255, 0), 46);
    assert_eq!(rgb_to_ansi256(0, 0, 255), 21);
}

#[test]
fn maps_mid_gray_into_the_gray_ramp() {
    let idx = rgb_to_ansi256(128, 128, 128);
    assert!((232..=255).contains(&idx), "expected gray ramp, got {idx}");
}

#[test]
fn dark_desaturated_colors_use_the_gray_ramp_not_a_cube_vertex() {
    let idx = rgb_to_ansi256(0x2b, 0x30, 0x3b);
    assert!((232..=255).contains(&idx), "expected gray ramp, got {idx}");
}

#[test]
fn hex_colors_are_parsed() {
    assert_eq!(parse_hex("#ff8000", true), Some(Color::Rgb(255, 128, 0)));
    assert_eq!(parse_hex("#ff0000", false), Some(Color::Indexed(196)));
    assert_eq!(parse_hex("ff80", true), None);
    assert_eq!(parse_hex("#gg8000", true), None);
    assert_eq!(rgb(255, 0, 0, false), Color::Indexed(196));
}

#[test]
fn base64_matches_known_vectors() {
    assert_eq!(base64_encode(b""), "");
    assert_eq!(base64_encode(b"f"), "Zg==");
    assert_eq!(base64_encode(b"fo"), "Zm8=");
    assert_eq!(base64_encode(b"foo"), "Zm9v");
    assert_eq!(base64_encode(b"foob"), "Zm9vYg==");
    assert_eq!(base64_encode(b"hello"), "aGVsbG8=");
}

#[test]
fn osc52_wraps_the_text_for_the_terminal() {
    assert_eq!(
        osc52_sequence("foo", false).as_deref(),
        Some("\x1b]52;c;Zm9v\x07")
    );
    assert!(osc52_sequence("foo", true).is_some_and(|s| s.starts_with("\x1bPtmux;")));
    assert_eq!(osc52_sequence(&"x".repeat(100_000), false), None);
}

#[test]
fn the_register_answers_where_the_system_does_not() {
    let mut clipboard = Clipboard::internal_only();
    clipboard.set("kept", false, true);
    assert_eq!(clipboard.get(None), "kept");
}

/// Walk the whole rope forward one grapheme at a time and collect the offsets.
fn boundaries(text: &str) -> Vec<usize> {
    let rope = Rope::from_str(text);
    let mut offs = vec![0];
    let mut b = 0;
    while b < rope.len_bytes() {
        b = next_grapheme(&rope, b);
        offs.push(b);
    }
    offs
}

#[test]
fn steps_over_cjk_and_emoji_clusters() {
    let text = "a中👍🏽👨‍👩‍👧‍👦b";
    let rope = Rope::from_str(text);
    let offs = boundaries(text);
    let clusters: Vec<&str> = offs.windows(2).map(|w| &text[w[0]..w[1]]).collect();
    assert_eq!(clusters, vec!["a", "中", "👍🏽", "👨‍👩‍👧‍👦", "b"]);
    for w in offs.windows(2) {
        assert_eq!(next_grapheme(&rope, w[0]), w[1]);
        assert_eq!(prev_grapheme(&rope, w[1]), w[0]);
    }
}

#[test]
fn clamps_at_both_ends() {
    let rope = Rope::from_str("hi");
    assert_eq!(prev_grapheme(&rope, 0), 0);
    assert_eq!(next_grapheme(&rope, rope.len_bytes()), rope.len_bytes());
}

#[test]
fn handles_combining_marks_as_one_cluster() {
    let text = "e\u{0301}x";
    let offs = boundaries(text);
    let clusters: Vec<&str> = offs.windows(2).map(|w| &text[w[0]..w[1]]).collect();
    assert_eq!(clusters, vec!["e\u{0301}", "x"]);
}

#[test]
fn a_line_is_edited_by_clusters() {
    let mut input = "a中".to_owned();
    let mut cursor = input.len();
    assert!(edit_line(Key::plain(KeyCode::Backspace), &mut input, &mut cursor));
    assert_eq!((input.as_str(), cursor), ("a", 1));
    assert!(edit_line(Key::plain(KeyCode::Char('b')), &mut input, &mut cursor));
    assert_eq!((input.as_str(), cursor), ("ab", 2));
    assert!(edit_line(Key::plain(KeyCode::Home), &mut input, &mut cursor));
    assert!(edit_line(Key::plain(KeyCode::Delete), &mut input, &mut cursor));
    assert_eq!((input.as_str(), cursor), ("b", 0));
    assert!(!edit_line(Key::plain(KeyCode::Esc), &mut input, &mut cursor));
}

fn ins(start: usize, text: &str, before: usize) -> Edit {
    Edit {
        start,
        removed: String::new(),
        inserted: text.to_string(),
        cursor_before: before,
        cursor_after: before + text.len(),
    }
}

#[test]
fn typing_coalesces_into_one_step() {
    let mut h = History::new();
    h.record(ins(0, "h", 0));
    h.record(ins(1, "i", 1));
    let e = h.undo().expect("one undo step");
    assert_eq!(e.inserted, "hi");
    assert!(h.undo().is_none(), "the burst undoes as a single step");
}

#[test]
fn cursor_move_breaks_the_run() {
    let mut h = History::new();
    h.record(ins(0, "a", 0));
    h.break_run();
    h.record(ins(1, "b", 1));
    assert_eq!(h.undo().unwrap().inserted, "b");
    assert_eq!(h.undo().unwrap().inserted, "a");
}

#[test]
fn redo_restores_after_undo() {
    let mut h = History::new();
    h.record(ins(0, "x", 0));
    let undone = h.undo().unwrap();
    assert_eq!(undone.inserted, "x");
    let redone = h.redo().unwrap();
    assert_eq!(redone.inserted, "x");
}

#[test]
fn new_edit_clears_redo() {
    let mut h = History::new();
    h.record(ins(0, "a", 0));
    h.undo();
    h.record(ins(0, "b", 0));
    assert!(h.redo().is_none(), "a fresh edit discards the redo stack");
}

#[test]
fn undo_back_to_the_saved_state_is_detected() {
    let mut h = History::new();
    assert!(h.at_saved_state(), "a fresh buffer is at its saved state");
    h.record(ins(0, "a", 0));
    h.mark_saved();
    h.record(ins(1, "b", 1));
    assert!(!h.at_saved_state());
    h.undo();
    assert!(h.at_saved_state(), "undoing past-save edits restores it");
    h.redo();
    assert!(!h.at_saved_state());
}

#[test]
fn saved_state_lost_to_a_cleared_redo_branch_never_aliases() {
    let mut h = History::new();
    h.record(ins(0, "a", 0));
    h.break_run();
    h.record(ins(1, "b", 1));
    h.mark_saved();
    h.undo();
    h.record(ins(1, "c", 1));
    assert!(
        !h.at_saved_state(),
        "a different edit at the saved depth must not read as saved"
    );
}

#[test]
fn undo_steps_are_capped() {
    let mut h = History::new();
    for i in 0..(MAX_UNDO_STEPS + 10) {
        h.record(ins(i, "x", i));
        h.break_run();
    }
    let mut steps = 0;
    while h.undo().is_some() {
        steps += 1;
    }
    assert_eq!(steps, MAX_UNDO_STEPS, "oldest steps fall off the bottom");
}

fn recent(path: &str) -> RecentFile {
    RecentFile {
        path: path.to_string(),
        cursor: 0,
        focus_scroll: 0,
        raw_scroll: 0,
        read_scroll: 0,
    }
}

#[test]
fn recent_picker_filters_paths() {
    let files = vec![recent("/notes/alpha.md"), recent("/notes/beta.md")];
    let picker = RecentPicker {
        query: "alp".to_string(),
        selected: 0,
    };
    let matches = picker.matches(&files);
    assert_eq!(matches.len(), 1);
    assert_eq!(files[matches[0]].path, "/notes/alpha.md");
}

#[test]
fn the_latest_file_comes_first_and_once() {
    let mut files = Vec::new();
    for i in 0..MAX_RECENT_FILES + 5 {
        files = remember(files, recent(&format!("/n/{i}")));
    }
    files = remember(files, recent("/n/20"));
    assert_eq!(files.len(), MAX_RECENT_FILES);
    assert_eq!(files[0].path, "/n/20");
    assert_eq!(files.iter().filter(|f| f.path == "/n/20").count(), 1);
    let files = forget(files, "/n/20");
    assert_eq!(files[0].path, "/n/24");
    let there = vec![false; files.len()];
    assert!(present(files, &there).is_empty());
}

#[test]
fn restoration_continues_after_an_error() {
    let mut restore = Restore::begin();
    let mut steps = Vec::new();
    while let Some(step) = restore.step() {
        let (name, result) = match step {
            RestoreStep::PopKeyboardFlags => ("keyboard", Ok(())),
            RestoreStep::DisableMouse => ("mouse", Err("mouse failed".to_owned())),
            RestoreStep::DisablePaste => ("paste", Ok(())),
            RestoreStep::ResetCursor => ("cursor", Ok(())),
            RestoreStep::LeaveScreen => ("screen", Err("screen failed".to_owned())),
            RestoreStep::DisableRaw => ("raw", Ok(())),
        };
        steps.push(name);
        restore.done(result);
    }
    let error = restore.outcome().unwrap_err();

    assert_eq!(
        steps,
        ["keyboard", "mouse", "paste", "cursor", "screen", "raw"]
    );
    assert!(error.contains("mouse failed"));
}

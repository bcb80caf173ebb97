//! The text buffer: a rope holding the markdown source, plus the associated file path
//! and a modified flag.
//!
//! Besides what loading and saving change, this type exposes the byte-range `insert`,
//! `remove`, and `slice` primitives the editor's grapheme-aware cursor builds
//! on; the `modified` flag tracks unsaved changes. Reading and writing files is left to
//! the caller, who hands in what was read and the state of the file.

use ropey::Rope;
use vstd::prelude::*;
use vstd::utf8::*;

use crate::bytes::{boundary, text_between};
use crate::history::spliced;
use crate::rope::{
    lemma_char_index_at_boundary, rope_byte_to_char, rope_clone, rope_bytes, rope_from_str,
    rope_insert, rope_len_bytes, rope_new, rope_remove, rope_slice, rope_text, rope_to_string,
};
use crate::strings::{
    byte_len, byte_length, lemma_bytes_concat, lemma_bytes_injective, opt_view, same, to_chars,
};

verus! {

/// FNV-1a, 64 bits: each byte is mixed in, then the hash is spread by a prime.
pub open spec fn fnv(bytes: Seq<u8>) -> u64
    decreases bytes.len(),
{
    if bytes.len() == 0 {
        0xcbf29ce484222325
    } else {
        let mixed = fnv(bytes.drop_last()) ^ (bytes.last() as u64);
        ((mixed as int * 0x100000001b3) % 0x1_0000_0000_0000_0000) as u64
    }
}

/// A hash of `bytes` that is the same in every run.
pub fn stable_hash(bytes: &[u8]) -> (hash: u64)
    ensures
        hash == fnv(bytes@),
{
    let mut hash: u64 = 0xcbf29ce484222325u64;
    let mut i: usize = 0;
    assert(bytes@.take(0) =~= Seq::empty());
    while i < bytes.len()
        invariant
            i <= bytes@.len(),
            hash == fnv(bytes@.take(i as int)),
        decreases bytes@.len() - i,
    {
        hash = hash ^ (bytes[i] as u64);
        hash = hash.wrapping_mul(0x100000001b3);
        i += 1;
        assert(bytes@.take(i as int).drop_last() =~= bytes@.take(i - 1));
    }
    assert(bytes@.take(i as int) =~= bytes@);
    hash
}

/// The largest document that is kept for recovery, in bytes.
pub const MAX_RECOVERY_BYTES: usize = 33554432;

/// What is known of a file on disk.
#[derive(Clone, Copy, Debug, PartialEq, Eq, Structural)]
pub enum DiskState {
    Missing,
    Present(DiskFingerprint),
}

/// The length, the time of the last change (in nanoseconds, where it is known) and the hash
/// of a file's content.
#[derive(Clone, Copy, Debug, PartialEq, Eq, Structural)]
pub struct DiskFingerprint {
    pub len: u64,
    pub modified: Option<u128>,
    pub hash: u64,
}

/// The fingerprint of a file that holds `bytes`.
pub fn fingerprint(bytes: &[u8], len: u64, modified: Option<u128>) -> (state: DiskState)
    ensures
        state == DiskState::Present(DiskFingerprint { len, modified, hash: fnv(bytes@) }),
{
    DiskState::Present(DiskFingerprint { len, modified, hash: stable_hash(bytes) })
}

/// A path to a file, the name that it ends in, where it ends in one, and the path with
/// links resolved, by which the file is known.
#[derive(Debug)]
pub struct FilePath {
    pub full: String,
    pub file_name: Option<String>,
    pub key: String,
}

/// What a [`FilePath`] says.
#[verifier::ext_equal]
pub struct PathView {
    pub full: Seq<char>,
    pub file_name: Option<Seq<char>>,
    pub key: Seq<char>,
}

impl View for FilePath {
    type V = PathView;

    open spec fn view(&self) -> PathView {
        PathView { full: self.full@, file_name: opt_view(self.file_name), key: self.key@ }
    }
}

impl FilePath {
    /// The same path.
    pub fn copy(&self) -> (path: FilePath)
        ensures
            path@ == self@,
    {
        FilePath {
            full: self.full.clone(),
            file_name: match &self.file_name {
                Some(n) => Some(n.clone()),
                None => None,
            },
            key: self.key.clone(),
        }
    }
}

/// The number of line feeds among the first `n` characters; those after a carriage return
/// when `crlf`, else the others.
pub open spec fn feeds(text: Seq<char>, n: int, crlf: bool) -> int
    decreases n,
{
    if n <= 0 {
        0
    } else {
        feeds(text, n - 1, crlf) + if text[n - 1] == '\n' && crlf == (n >= 2 && text[n - 2] == '\r') {
            1int
        } else {
            0
        }
    }
}

/// Whether CRLF is the dominant line ending of a text.
pub open spec fn mostly_crlf(text: Seq<char>) -> bool {
    feeds(text, text.len() as int, true) > feeds(text, text.len() as int, false)
}

/// Whether CRLF is the dominant line ending in `text`.
pub fn detect_crlf(text: &str) -> (crlf: bool)
    ensures
        crlf == mostly_crlf(text@),
{
    let chars = to_chars(text);
    let count: usize = chars.len();
    let mut with: usize = 0;
    let mut without: usize = 0;
    let mut i: usize = 0;
    while i < count
        invariant
            chars@ == text@,
            count == chars@.len(),
            i <= count,
            with == feeds(text@, i as int, true),
            without == feeds(text@, i as int, false),
            with + without <= i,
        decreases count - i,
    {
        if chars[i] == '\n' {
            if i >= 1 && chars[i - 1] == '\r' {
                with += 1;
            } else {
                without += 1;
            }
        }
        i += 1;
    }
    with > without
}

/// What a [`TextBuffer`] holds.
#[verifier::ext_equal]
pub struct BufferView {
    pub text: Seq<char>,
    pub path: Option<PathView>,
    /// Display name for buffers without a path (e.g. piped stdin).
    pub name: Option<Seq<char>>,
    pub modified: bool,
    pub crlf: bool,
    pub disk: DiskState,
}

impl BufferView {
    pub open spec fn bytes(self) -> Seq<u8> {
        encode_utf8(self.text)
    }

    /// This buffer with another text, which counts as a change.
    pub open spec fn with_text(self, text: Seq<char>) -> BufferView {
        BufferView { text, modified: true, ..self }
    }

    /// The name that is shown for the buffer.
    pub open spec fn shown_name(self) -> Seq<char> {
        match self.path {
            Some(PathView { full, file_name: Some(n), key }) => n,
            _ => match self.name {
                Some(n) => n,
                None => "[No Name]"@,
            },
        }
    }
}

/// A text with the bytes `[start, start + removed)` replaced by other text.
pub open spec fn edited_text(
    text: Seq<char>,
    start: int,
    removed: int,
    inserted: Seq<char>,
) -> Seq<char> {
    decode_utf8(spliced(encode_utf8(text), start, removed, encode_utf8(inserted)))
}

/// Replacing text between two boundaries gives the bytes that it says.
pub proof fn lemma_edited_bytes(text: Seq<char>, start: int, end: int, inserted: Seq<char>)
    requires
        boundary(encode_utf8(text), start),
        boundary(encode_utf8(text), end),
        start <= end,
    ensures
        encode_utf8(edited_text(text, start, end - start, inserted)) == spliced(
            encode_utf8(text),
            start,
            end - start,
            encode_utf8(inserted),
        ),
{
    let b = encode_utf8(text);
    encode_utf8_valid_utf8(text);
    encode_utf8_valid_utf8(inserted);
    crate::bytes::lemma_boundary_ends(b);
    crate::bytes::lemma_valid_between(b, 0, start);
    crate::bytes::lemma_valid_between(b, end, b.len() as int);
    let head = b.subrange(0, start);
    let tail = b.subrange(end, b.len() as int);
    let mid = encode_utf8(inserted);
    lemma_bytes_concat(decode_utf8(head), inserted);
    lemma_bytes_concat(decode_utf8(head) + inserted, decode_utf8(tail));
    decode_utf8_encode_utf8(head);
    decode_utf8_encode_utf8(tail);
    let whole = decode_utf8(head) + inserted + decode_utf8(tail);
    assert(encode_utf8(whole) =~= spliced(b, start, end - start, mid));
    encode_utf8_decode_utf8(whole);
}

/// An in-memory document backed by a rope.
pub struct TextBuffer {
    rope: Rope,
    path: Option<FilePath>,
    /// Display name for buffers without a path (e.g. piped stdin).
    name: Option<String>,
    modified: bool,
    /// Whether new lines should be `\r\n` (the file's dominant ending), so
    /// editing a CRLF file does not produce mixed endings.
    crlf: bool,
    disk_state: DiskState,
}

pub open spec fn path_view(path: Option<FilePath>) -> Option<PathView> {
    match path {
        Some(p) => Some(p@),
        None => None,
    }
}

impl View for TextBuffer {
    type V = BufferView;

    closed spec fn view(&self) -> BufferView {
        BufferView {
            text: rope_text(self.rope),
            path: path_view(self.path),
            name: opt_view(self.name),
            modified: self.modified,
            crlf: self.crlf,
            disk: self.disk_state,
        }
    }
}

impl TextBuffer {
    /// An empty, unnamed buffer.
    pub fn empty() -> (buffer: Self)
        ensures
            buffer@ == (BufferView {
                text: Seq::empty(),
                path: None,
                name: None,
                modified: false,
                crlf: false,
                disk: DiskState::Missing,
            }),
    {
        TextBuffer {
            rope: rope_new(),
            path: None,
            name: None,
            modified: false,
            crlf: false,
            disk_state: DiskState::Missing,
        }
    }

    /// A pathless buffer holding `content` (e.g. markdown piped on stdin),
    /// shown under `name` in the status bar. Saving requires giving it a path.
    pub fn scratch(content: &str, name: &str) -> (buffer: Self)
        ensures
            buffer@ == (BufferView {
                text: content@,
                path: None,
                name: Some(name@),
                modified: false,
                crlf: mostly_crlf(content@),
                disk: DiskState::Missing,
            }),
    {
        TextBuffer {
            rope: rope_from_str(content),
            path: None,
            name: Some(name.to_owned()),
            modified: false,
            crlf: detect_crlf(content),
            disk_state: DiskState::Missing,
        }
    }

    /// A buffer for the file at `path`: what it holds and its state, or an empty buffer
    /// remembering the path where it does not exist yet (so a later save creates the
    /// file).
    pub fn from_path(path: FilePath, content: Option<(&str, DiskState)>) -> (buffer: Self)
        ensures
            buffer@ == (BufferView {
                text: match content {
                    Some((text, _)) => text@,
                    None => Seq::empty(),
                },
                path: Some(path@),
                name: None,
                modified: false,
                crlf: match content {
                    Some((text, _)) => mostly_crlf(text@),
                    None => false,
                },
                disk: match content {
                    Some((_, state)) => state,
                    None => DiskState::Missing,
                },
            }),
    {
        let mut buffer = TextBuffer::empty();
        if let Some((text, state)) = content {
            buffer.rope = rope_from_str(text);
            buffer.crlf = detect_crlf(text);
            buffer.disk_state = state;
        }
        buffer.path = Some(path);
        buffer
    }

    /// The line ending to insert for new lines, matching the file's dominant
    /// existing style.
    pub fn newline(&self) -> (ending: &'static str)
        ensures
            ending@ == (if self@.crlf {
                "\r\n"@
            } else {
                "\n"@
            }),
    {
        if self.crlf {
            "\r\n"
        } else {
            "\n"
        }
    }

    /// Whether the buffer has a file path to save to.
    pub fn has_path(&self) -> (yes: bool)
        ensures
            yes == (self@.path is Some),
    {
        self.path.is_some()
    }

    pub fn path(&self) -> (path: Option<&str>)
        ensures
            match path {
                Some(p) => match self@.path {
                    Some(v) => v.full == p@,
                    None => false,
                },
                None => self@.path is None,
            },
    {
        match &self.path {
            Some(p) => Some(p.full.as_str()),
            None => None,
        }
    }

    /// The path by which the buffer's file is known.
    pub fn path_key(&self) -> (key: Option<&str>)
        ensures
            match key {
                Some(p) => match self@.path {
                    Some(v) => v.key == p@,
                    None => false,
                },
                None => self@.path is None,
            },
    {
        match &self.path {
            Some(p) => Some(p.key.as_str()),
            None => None,
        }
    }

    /// Another buffer with the same contents.
    pub fn copy(&self) -> (buffer: TextBuffer)
        ensures
            buffer@ == self@,
    {
        TextBuffer {
            rope: rope_clone(&self.rope),
            path: match &self.path {
                Some(p) => Some(p.copy()),
                None => None,
            },
            name: match &self.name {
                Some(n) => Some(n.clone()),
                None => None,
            },
            modified: self.modified,
            crlf: self.crlf,
            disk_state: self.disk_state,
        }
    }

    /// Whether the file differs from what was last read or written, given its state now. A
    /// buffer without a path never does.
    pub fn has_external_change(&self, now: DiskState) -> (changed: bool)
        ensures
            changed == (self@.path is Some && now != self@.disk),
    {
        self.path.is_some() && now != self.disk_state
    }

    /// Take note that the buffer was written to its file, whose state is now `state`.
    pub fn saved(&mut self, state: DiskState)
        ensures
            final(self)@ == (BufferView { disk: state, modified: false, ..old(self)@ }),
    {
        self.disk_state = state;
        self.modified = false;
    }

    /// Take over what was read again from the file.
    pub fn reload(&mut self, text: &str, state: DiskState)
        ensures
            final(self)@ == (BufferView {
                text: text@,
                crlf: mostly_crlf(text@),
                disk: state,
                modified: false,
                ..old(self)@
            }),
    {
        self.rope = rope_from_str(text);
        self.crlf = detect_crlf(text);
        self.disk_state = state;
        self.modified = false;
    }

    /// Adopt the path that the buffer was written to ("save as").
    pub fn save_as(&mut self, path: FilePath, state: DiskState)
        ensures
            final(self)@ == (BufferView {
                path: Some(path@),
                name: None,
                disk: state,
                modified: false,
                ..old(self)@
            }),
    {
        self.disk_state = state;
        self.path = Some(path);
        self.name = None;
        self.modified = false;
    }

    /// Adopt the path that the buffer's file was renamed to.
    pub fn rename_to(&mut self, path: FilePath, state: DiskState)
        ensures
            final(self)@ == (BufferView { path: Some(path@), disk: state, ..old(self)@ }),
    {
        self.path = Some(path);
        self.disk_state = state;
    }

    /// Whether the document is small enough to keep for recovery.
    pub fn can_recover(&self) -> (yes: bool)
        ensures
            yes == (self@.bytes().len() <= MAX_RECOVERY_BYTES),
    {
        self.len_bytes() <= MAX_RECOVERY_BYTES
    }

    /// Whether recovered text says anything that the buffer does not.
    pub fn differs_from(&self, recovered: &str) -> (differs: bool)
        ensures
            differs == (recovered@ != self@.text),
    {
        let text = rope_to_string(&self.rope);
        !same(recovered, text.as_str())
    }

    pub fn restore_recovery(&mut self, content: &str)
        ensures
            final(self)@ == (BufferView {
                text: content@,
                crlf: mostly_crlf(content@),
                modified: true,
                ..old(self)@
            }),
    {
        self.rope = rope_from_str(content);
        self.crlf = detect_crlf(content);
        self.modified = true;
    }

    /// What recovery keeps the document under: the resolved path of its file, or its name
    /// where it has none.
    pub fn recovery_identity(&self, resolved: Option<&str>) -> (identity: Option<String>)
        ensures
            opt_view(identity) == (if self@.path is Some {
                match resolved {
                    Some(r) => Some(r@),
                    None => None,
                }
            } else {
                match self@.name {
                    Some(n) => Some(n),
                    None => Some("scratch"@),
                }
            }),
    {
        if self.path.is_some() {
            return match resolved {
                Some(r) => Some(r.to_owned()),
                None => None,
            };
        }
        match &self.name {
            Some(n) => Some(n.clone()),
            None => Some("scratch".to_owned()),
        }
    }

    /// Insert `text` at byte offset `byte`. Returns the byte offset just past
    /// the inserted text (the new cursor position).
    ///
    /// `byte` must lie on a char boundary: a mid-char offset would shift the edit and
    /// desync the returned cursor position. The same holds for `remove` and `slice`.
    pub fn insert(&mut self, byte: usize, text: &str) -> (after: usize)
        requires
            boundary(old(self)@.bytes(), byte as int),
        ensures
            final(self)@ == old(self)@.with_text(
                edited_text(old(self)@.text, byte as int, 0, text@),
            ),
            final(self)@.bytes() == spliced(
                old(self)@.bytes(),
                byte as int,
                0,
                encode_utf8(text@),
            ),
            after == byte + byte_len(text@),
    {
        let ghost before = rope_text(self.rope);
        let index: usize = rope_byte_to_char(&self.rope, byte);
        proof {
            lemma_char_index_at_boundary(before, byte as int, index as int);
            lemma_edited_bytes(before, byte as int, byte as int, text@);
        }
        rope_insert(&mut self.rope, index, text);
        self.modified = true;
        proof {
            let head = before.take(index as int);
            let tail = before.skip(index as int);
            lemma_bytes_concat(head, text@);
            lemma_bytes_concat(head + text@, tail);
            assert(rope_bytes(self.rope) =~= spliced(
                encode_utf8(before),
                byte as int,
                0,
                encode_utf8(text@),
            ));
            lemma_bytes_injective(
                rope_text(self.rope),
                edited_text(before, byte as int, 0, text@),
            );
        }
        let total: usize = rope_len_bytes(&self.rope);
        byte + byte_length(text)
    }

    /// Remove the byte range `[start, end)`.
    pub fn remove(&mut self, start: usize, end: usize)
        requires
            start < end ==> boundary(old(self)@.bytes(), start as int) && boundary(
                old(self)@.bytes(),
                end as int,
            ),
        ensures
            start >= end ==> final(self)@ == old(self)@,
            start < end ==> final(self)@ == old(self)@.with_text(
                edited_text(old(self)@.text, start as int, end - start, Seq::empty()),
            ),
            start < end ==> final(self)@.bytes() == spliced(
                old(self)@.bytes(),
                start as int,
                end - start,
                Seq::empty(),
            ),
    {
        if start >= end {
            return;
        }
        let ghost before = rope_text(self.rope);
        let s: usize = rope_byte_to_char(&self.rope, start);
        let e: usize = rope_byte_to_char(&self.rope, end);
        proof {
            lemma_char_index_at_boundary(before, start as int, s as int);
            lemma_char_index_at_boundary(before, end as int, e as int);
            lemma_edited_bytes(before, start as int, end as int, Seq::empty());
            lemma_index_order(before, s as int, e as int);
            assert(encode_utf8(Seq::<char>::empty()) =~= Seq::<u8>::empty());
        }
        rope_remove(&mut self.rope, s, e);
        self.modified = true;
        proof {
            let head = before.take(s as int);
            let tail = before.skip(e as int);
            lemma_bytes_concat(head, tail);
            assert(rope_bytes(self.rope) =~= spliced(
                encode_utf8(before),
                start as int,
                end - start,
                Seq::empty(),
            ));
            lemma_bytes_injective(
                rope_text(self.rope),
                edited_text(before, start as int, end - start, Seq::empty()),
            );
        }
    }

    /// The text in byte range `[start, end)` as an owned `String`.
    pub fn slice(&self, start: usize, end: usize) -> (text: String)
        requires
            start < end ==> boundary(self@.bytes(), start as int) && boundary(
                self@.bytes(),
                end as int,
            ),
        ensures
            start >= end ==> text@ == Seq::<char>::empty(),
            start < end ==> text@ == text_between(self@.bytes(), start as int, end as int),
            start < end ==> encode_utf8(text@) == self@.bytes().subrange(start as int, end as int),
    {
        if start >= end {
            return String::new();
        }
        let ghost whole = rope_text(self.rope);
        let s: usize = rope_byte_to_char(&self.rope, start);
        let e: usize = rope_byte_to_char(&self.rope, end);
        proof {
            lemma_char_index_at_boundary(whole, start as int, s as int);
            lemma_char_index_at_boundary(whole, end as int, e as int);
            lemma_index_order(whole, s as int, e as int);
        }
        let text = rope_slice(&self.rope, s, e);
        proof {
            let part = whole.subrange(s as int, e as int);
            assert(whole.take(e as int) =~= whole.take(s as int) + part);
            lemma_bytes_concat(whole.take(s as int), part);
            let upto = encode_utf8(whole.take(e as int));
            assert(upto.skip(start as int) =~= encode_utf8(part));
            assert(upto.skip(start as int) =~= self@.bytes().subrange(start as int, end as int));
            encode_utf8_decode_utf8(part);
        }
        text
    }

    /// The underlying rope (read-only access for rendering).
    pub fn rope(&self) -> (rope: &Rope)
        ensures
            rope_text(*rope) == self@.text,
    {
        &self.rope
    }

    /// Total length of the buffer in bytes.
    pub fn len_bytes(&self) -> (n: usize)
        ensures
            n == self@.bytes().len(),
    {
        rope_len_bytes(&self.rope)
    }

    /// Whether the buffer has unsaved changes.
    pub fn modified(&self) -> (yes: bool)
        ensures
            yes == self@.modified,
    {
        self.modified
    }

    /// Override the modified flag. Undo/redo use this to clear it when the
    /// buffer returns to its last-saved state.
    pub fn set_modified(&mut self, modified: bool)
        ensures
            final(self)@ == (BufferView { modified, ..old(self)@ }),
    {
        self.modified = modified;
    }

    /// The file's display name, or a placeholder for an unnamed buffer.
    pub fn file_name(&self) -> (name: String)
        ensures
            name@ == self@.shown_name(),
    {
        if let Some(path) = &self.path {
            if let Some(name) = &path.file_name {
                return name.clone();
            }
        }
        match &self.name {
            Some(name) => name.clone(),
            None => "[No Name]".to_owned(),
        }
    }
}

proof fn lemma_index_order(text: Seq<char>, s: int, e: int)
    requires
        0 <= s <= text.len(),
        0 <= e <= text.len(),
        byte_len(text.take(s)) < byte_len(text.take(e)),
    ensures
        s < e,
{
    if e <= s {
        let part = text.subrange(e, s);
        assert(text.take(s) =~= text.take(e) + part);
        lemma_bytes_concat(text.take(e), part);
    }
}

/// The hexadecimal digit of `d`.
pub open spec fn hex_digit(d: int) -> char {
    if d < 10 {
        (('0' as int) + d) as char
    } else {
        (('a' as int) + d - 10) as char
    }
}

/// The last `n` hexadecimal digits of a number.
pub open spec fn hex_digits(value: int, n: int) -> Seq<char>
    decreases n,
{
    if n <= 0 {
        Seq::empty()
    } else {
        hex_digits(value / 16, n - 1).push(hex_digit(value % 16))
    }
}

/// The name of the file that keeps a document for recovery.
pub open spec fn recovery_name(identity: Seq<char>) -> Seq<char> {
    hex_digits(fnv(encode_utf8(identity)) as int, 16) + ".md"@
}

fn push_hex(out: &mut String, value: u64, n: usize)
    ensures
        final(out)@ == old(out)@ + hex_digits(value as int, n as int),
    decreases n,
{
    if n > 0 {
        push_hex(out, value / 16, n - 1);
        let d: u8 = (value % 16) as u8;
        out.push(
            if d < 10 {
                (48 + d) as char
            } else {
                (87 + d) as char
            },
        );
    }
    assert(out@ =~= old(out)@ + hex_digits(value as int, n as int));
}

/// The name of the file that keeps the document called `identity` for recovery.
pub fn recovery_file(identity: &str) -> (name: String)
    ensures
        name@ == recovery_name(identity@),
{
    let hash: u64 = stable_hash(identity.as_bytes());
    let mut name = String::new();
    push_hex(&mut name, hash, 16);
    name.append(".md");
    assert(name@ =~= recovery_name(identity@));
    name
}

proof fn lemma_feeds(text: Seq<char>, n: int, crlf: bool)
    requires
        0 <= n <= text.len(),
    ensures
        feeds(text, n, crlf) >= 0,
        feeds(text, n, crlf) > 0 <==> (exists|i: int|
            0 <= i < n && #[trigger] text[i] == '\n' && crlf == (i > 0 && text[i - 1] == '\r')),
    decreases n,
{
    if n > 0 {
        lemma_feeds(text, n - 1, crlf);
        if text[n - 1] == '\n' && crlf == (n >= 2 && text[n - 2] == '\r') {
            let i = n - 1;
            assert(0 <= i < n && text[i] == '\n' && crlf == (i > 0 && text[i - 1] == '\r'));
        }
    }
}

/// A text with carriage returns before all of its line feeds, of which there is one at least,
/// has those line endings; one without any before a line feed has the others.
pub proof fn lemma_the_line_ending_is_told(text: Seq<char>)
    ensures
        (forall|i: int|
            0 <= i < text.len() && #[trigger] text[i] == '\n' ==> i > 0 && text[i - 1] == '\r') && (
        exists|i: int| 0 <= i < text.len() && #[trigger] text[i] == '\n') ==> mostly_crlf(text),
        (forall|i: int|
            0 <= i < text.len() && #[trigger] text[i] == '\n' ==> !(i > 0 && text[i - 1] == '\r'))
            ==> !mostly_crlf(text),
{
    let n = text.len() as int;
    lemma_feeds(text, n, true);
    lemma_feeds(text, n, false);
    if exists|i: int| 0 <= i < text.len() && #[trigger] text[i] == '\n' {
        let i = choose|i: int| 0 <= i < text.len() && #[trigger] text[i] == '\n';
        assert(text[i] == '\n');
    }
}

} // verus!
